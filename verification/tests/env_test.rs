use sga::env::{AssignOutcome, Env};

fn s(t: &str) -> String {
    t.to_string()
}

#[test]
fn inner_scopes_shadow_and_vanish() {
    let mut e: Env<i64> = Env::new();
    assert!(e.define(s("x"), 1, false));
    e.push_scope();
    assert!(e.define(s("x"), 2, true));
    assert_eq!(e.lookup(&s("x")), Some(&2));
    assert_eq!(e.assign(&s("x"), 3), AssignOutcome::Assigned);
    assert_eq!(e.lookup(&s("x")), Some(&3));
    e.pop_scope();
    assert_eq!(e.lookup(&s("x")), Some(&1));
    assert_eq!(e.assign(&s("x"), 4), AssignOutcome::Immutable);
    assert_eq!(e.lookup(&s("x")), Some(&1));
    assert_eq!(e.assign(&s("y"), 5), AssignOutcome::Undefined);
    assert_eq!(e.lookup(&s("y")), None);
}

#[test]
fn a_later_binding_in_one_scope_replaces_the_earlier() {
    let mut e: Env<&str> = Env::new();
    assert!(e.define(s("a"), "first", true));
    assert!(e.define(s("a"), "second", false));
    assert_eq!(e.lookup(&s("a")), Some(&"second"));
    assert_eq!(e.assign(&s("a"), "third"), AssignOutcome::Immutable);
    assert_eq!(e.len(), 2);
    assert_eq!(e.binding(0), (&s("a"), &"first", true));
}

#[test]
fn no_scope_left_refuses_definitions() {
    let mut e: Env<i64> = Env::new();
    assert!(e.define(s("x"), 1, true));
    e.pop_scope();
    assert_eq!(e.len(), 0);
    assert!(!e.define(s("x"), 2, true));
    assert_eq!(e.lookup(&s("x")), None);
    e.pop_scope();
    assert_eq!(e.len(), 0);
}
