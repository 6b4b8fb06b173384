//! The variables of a running program: a stack of scopes, each binding
//! names to values and to whether they may change.
//!
//! The bindings of all scopes lie in one list, the scopes one after the
//! other from the outermost, each binding after the earlier ones of its
//! scope. A name therefore means its last binding in the list: the one of
//! the innermost scope that binds it, and in that scope the latest.
use vstd::prelude::*;

verus! {

/// One binding: a name, a value, and whether the value may change.
pub type BindingV<V> = (Seq<char>, V, bool);

/// The value of an environment: its bindings, and where each scope starts.
pub struct EnvV<V> {
    pub bindings: Seq<BindingV<V>>,
    pub starts: Seq<int>,
}

/// The position of the last binding of `n` among the first `k` bindings.
pub open spec fn last_binding<V>(b: Seq<BindingV<V>>, n: Seq<char>, k: int) -> Option<int>
    decreases k,
{
    if k <= 0 {
        None
    } else if b[k - 1].0 == n {
        Some(k - 1)
    } else {
        last_binding(b, n, k - 1)
    }
}

/// What a name means: the value and mutability of its last binding.
pub open spec fn env_get<V>(e: EnvV<V>, n: Seq<char>) -> Option<(V, bool)> {
    match last_binding(e.bindings, n, e.bindings.len() as int) {
        Some(i) => Some((e.bindings[i].1, e.bindings[i].2)),
        None => None,
    }
}

/// The bindings of all scopes lie after the start of the first, and the
/// scopes start in order.
pub open spec fn env_wf<V>(e: EnvV<V>) -> bool {
    &&& (e.starts.len() == 0 ==> e.bindings.len() == 0)
    &&& (e.starts.len() > 0 ==> e.starts[0] == 0)
    &&& forall|i: int, j: int|
        0 <= i <= j < e.starts.len() ==> 0 <= #[trigger] e.starts[i] <= #[trigger] e.starts[j] <= e.bindings.len()
}

proof fn lemma_last_binding<V>(b: Seq<BindingV<V>>, n: Seq<char>, k: int)
    requires
        0 <= k <= b.len(),
    ensures
        last_binding(b, n, k) matches Some(i) ==> 0 <= i < k && b[i].0 == n,
        last_binding(b, n, k) is None ==> forall|i: int| 0 <= i < k ==> b[i].0 != n,
        last_binding(b, n, k) matches Some(i) ==> forall|j: int| i < j < k ==> b[j].0 != n,
    decreases k,
{
    if k > 0 && b[k - 1].0 != n {
        lemma_last_binding(b, n, k - 1);
    }
}

/// The outcome of an assignment.
#[derive(Debug, PartialEq, Eq)]
pub enum AssignOutcome {
    /// The variable now holds the value.
    Assigned,
    /// The variable may not change.
    Immutable,
    /// No variable has the name.
    Undefined,
}

/// The variables of a running program.
pub struct Env<V> {
    bindings: Vec<(String, V, bool)>,
    starts: Vec<usize>,
}

impl<V> View for Env<V> {
    type V = EnvV<V>;

    closed spec fn view(&self) -> EnvV<V> {
        EnvV {
            bindings: self.bindings@.map_values(|b: (String, V, bool)| (b.0@, b.1, b.2)),
            starts: self.starts@.map_values(|s: usize| s as int),
        }
    }
}

impl<V> Env<V> {
    /// The invariant of an environment.
    pub closed spec fn wf(&self) -> bool {
        env_wf(self@)
    }

    /// An environment with one empty scope.
    pub fn new() -> (r: Self)
        ensures
            r.wf(),
            r@.bindings == Seq::<BindingV<V>>::empty(),
            r@.starts == seq![0int],
    {
        let mut starts: Vec<usize> = Vec::new();
        starts.push(0);
        let r = Env { bindings: Vec::new(), starts };
        assert(r@.bindings =~= Seq::<BindingV<V>>::empty());
        assert(r@.starts =~= seq![0int]);
        r
    }

    /// Opens a new, empty innermost scope.
    pub fn push_scope(&mut self)
        requires
            old(self).wf(),
        ensures
            final(self).wf(),
            final(self)@.bindings == old(self)@.bindings,
            final(self)@.starts == old(self)@.starts.push(old(self)@.bindings.len() as int),
    {
        let ghost old_v = self@;
        let n = self.bindings.len();
        self.starts.push(n);
        assert(self@.starts =~= old_v.starts.push(old_v.bindings.len() as int));
        assert(self@.bindings =~= old_v.bindings);
    }

    /// Closes the innermost scope, with its bindings; nothing happens when
    /// there is no scope.
    pub fn pop_scope(&mut self)
        requires
            old(self).wf(),
        ensures
            final(self).wf(),
            old(self)@.starts.len() == 0 ==> final(self)@ == old(self)@,
            old(self)@.starts.len() > 0 ==> final(self)@.starts == old(self)@.starts.drop_last()
                && final(self)@.bindings == old(self)@.bindings.take(old(self)@.starts.last()),
    {
        let ghost old_v = self@;
        if self.starts.len() == 0 {
            return;
        }
        let start = self.starts.pop().unwrap();
        assert(old_v.starts[old_v.starts.len() - 1] == start as int);
        while self.bindings.len() > start
            invariant
                start <= self.bindings.len() <= old_v.bindings.len(),
                self.bindings@.map_values(|b: (String, V, bool)| (b.0@, b.1, b.2)) == old_v.bindings.take(
                    self.bindings.len() as int,
                ),
                self@.starts == old_v.starts.drop_last(),
                old_v.starts.last() == start as int,
            decreases self.bindings.len(),
        {
            let ghost before = self.bindings@;
            self.bindings.pop();
            assert(self.bindings@ =~= before.drop_last());
            assert(self.bindings@.map_values(|b: (String, V, bool)| (b.0@, b.1, b.2)) =~= old_v.bindings.take(
                self.bindings.len() as int,
            ));
        }
        assert(self@.bindings =~= old_v.bindings.take(old_v.starts.last()));
        assert(self@.starts =~= old_v.starts.drop_last());
    }

    /// Binds `name` in the innermost scope; refused (`false`) when there is
    /// no scope.
    pub fn define(&mut self, name: String, value: V, mutable: bool) -> (r: bool)
        requires
            old(self).wf(),
        ensures
            final(self).wf(),
            r == (old(self)@.starts.len() > 0),
            r ==> final(self)@.bindings == old(self)@.bindings.push((name@, value, mutable))
                && final(self)@.starts == old(self)@.starts,
            !r ==> final(self)@ == old(self)@,
    {
        if self.starts.len() == 0 {
            return false;
        }
        let ghost old_v = self@;
        self.bindings.push((name, value, mutable));
        assert(self@.bindings =~= old_v.bindings.push((name@, value, mutable)));
        assert(self@.starts =~= old_v.starts);
        true
    }

    /// The position of the last binding of `name`.
    fn find(&self, name: &String) -> (r: Option<usize>)
        ensures
            r matches Some(i) ==> last_binding(self@.bindings, name@, self@.bindings.len() as int) == Some(i as int),
            r is None ==> last_binding(self@.bindings, name@, self@.bindings.len() as int) is None,
            r matches Some(i) ==> i < self.bindings.len(),
    {
        let ghost b = self@.bindings;
        let mut k: usize = self.bindings.len();
        while k > 0
            invariant
                k <= self.bindings.len(),
                b == self@.bindings,
                last_binding(b, name@, self.bindings.len() as int) == last_binding(b, name@, k as int),
            decreases k,
        {
            assert(b[k - 1] == (self.bindings@[k - 1].0@, self.bindings@[k - 1].1, self.bindings@[k - 1].2));
            if crate::semantic::str_eq(&self.bindings[k - 1].0, name) {
                return Some(k - 1);
            }
            k = k - 1;
        }
        None
    }

    /// The value `name` means, if any.
    pub fn lookup(&self, name: &String) -> (r: Option<&V>)
        ensures
            (r is Some) == (env_get(self@, name@) is Some),
            r matches Some(v) ==> *v == env_get(self@, name@).unwrap().0,
    {
        match self.find(name) {
            Some(i) => Some(&self.bindings[i].1),
            None => None,
        }
    }

    /// Gives the variable `name` the value `value`, when it is bound and may
    /// change; otherwise nothing changes.
    pub fn assign(&mut self, name: &String, value: V) -> (r: AssignOutcome)
        requires
            old(self).wf(),
        ensures
            final(self).wf(),
            env_get(old(self)@, name@) is None ==> r == AssignOutcome::Undefined && final(self)@ == old(self)@,
            env_get(old(self)@, name@) matches Some((_, false)) ==> r == AssignOutcome::Immutable && final(self)@
                == old(self)@,
            env_get(old(self)@, name@) matches Some((_, true)) ==> r == AssignOutcome::Assigned && final(self)@.starts
                == old(self)@.starts && final(self)@.bindings == old(self)@.bindings.update(
                last_binding(old(self)@.bindings, name@, old(self)@.bindings.len() as int).unwrap(),
                (name@, value, true),
            ),
    {
        let ghost old_v = self@;
        match self.find(name) {
            None => AssignOutcome::Undefined,
            Some(i) => {
                if !self.bindings[i].2 {
                    return AssignOutcome::Immutable;
                }
                proof {
                    lemma_last_binding(old_v.bindings, name@, old_v.bindings.len() as int);
                }
                let n = self.bindings[i].0.clone();
                self.bindings.set(i, (n, value, true));
                assert(self@.bindings =~= old_v.bindings.update(i as int, (name@, value, true)));
                assert(self@.starts =~= old_v.starts);
                AssignOutcome::Assigned
            },
        }
    }

    /// The number of bindings, all scopes together.
    pub fn len(&self) -> (r: usize)
        ensures
            r == self@.bindings.len(),
    {
        self.bindings.len()
    }

    /// The binding at position `i`, counting from the outermost scope.
    pub fn binding(&self, i: usize) -> (r: (&String, &V, bool))
        requires
            i < self@.bindings.len(),
        ensures
            (r.0@, *r.1, r.2) == self@.bindings[i as int],
    {
        let b = &self.bindings[i];
        (&b.0, &b.1, b.2)
    }
}

} // verus!
