//! Laws of the variables of a running program: a read gives back what the
//! last definition or assignment of the name wrote, and leaving a scope
//! forgets what it defined and brings back what it shadowed.
use vstd::prelude::*;
use crate::env::{env_get, last_binding, BindingV, EnvV};

verus! {

/// The last binding of `n` among the first `k` lies among them and binds `n`.
proof fn lemma_last_binding_range<V>(b: Seq<BindingV<V>>, n: Seq<char>, k: int)
    requires
        0 <= k <= b.len(),
    ensures
        last_binding(b, n, k) matches Some(i) ==> 0 <= i < k && b[i].0 == n,
    decreases k,
{
    if k > 0 && b[k - 1].0 != n {
        lemma_last_binding_range(b, n, k - 1);
    }
}

/// The last binding of `n` among the first `k`, once more bindings follow
/// that do not bind `n`, is still the last one.
proof fn lemma_last_binding_extend<V>(b: Seq<BindingV<V>>, extra: Seq<BindingV<V>>, n: Seq<char>, k: int)
    requires
        0 <= k <= extra.len(),
        forall|j: int| 0 <= j < extra.len() ==> (#[trigger] extra[j]).0 != n,
    ensures
        last_binding(b + extra, n, b.len() + k) == last_binding(b, n, b.len() as int),
    decreases k,
{
    if k > 0 {
        assert((b + extra)[b.len() + k - 1] == extra[k - 1]);
        lemma_last_binding_extend(b, extra, n, k - 1);
    } else {
        lemma_last_binding_prefix(b, extra, n, b.len() as int);
    }
}

/// Among the first `k <= b.len()` bindings, `b + extra` and `b` agree.
proof fn lemma_last_binding_prefix<V>(b: Seq<BindingV<V>>, extra: Seq<BindingV<V>>, n: Seq<char>, k: int)
    requires
        0 <= k <= b.len(),
    ensures
        last_binding(b + extra, n, k) == last_binding(b, n, k),
    decreases k,
{
    if k > 0 {
        assert((b + extra)[k - 1] == b[k - 1]);
        lemma_last_binding_prefix(b, extra, n, k - 1);
    }
}

/// After `n` is defined with a value and a mutability, reading `n` gives
/// exactly that value and mutability, whatever `n` meant before; every
/// other name keeps its meaning.
pub proof fn lemma_read_after_define<V>(e: EnvV<V>, n: Seq<char>, v: V, mutable: bool, other: Seq<char>)
    ensures
        env_get(EnvV { bindings: e.bindings.push((n, v, mutable)), starts: e.starts }, n) == Some((v, mutable)),
        other != n ==> env_get(EnvV { bindings: e.bindings.push((n, v, mutable)), starts: e.starts }, other)
            == env_get(e, other),
{
    let b2 = e.bindings.push((n, v, mutable));
    assert(b2[b2.len() - 1] == (n, v, mutable));
    if other != n {
        assert(b2 =~= e.bindings + seq![(n, v, mutable)]);
        lemma_last_binding_extend(e.bindings, seq![(n, v, mutable)], other, 1);
        lemma_last_binding_range(e.bindings, other, e.bindings.len() as int);
    }
}

/// After the binding that `n` means is given a new value, reading `n`
/// gives that value, and every other name keeps its meaning.
pub proof fn lemma_read_after_assign<V>(e: EnvV<V>, n: Seq<char>, v: V, other: Seq<char>)
    requires
        last_binding(e.bindings, n, e.bindings.len() as int) is Some,
    ensures
        ({
            let i = last_binding(e.bindings, n, e.bindings.len() as int)->Some_0;
            let e2 = EnvV { bindings: e.bindings.update(i, (n, v, true)), starts: e.starts };
            &&& env_get(e2, n) == Some((v, true))
            &&& other != n ==> env_get(e2, other) == env_get(e, other)
        }),
{
    let i = last_binding(e.bindings, n, e.bindings.len() as int)->Some_0;
    lemma_last_binding_range(e.bindings, n, e.bindings.len() as int);
    lemma_last_binding_range(e.bindings, other, e.bindings.len() as int);
    lemma_last_binding_update(e.bindings, n, i, v, n, e.bindings.len() as int);
    lemma_last_binding_update(e.bindings, n, i, v, other, e.bindings.len() as int);
}

/// Updating the last binding of `n` (at `i`) keeps the name there, so the
/// last binding of any name stays where it was.
proof fn lemma_last_binding_update<V>(b: Seq<BindingV<V>>, n: Seq<char>, i: int, v: V, m: Seq<char>, k: int)
    requires
        0 <= i < b.len(),
        b[i].0 == n,
        0 <= k <= b.len(),
    ensures
        last_binding(b.update(i, (n, v, true)), m, k) == last_binding(b, m, k),
    decreases k,
{
    if k > 0 {
        assert(b.update(i, (n, v, true))[k - 1].0 == b[k - 1].0);
        lemma_last_binding_update(b, n, i, v, m, k - 1);
    }
}

/// Leaving a scope forgets whatever was defined in it: with the bindings
/// made since the scope opened removed, every name means again what it
/// meant before, the value of a shadowed outer variable included.
pub proof fn lemma_leave_scope_restores<V>(e: EnvV<V>, inner: Seq<BindingV<V>>, n: Seq<char>)
    ensures
        env_get(EnvV { bindings: (e.bindings + inner).take(e.bindings.len() as int), starts: e.starts }, n)
            == env_get(e, n),
{
    assert((e.bindings + inner).take(e.bindings.len() as int) =~= e.bindings);
}

} // verus!
