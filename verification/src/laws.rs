use vstd::prelude::*;

use crate::buffer::pushed_view;

verus! {

/// The logical contents after pushing each element of `vs`, in order,
/// onto a buffer of capacity `cap` that held `s0` (newest first).
pub open spec fn view_after_pushes<T>(s0: Seq<T>, vs: Seq<T>, cap: nat) -> Seq<T>
    decreases vs.len(),
{
    if vs.len() == 0 {
        s0
    } else {
        view_after_pushes(pushed_view(s0, vs.first(), cap), vs.drop_first(), cap)
    }
}

/// Shape of the contents after any run of pushes: the pushed values in
/// reverse order of pushing, then the previous contents, truncated to the
/// capacity.
pub proof fn lemma_view_after_pushes<T>(s0: Seq<T>, vs: Seq<T>, cap: nat)
    requires
        s0.len() <= cap,
    ensures
        view_after_pushes(s0, vs, cap) == (vs.reverse() + s0).take(
            vstd::math::min(vs.len() + s0.len() as int, cap as int),
        ),
    decreases vs.len(),
{
    if vs.len() == 0 {
        assert(s0 =~= (vs.reverse() + s0).take(vstd::math::min(vs.len() + s0.len() as int, cap as int)));
    } else {
        let s1 = pushed_view(s0, vs.first(), cap);
        lemma_view_after_pushes(s1, vs.drop_first(), cap);
        assert(view_after_pushes(s0, vs, cap) =~= (vs.reverse() + s0).take(
            vstd::math::min(vs.len() + s0.len() as int, cap as int),
        ));
    }
}

/// Capacity bound: after at least `cap` pushes onto any buffer of capacity
/// `cap`, exactly `cap` elements remain, and they are the last `cap` pushed
/// values in reverse chronological order (newest first).
pub proof fn lemma_capacity_bound<T>(s0: Seq<T>, vs: Seq<T>, cap: nat)
    requires
        s0.len() <= cap,
        vs.len() >= cap,
    ensures
        view_after_pushes(s0, vs, cap).len() == cap,
        view_after_pushes(s0, vs, cap) == vs.reverse().take(cap as int),
        forall|k: int|
            0 <= k < cap ==> view_after_pushes(s0, vs, cap)[k] == vs[vs.len() - 1 - k],
{
    lemma_view_after_pushes(s0, vs, cap);
    assert(view_after_pushes(s0, vs, cap) =~= vs.reverse().take(cap as int));
}

/// Under-capacity growth: fewer than `cap` pushes onto an empty buffer of
/// capacity `cap` hold exactly the pushed values, newest first.
pub proof fn lemma_under_capacity_growth<T>(vs: Seq<T>, cap: nat)
    requires
        vs.len() < cap,
    ensures
        view_after_pushes(Seq::<T>::empty(), vs, cap).len() == vs.len(),
        view_after_pushes(Seq::<T>::empty(), vs, cap) == vs.reverse(),
{
    lemma_view_after_pushes(Seq::<T>::empty(), vs, cap);
    assert(view_after_pushes(Seq::<T>::empty(), vs, cap) =~= vs.reverse());
}

/// Eviction: pushing `cap + 1` values onto an empty buffer of capacity
/// `cap` discards exactly the first-pushed (oldest) value and no other.
pub proof fn lemma_eviction<T>(vs: Seq<T>, cap: nat)
    requires
        vs.len() == cap + 1,
    ensures
        view_after_pushes(Seq::<T>::empty(), vs, cap) == vs.drop_first().reverse(),
{
    lemma_view_after_pushes(Seq::<T>::empty(), vs, cap);
    assert(view_after_pushes(Seq::<T>::empty(), vs, cap) =~= vs.drop_first().reverse());
}

} // verus!

