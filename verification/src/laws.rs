//! Algebraic laws of the buffer, proved once and for all.
//!
//! Every operation's contract describes one step on the buffer's view:
//! `push_back` appends, `push_front` prepends, `pop_front` removes and
//! returns the first element, `pop_back` the last.  The spec functions
//! here iterate those steps over whole runs of calls, and the proof
//! functions state the laws that any client of the contracts can rely
//! on: first-in-first-out behaviour across the two ends, stack behaviour
//! at one end, growth of the occupancy under insertion, and agreement of
//! indexed access with repeated removal.

use vstd::prelude::*;

verus! {

/// The view after pushing each element of `vs` at the back, in order:
/// `push_back`'s contract, iterated.
pub open spec fn after_push_back_all<T>(s: Seq<T>, vs: Seq<T>) -> Seq<T>
    decreases vs.len(),
{
    if vs.len() == 0 {
        s
    } else {
        after_push_back_all(s.push(vs[0]), vs.drop_first())
    }
}

/// The view after pushing each element of `vs` at the front, in order:
/// `push_front`'s contract, iterated.
pub open spec fn after_push_front_all<T>(s: Seq<T>, vs: Seq<T>) -> Seq<T>
    decreases vs.len(),
{
    if vs.len() == 0 {
        s
    } else {
        after_push_front_all(seq![vs[0]] + s, vs.drop_first())
    }
}

/// The values returned by `n` front removals from a buffer whose view is
/// `s`: `pop_front`'s contract, iterated.  Meaningful for `n <= s.len()`.
pub open spec fn front_pop_results<T>(s: Seq<T>, n: nat) -> Seq<T>
    decreases n,
{
    if n == 0 {
        Seq::empty()
    } else {
        seq![s.first()] + front_pop_results(s.drop_first(), (n - 1) as nat)
    }
}

/// The view left behind by `n` front removals.
pub open spec fn after_front_pops<T>(s: Seq<T>, n: nat) -> Seq<T>
    decreases n,
{
    if n == 0 {
        s
    } else {
        after_front_pops(s.drop_first(), (n - 1) as nat)
    }
}

/// The values returned by `n` back removals from a buffer whose view is
/// `s`: `pop_back`'s contract, iterated.  Meaningful for `n <= s.len()`.
pub open spec fn back_pop_results<T>(s: Seq<T>, n: nat) -> Seq<T>
    decreases n,
{
    if n == 0 {
        Seq::empty()
    } else {
        seq![s.last()] + back_pop_results(s.drop_last(), (n - 1) as nat)
    }
}

/// The view after a mixed run of successful insertions: each step pushes
/// at the back (`true`) or at the front (`false`).
pub open spec fn after_mixed_pushes<T>(s: Seq<T>, ops: Seq<(bool, T)>) -> Seq<T>
    decreases ops.len(),
{
    if ops.len() == 0 {
        s
    } else {
        let stepped = if ops[0].0 {
            s.push(ops[0].1)
        } else {
            seq![ops[0].1] + s
        };
        after_mixed_pushes(stepped, ops.drop_first())
    }
}

/// Pushing a run at the back appends it wholesale.
pub proof fn lemma_push_back_all_appends<T>(s: Seq<T>, vs: Seq<T>)
    ensures
        after_push_back_all(s, vs) == s + vs,
    decreases vs.len(),
{
    if vs.len() == 0 {
        assert(s + vs =~= s);
    } else {
        lemma_push_back_all_appends(s.push(vs[0]), vs.drop_first());
        assert(s.push(vs[0]) + vs.drop_first() =~= s + vs);
    }
}

/// Pushing a run at the front prepends it reversed.
pub proof fn lemma_push_front_all_prepends_reversed<T>(s: Seq<T>, vs: Seq<T>)
    ensures
        after_push_front_all(s, vs) == vs.reverse() + s,
    decreases vs.len(),
{
    if vs.len() == 0 {
        assert(vs.reverse() + s =~= s);
    } else {
        lemma_push_front_all_prepends_reversed(seq![vs[0]] + s, vs.drop_first());
        assert(vs.drop_first().reverse() + (seq![vs[0]] + s) =~= vs.reverse() + s);
    }
}

/// Front removals return the prefix of the view, in order.
pub proof fn lemma_front_pops_take_prefix<T>(s: Seq<T>, n: nat)
    requires
        n <= s.len(),
    ensures
        front_pop_results(s, n) == s.take(n as int),
        after_front_pops(s, n) == s.skip(n as int),
    decreases n,
{
    if n == 0 {
        assert(s.take(0) =~= Seq::<T>::empty());
        assert(s.skip(0) =~= s);
    } else {
        lemma_front_pops_take_prefix(s.drop_first(), (n - 1) as nat);
        assert(seq![s.first()] + s.drop_first().take(n - 1) =~= s.take(n as int));
        assert(s.drop_first().skip(n - 1) =~= s.skip(n as int));
    }
}

/// Back removals return the suffix of the view, last element first.
pub proof fn lemma_back_pops_reverse_suffix<T>(s: Seq<T>, n: nat)
    requires
        n <= s.len(),
    ensures
        back_pop_results(s, n) == s.skip(s.len() - n).reverse(),
    decreases n,
{
    if n == 0 {
        assert(s.skip(s.len() as int).reverse() =~= Seq::<T>::empty());
    } else {
        lemma_back_pops_reverse_suffix(s.drop_last(), (n - 1) as nat);
        assert(seq![s.last()] + s.drop_last().skip(s.len() - n).reverse() =~= s.skip(
            s.len() - n,
        ).reverse());
    }
}

/// First in, first out: pushing the elements of `vs` at the back of an
/// empty buffer and then removing the same number from the front returns
/// exactly `vs`, in the push order, and leaves the buffer empty again.
pub proof fn lemma_fifo<T>(vs: Seq<T>)
    ensures
        front_pop_results(after_push_back_all(Seq::<T>::empty(), vs), vs.len()) == vs,
        after_front_pops(after_push_back_all(Seq::<T>::empty(), vs), vs.len())
            == Seq::<T>::empty(),
{
    lemma_push_back_all_appends(Seq::<T>::empty(), vs);
    assert(Seq::<T>::empty() + vs =~= vs);
    lemma_front_pops_take_prefix(vs, vs.len());
    assert(vs.take(vs.len() as int) =~= vs);
    assert(vs.skip(vs.len() as int) =~= Seq::<T>::empty());
}

/// Stack behaviour at the front: pushing the elements of `vs` at the
/// front of an empty buffer and then removing from the front returns
/// them in reverse push order; removing from the back instead returns
/// them in push order.
pub proof fn lemma_lifo_at_front<T>(vs: Seq<T>)
    ensures
        front_pop_results(after_push_front_all(Seq::<T>::empty(), vs), vs.len())
            == vs.reverse(),
        back_pop_results(after_push_front_all(Seq::<T>::empty(), vs), vs.len()) == vs,
{
    lemma_push_front_all_prepends_reversed(Seq::<T>::empty(), vs);
    assert(vs.reverse() + Seq::<T>::empty() =~= vs.reverse());
    let rev = vs.reverse();
    lemma_front_pops_take_prefix(rev, rev.len());
    assert(rev.take(rev.len() as int) =~= rev);
    lemma_back_pops_reverse_suffix(rev, rev.len());
    assert(rev.skip(0) =~= rev);
    assert(rev.reverse() =~= vs);
}

/// Every successful insertion grows the occupancy by exactly one, at
/// whichever end: a mixed run of insertions from occupancy `s.len()`
/// ends at occupancy `s.len() + ops.len()`.  In particular, a run of
/// exactly `S` insertions into an empty buffer of capacity `S` fills it.
pub proof fn lemma_mixed_pushes_grow<T>(s: Seq<T>, ops: Seq<(bool, T)>)
    ensures
        after_mixed_pushes(s, ops).len() == s.len() + ops.len(),
    decreases ops.len(),
{
    if ops.len() != 0 {
        let stepped = if ops[0].0 {
            s.push(ops[0].1)
        } else {
            seq![ops[0].1] + s
        };
        lemma_mixed_pushes_grow(stepped, ops.drop_first());
    }
}

/// Indexed access agrees with repeated front removal: the last of the
/// first `i + 1` values that front removals return from view `s` is
/// `s[i]`, the very value `get(i)` returns without touching the buffer.
pub proof fn lemma_get_matches_front_pops<T>(s: Seq<T>, i: int)
    requires
        0 <= i < s.len(),
    ensures
        front_pop_results(s, (i + 1) as nat).last() == s[i],
{
    lemma_front_pops_take_prefix(s, (i + 1) as nat);
}

} // verus!
