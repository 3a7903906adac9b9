//! Properties that relate several operations of the list, its cursors and
//! its iterators, stated over the models their contracts use.
use vstd::prelude::*;

use crate::chain::lemma_prefix_ends;
use crate::cursor::{next_pos, prev_pos};
use crate::list::ArrayList;

verus! {

/// Whatever operations built it, a list's cached length is the number of
/// elements its chunks hold along the chain, and indexing finds element `i`
/// of its sequence exactly for `i` in `0..len`.
pub proof fn lemma_len_counts_live_elements<T, const N: usize>(list: &ArrayList<T, N>)
    requires
        list.wf(),
    ensures
        list.cached_len() == list.live_count(),
        list.live_count() == list@.len(),
        forall|i: int| 0 <= i < list@.len() ==> #[trigger] list.spec_get(i) == Some(&list@[i]),
        forall|i: int| !(0 <= i < list@.len()) ==> #[trigger] list.spec_get(i) == None::<&T>,
{
    lemma_prefix_ends(list.chunks());
}

/// The front is element 0 and the back is element `len - 1`; both are
/// absent exactly when the list is empty.
pub proof fn lemma_front_back_are_ends<T, const N: usize>(list: &ArrayList<T, N>)
    requires
        list.wf(),
    ensures
        list.spec_get(0) is None <==> list@.len() == 0,
        list.spec_get(list@.len() - 1) is None <==> list@.len() == 0,
        list@.len() > 0 ==> list.spec_get(0) == Some(&list@[0]) && list.spec_get(list@.len() - 1)
            == Some(&list@.last()),
{
}

/// A step forward and a step back, in either order, bring a cursor back to
/// where it was, the ghost position included; so its current element and
/// both neighbours are as before.
pub proof fn lemma_cursor_round_trip(p: int, len: int)
    requires
        0 <= p <= len,
    ensures
        prev_pos(next_pos(p, len), len) == p,
        next_pos(prev_pos(p, len), len) == p,
        0 <= next_pos(p, len) <= len,
        0 <= prev_pos(p, len) <= len,
{
}

/// The elements handed out by a double-ended iterator over `rest` when, at
/// each call, `picks` says whether it is taken from the front (`true`) or
/// from the back (`false`).
pub open spec fn drained<T>(rest: Seq<T>, picks: Seq<bool>) -> Seq<T>
    decreases picks.len(),
{
    if picks.len() == 0 || rest.len() == 0 {
        Seq::empty()
    } else if picks[0] {
        seq![rest[0]] + drained(rest.drop_first(), picks.drop_first())
    } else {
        seq![rest.last()] + drained(rest.drop_last(), picks.drop_first())
    }
}

/// The elements an iterator over `rest` still holds after the calls `picks`.
pub open spec fn left_over<T>(rest: Seq<T>, picks: Seq<bool>) -> Seq<T>
    decreases picks.len(),
{
    if picks.len() == 0 || rest.len() == 0 {
        rest
    } else if picks[0] {
        left_over(rest.drop_first(), picks.drop_first())
    } else {
        left_over(rest.drop_last(), picks.drop_first())
    }
}

/// However calls from the front and from the back are interleaved, an
/// iterator over `n` elements hands out each of them once: after `n` calls
/// it has handed out exactly the multiset of its elements and holds none.
pub proof fn lemma_double_ended_drain<T>(rest: Seq<T>, picks: Seq<bool>)
    requires
        picks.len() == rest.len(),
    ensures
        drained(rest, picks).len() == rest.len(),
        drained(rest, picks).to_multiset() == rest.to_multiset(),
        left_over(rest, picks) == Seq::<T>::empty(),
    decreases picks.len(),
{
    if picks.len() == 0 {
        assert(rest =~= Seq::<T>::empty());
    } else {
        let x = if picks[0] { rest[0] } else { rest.last() };
        let smaller = if picks[0] { rest.drop_first() } else { rest.drop_last() };
        lemma_double_ended_drain(smaller, picks.drop_first());
        let d = drained(smaller, picks.drop_first());
        assert(drained(rest, picks) == seq![x] + d);
        vstd::seq_lib::lemma_multiset_commutative(seq![x], d);
        vstd::seq_lib::lemma_multiset_commutative(seq![x], smaller);
        if picks[0] {
            assert(rest =~= seq![x] + smaller);
        } else {
            assert(rest =~= smaller.push(x));
            vstd::seq_lib::lemma_multiset_commutative(smaller, seq![x]);
            assert(smaller.push(x) =~= smaller + seq![x]);
        }
    }
}

/// A push at the back makes the list one longer, puts the value at the back
/// and leaves every earlier element where it was.
pub proof fn lemma_push_back_law<T, const N: usize>(before: &ArrayList<T, N>, after: &ArrayList<T, N>, v: T)
    requires
        before.wf(),
        after.wf(),
        after@ == before@.push(v),
    ensures
        after.cached_len() == before.cached_len() + 1,
        after.spec_get(after@.len() - 1) == Some(&v),
        forall|i: int| 0 <= i < before@.len() ==> #[trigger] after.spec_get(i) == before.spec_get(i),
{
}

/// A push at the front makes the list one longer, puts the value at the
/// front and moves every earlier element one place on.
pub proof fn lemma_push_front_law<T, const N: usize>(before: &ArrayList<T, N>, after: &ArrayList<T, N>, v: T)
    requires
        before.wf(),
        after.wf(),
        after@ == seq![v] + before@,
    ensures
        after.cached_len() == before.cached_len() + 1,
        after.spec_get(0) == Some(&v),
        forall|i: int| 0 <= i < before@.len() ==> #[trigger] after.spec_get(i + 1) == before.spec_get(i),
{
}

/// An insert at `i` makes the list one longer and puts the value at `i`,
/// with the elements before `i` in place and those from `i` on one place
/// further; this holds whether the chunk had room, spilled into a
/// neighbour or was split.
pub proof fn lemma_insert_law<T, const N: usize>(before: &ArrayList<T, N>, after: &ArrayList<T, N>, i: int, v: T)
    requires
        before.wf(),
        after.wf(),
        0 <= i <= before@.len(),
        after@ == before@.insert(i, v),
    ensures
        after.cached_len() == before.cached_len() + 1,
        after.spec_get(i) == Some(&v),
        forall|j: int| 0 <= j < i ==> #[trigger] after.spec_get(j) == before.spec_get(j),
        forall|j: int| i <= j < before@.len() ==> #[trigger] after.spec_get(j + 1) == before.spec_get(j),
{
}

/// A list emptied by a clear and then given one element by a push is a
/// single chunk holding that element, which is both front and back.
pub proof fn lemma_clear_then_push<T, const N: usize>(cleared: &ArrayList<T, N>, pushed: &ArrayList<T, N>, v: T)
    requires
        cleared.wf(),
        cleared@.len() == 0,
        pushed.wf(),
        pushed@ == cleared@.push(v) || pushed@ == seq![v] + cleared@,
        pushed.is_single_chunk(),
    ensures
        pushed@ == seq![v],
        pushed.cached_len() == 1,
        pushed.spec_get(0) == Some(&v),
        pushed.spec_get(pushed@.len() - 1) == Some(&v),
{
    assert(cleared@ =~= Seq::<T>::empty());
    assert(pushed@ =~= seq![v]);
}

/// Number of calls from the front among `picks`.
pub open spec fn front_calls(picks: Seq<bool>) -> int
    decreases picks.len(),
{
    if picks.len() == 0 {
        0
    } else {
        (if picks[0] { 1int } else { 0int }) + front_calls(picks.drop_first())
    }
}

/// After `f` calls from the front and `b` from the back, in any order and
/// with `f + b` at most the number of elements, an iterator still holds
/// exactly the elements from index `f` up to `n - b`: the next call from the
/// front hands out element `f`, the next from the back element `n - 1 - b`,
/// and the two ends never hand out the same element.
pub proof fn lemma_interleaving_leaves_middle<T>(rest: Seq<T>, picks: Seq<bool>)
    requires
        picks.len() <= rest.len(),
    ensures
        0 <= front_calls(picks) <= picks.len(),
        left_over(rest, picks) == rest.subrange(
            front_calls(picks),
            rest.len() - (picks.len() - front_calls(picks)),
        ),
    decreases picks.len(),
{
    if picks.len() > 0 {
        let smaller = if picks[0] { rest.drop_first() } else { rest.drop_last() };
        lemma_interleaving_leaves_middle(smaller, picks.drop_first());
        let f = front_calls(picks.drop_first());
        if picks[0] {
            assert(smaller.subrange(f, smaller.len() - (picks.len() - 1 - f)) =~= rest.subrange(
                f + 1,
                rest.len() - (picks.len() - 1 - f),
            ));
        } else {
            assert(smaller.subrange(f, smaller.len() - (picks.len() - 1 - f)) =~= rest.subrange(
                f,
                rest.len() - (picks.len() - f),
            ));
        }
    } else {
        assert(rest.subrange(0, rest.len() as int) =~= rest);
    }
}

} // verus!
