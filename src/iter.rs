use vstd::prelude::*;

use crate::cursor::no_spot;
use crate::list::{ArrayList, Spot};

verus! {

/// A double-ended iterator over the elements of an `ArrayList`, by reference.
///
/// It walks from both ends, each end keeping its own place in the chain;
/// a count of the elements left decides when it is done, since both ends
/// may meet inside one chunk.
#[derive(Clone)]
pub struct Iter<'a, T, const N: usize> {
    pub(crate) list: &'a ArrayList<T, N>,
    pub(crate) front: Spot,
    pub(crate) back: Spot,
    pub(crate) start: Ghost<int>,
    pub(crate) remaining: usize,
}

impl<'a, T, const N: usize> Iter<'a, T, N> {
    pub open(crate) spec fn wf(&self) -> bool {
        &&& self.list.wf()
        &&& 0 <= self.start@
        &&& self.start@ + self.remaining <= self.list@.len()
        &&& self.remaining > 0 ==> self.list.spot_at(self.front, self.start@) && self.list.spot_at(
            self.back,
            self.start@ + self.remaining - 1,
        )
    }

    /// The elements not yet handed out, in order.
    pub open(crate) spec fn rest(&self) -> Seq<T> {
        self.list@.subrange(self.start@, self.start@ + self.remaining)
    }

    pub(crate) fn from_list(list: &'a ArrayList<T, N>) -> (r: Self)
        requires
            list.wf(),
        ensures
            r.wf(),
            r.rest() == list@,
    {
        let len = list.len();
        let r = if len == 0 {
            Iter { list, front: no_spot(), back: no_spot(), start: Ghost(0), remaining: 0 }
        } else {
            Iter { list, front: list.first_spot(), back: list.last_spot(), start: Ghost(0), remaining: len }
        };
        assert(r.rest() =~= list@);
        r
    }

    /// Hands out the next element from the front.
    pub fn next(&mut self) -> (r: Option<&'a T>)
        requires
            old(self).wf(),
        ensures
            final(self).wf(),
            old(self).rest().len() == 0 ==> r.is_none() && final(self).rest() == old(self).rest(),
            old(self).rest().len() > 0 ==> r == Some(&old(self).rest()[0]) && final(self).rest()
                == old(self).rest().drop_first(),
    {
        if self.remaining == 0 {
            return None;
        }
        let ghost i = self.start@;
        let e = self.list.element(self.front, Ghost(i));
        self.remaining = self.remaining - 1;
        if self.remaining > 0 {
            self.front = self.list.spot_next(self.front, Ghost(i));
        }
        self.start = Ghost(i + 1);
        assert(self.rest() =~= old(self).rest().drop_first());
        Some(e)
    }

    /// Hands out the next element from the back.
    pub fn next_back(&mut self) -> (r: Option<&'a T>)
        requires
            old(self).wf(),
        ensures
            final(self).wf(),
            old(self).rest().len() == 0 ==> r.is_none() && final(self).rest() == old(self).rest(),
            old(self).rest().len() > 0 ==> r == Some(&old(self).rest().last()) && final(self).rest()
                == old(self).rest().drop_last(),
    {
        if self.remaining == 0 {
            return None;
        }
        let ghost i = self.start@ + self.remaining - 1;
        let e = self.list.element(self.back, Ghost(i));
        self.remaining = self.remaining - 1;
        if self.remaining > 0 {
            self.back = self.list.spot_prev(self.back, Ghost(i));
        }
        assert(self.rest() =~= old(self).rest().drop_last());
        Some(e)
    }

    /// Number of elements not yet handed out.
    pub fn len(&self) -> (r: usize)
        requires
            self.wf(),
        ensures
            r == self.rest().len(),
    {
        self.remaining
    }

    /// Collects the elements not yet handed out, front to back, into a new
    /// list of the same chunk capacity.
    pub fn collect(self) -> (r: ArrayList<&'a T, N>)
        requires
            self.wf(),
            N >= 1,
        ensures
            r.wf(),
            r@.len() == self.rest().len(),
            forall|i: int| 0 <= i < r@.len() ==> *#[trigger] r@[i] == self.rest()[i],
    {
        let mut it = self;
        let mut out: ArrayList<&'a T, N> = ArrayList::new();
        while it.remaining > 0
            invariant
                it.wf(),
                out.wf(),
                N >= 1,
                out@.len() + it.rest().len() == self.rest().len(),
                self.rest().len() <= usize::MAX,
                forall|i: int| 0 <= i < out@.len() ==> *#[trigger] out@[i] == self.rest()[i],
                forall|i: int| 0 <= i < it.rest().len() ==> #[trigger] it.rest()[i] == self.rest()[out@.len() + i],
            decreases it.remaining,
        {
            let ghost before = it.rest();
            match it.next() {
                Some(x) => {
                    let ghost n = out@.len();
                    out.push_back(x);
                    assert forall|i: int| 0 <= i < it.rest().len() implies #[trigger] it.rest()[i] == self.rest()[out@.len() + i] by {
                        assert(it.rest()[i] == before[i + 1]);
                    }
                    assert(*out@[n as int] == self.rest()[n as int]) by {
                        assert(before[0] == self.rest()[n as int]);
                    }
                },
                None => {},
            }
        }
        out
    }

    /// The last element not yet handed out; consumes the iterator.
    pub fn last(self) -> (r: Option<&'a T>)
        requires
            self.wf(),
        ensures
            r == if self.rest().len() == 0 {
                None::<&T>
            } else {
                Some(&self.rest().last())
            },
    {
        let mut it = self;
        it.next_back()
    }
}

impl<T, const N: usize> ArrayList<T, N> {
    /// An iterator over the elements, front to back, by reference.
    pub fn iter(&self) -> (r: Iter<'_, T, N>)
        requires
            self.wf(),
        ensures
            r.wf(),
            r.rest() == self@,
    {
        Iter::from_list(self)
    }
}

} // verus!
