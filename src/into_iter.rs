use vstd::prelude::*;

use crate::list::ArrayList;

verus! {

/// A double-ended iterator that takes the elements out of an `ArrayList`.
#[derive(Clone)]
pub struct IntoIter<T, const N: usize> {
    pub(crate) list: ArrayList<T, N>,
}

impl<T, const N: usize> IntoIter<T, N> {
    pub open(crate) spec fn wf(&self) -> bool {
        self.list.wf()
    }

    /// The elements not yet handed out, in order.
    pub open(crate) spec fn rest(&self) -> Seq<T> {
        self.list@
    }

    pub(crate) fn from_list(list: ArrayList<T, N>) -> (r: Self)
        requires
            list.wf(),
        ensures
            r.wf(),
            r.rest() == list@,
    {
        IntoIter { list }
    }

    /// Hands out the next element from the front.
    pub fn next(&mut self) -> (r: Option<T>)
        requires
            old(self).wf(),
        ensures
            final(self).wf(),
            old(self).rest().len() == 0 ==> r.is_none() && final(self).rest() == old(self).rest(),
            old(self).rest().len() > 0 ==> r == Some(old(self).rest()[0]) && final(self).rest()
                == old(self).rest().drop_first(),
    {
        self.list.pop_front()
    }

    /// Hands out the next element from the back.
    pub fn next_back(&mut self) -> (r: Option<T>)
        requires
            old(self).wf(),
        ensures
            final(self).wf(),
            old(self).rest().len() == 0 ==> r.is_none() && final(self).rest() == old(self).rest(),
            old(self).rest().len() > 0 ==> r == Some(old(self).rest().last()) && final(self).rest()
                == old(self).rest().drop_last(),
    {
        self.list.pop_back()
    }

    /// Number of elements not yet handed out.
    pub fn len(&self) -> (r: usize)
        requires
            self.wf(),
        ensures
            r == self.rest().len(),
    {
        self.list.len()
    }

    /// Collects the elements not yet handed out, front to back, into a new
    /// list of the same chunk capacity.
    pub fn collect(self) -> (r: ArrayList<T, N>)
        requires
            self.wf(),
            N >= 1,
        ensures
            r.wf(),
            r@ == self.rest(),
    {
        let mut it = self;
        let mut out: ArrayList<T, N> = ArrayList::new();
        while it.len() > 0
            invariant
                it.wf(),
                out.wf(),
                N >= 1,
                out@ + it.rest() == self.rest(),
                self.rest().len() <= usize::MAX,
            decreases it.rest().len(),
        {
            let ghost before = it.rest();
            match it.next() {
                Some(x) => {
                    out.push_back(x);
                    assert(out@ + it.rest() =~= self.rest()) by {
                        assert(before =~= seq![x] + it.rest());
                        assert(out@ =~= out@.drop_last().push(x));
                    }
                },
                None => {},
            }
        }
        assert(out@ =~= out@ + it.rest());
        out
    }

    /// The last element not yet handed out; consumes the iterator.
    pub fn last(self) -> (r: Option<T>)
        requires
            self.wf(),
        ensures
            r == if self.rest().len() == 0 {
                None::<T>
            } else {
                Some(self.rest().last())
            },
    {
        let mut it = self;
        it.next_back()
    }
}

impl<T, const N: usize> ArrayList<T, N> {
    /// An iterator that takes the elements out of the list, front to back.
    pub fn into_iter(self) -> (r: IntoIter<T, N>)
        requires
            self.wf(),
        ensures
            r.wf(),
            r.rest() == self@,
    {
        IntoIter::from_list(self)
    }
}

impl<T, const N: usize> Default for IntoIter<T, N> {
    /// An iterator over no elements.
    fn default() -> (r: Self)
        ensures
            r.wf(),
            r.rest() == Seq::<T>::empty(),
    {
        IntoIter { list: ArrayList::new() }
    }
}

} // verus!
