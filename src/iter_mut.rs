use vstd::prelude::*;

use crate::cursor::no_spot;
use crate::list::{ArrayList, Spot};

verus! {

/// A double-ended iterator over the elements of an `ArrayList`, by mutable
/// reference. Each element it hands out may be changed until the next call.
pub struct IterMut<'a, T, const N: usize> {
    pub(crate) list: &'a mut ArrayList<T, N>,
    pub(crate) front: Spot,
    pub(crate) back: Spot,
    pub(crate) start: Ghost<int>,
    pub(crate) remaining: usize,
}

impl<'a, T, const N: usize> IterMut<'a, T, N> {
    pub open(crate) spec fn wf(&self) -> bool {
        &&& self.list.wf()
        &&& 0 <= self.start@
        &&& self.start@ + self.remaining <= self.list@.len()
        &&& self.remaining > 0 ==> self.list.spot_at(self.front, self.start@) && self.list.spot_at(
            self.back,
            self.start@ + self.remaining - 1,
        )
    }

    /// The elements of the list, as they stand now.
    pub open(crate) spec fn elems(&self) -> Seq<T> {
        self.list@
    }

    /// Index of the first element not yet handed out.
    pub open(crate) spec fn start(&self) -> int {
        self.start@
    }

    /// The elements not yet handed out, in order.
    pub open(crate) spec fn rest(&self) -> Seq<T> {
        self.list@.subrange(self.start@, self.start@ + self.remaining)
    }

    /// The borrow of the list that the iterator holds.
    pub open(crate) spec fn list_ref(&self) -> &'a mut ArrayList<T, N> {
        self.list
    }

    pub(crate) fn from_list(list: &'a mut ArrayList<T, N>) -> (r: Self)
        requires
            old(list).wf(),
        ensures
            r.wf(),
            r.elems() == old(list)@,
            r.rest() == old(list)@,
            r.start() == 0,
            *final(list) == *final(r.list_ref()),
    {
        let len = list.len();
        let (front, back) = if len == 0 {
            (no_spot(), no_spot())
        } else {
            (list.first_spot(), list.last_spot())
        };
        let r = IterMut { list, front, back, start: Ghost(0), remaining: len };
        assert(r.rest() =~= r.elems());
        r
    }

    /// Hands out the next element from the front.
    pub fn next(&mut self) -> (r: Option<&mut T>)
        requires
            old(self).wf(),
        ensures
            final(self).wf(),
            final(self).rest() == if old(self).rest().len() == 0 {
                old(self).rest()
            } else {
                old(self).rest().drop_first()
            },
            match r {
                Some(e) => old(self).rest().len() > 0 && *e == old(self).rest()[0] && final(self).elems()
                    == old(self).elems().update(old(self).start(), *final(e)) && final(self).start()
                    == old(self).start() + 1,
                None => old(self).rest().len() == 0 && final(self).elems() == old(self).elems()
                    && final(self).start() == old(self).start(),
            },
    {
        if self.remaining == 0 {
            return None;
        }
        let ghost i = self.start@;
        let sp = self.front;
        self.remaining = self.remaining - 1;
        if self.remaining > 0 {
            self.front = self.list.spot_next(sp, Ghost(i));
        }
        self.start = Ghost(i + 1);
        assert(self.rest() =~= old(self).rest().drop_first());
        Some(self.list.element_mut(sp, Ghost(i)))
    }

    /// Hands out the next element from the back.
    pub fn next_back(&mut self) -> (r: Option<&mut T>)
        requires
            old(self).wf(),
        ensures
            final(self).wf(),
            final(self).start() == old(self).start(),
            final(self).rest() == if old(self).rest().len() == 0 {
                old(self).rest()
            } else {
                old(self).rest().drop_last()
            },
            match r {
                Some(e) => old(self).rest().len() > 0 && *e == old(self).rest().last() && final(self).elems()
                    == old(self).elems().update(old(self).start() + old(self).rest().len() - 1, *final(e)),
                None => old(self).rest().len() == 0 && final(self).elems() == old(self).elems(),
            },
    {
        if self.remaining == 0 {
            return None;
        }
        let ghost i = self.start@ + self.remaining - 1;
        let sp = self.back;
        self.remaining = self.remaining - 1;
        if self.remaining > 0 {
            self.back = self.list.spot_prev(sp, Ghost(i));
        }
        assert(self.rest() =~= old(self).rest().drop_last());
        Some(self.list.element_mut(sp, Ghost(i)))
    }

    /// The last element not yet handed out; consumes the iterator.
    pub fn last(self) -> (r: Option<&'a mut T>)
        requires
            self.wf(),
        ensures
            match r {
                Some(e) => self.rest().len() > 0 && *e == self.rest().last() && (*final(self.list_ref()))@
                    == self.elems().update(self.start() + self.rest().len() - 1, *final(e)),
                None => self.rest().len() == 0 && *final(self.list_ref()) == *self.list_ref(),
            },
    {
        let IterMut { list, front: _, back, start, remaining } = self;
        if remaining == 0 {
            return None;
        }
        let ghost i = start@ + remaining - 1;
        Some(list.element_mut(back, Ghost(i)))
    }

    /// Number of elements not yet handed out.
    pub fn len(&self) -> (r: usize)
        requires
            self.wf(),
        ensures
            r == self.rest().len(),
    {
        self.remaining
    }
}

impl<T, const N: usize> ArrayList<T, N> {
    /// An iterator over the elements, front to back, by mutable reference.
    pub fn iter_mut(&mut self) -> (r: IterMut<'_, T, N>)
        requires
            old(self).wf(),
        ensures
            r.wf(),
            r.elems() == old(self)@,
            r.rest() == old(self)@,
            r.start() == 0,
            *final(self) == *final(r.list_ref()),
    {
        IterMut::from_list(self)
    }
}

} // verus!
