use vstd::prelude::*;

use crate::cursor::{next_pos, prev_pos, spot_of, step_next, step_prev, Cursor};
use crate::list::{ArrayList, Spot};

verus! {

/// A cursor over an `ArrayList` that can also change the list around its
/// position.
///
/// It rests on the same `len + 1` circular positions as `Cursor`. After a
/// change of the list it finds the place of its position again, so that it
/// never refers to a chunk that was unlinked.
pub struct CursorMut<'a, T, const N: usize> {
    pub(crate) list: &'a mut ArrayList<T, N>,
    pub(crate) index: usize,
    pub(crate) spot: Spot,
}

impl<'a, T, const N: usize> CursorMut<'a, T, N> {
    pub open(crate) spec fn wf(&self) -> bool {
        &&& self.list.wf()
        &&& self.index <= self.list@.len()
        &&& self.index < self.list@.len() ==> self.list.spot_at(self.spot, self.index as int)
    }

    /// The position of the cursor; `len` is the ghost position.
    pub open(crate) spec fn pos(&self) -> int {
        self.index as int
    }

    /// The elements of the list, as they stand now.
    pub open(crate) spec fn elems(&self) -> Seq<T> {
        self.list@
    }

    /// The list, as it stands now.
    pub open(crate) spec fn spec_list(&self) -> ArrayList<T, N> {
        *self.list
    }

    /// The borrow of the list that the cursor holds.
    pub open(crate) spec fn list_ref(&self) -> &'a mut ArrayList<T, N> {
        self.list
    }

    pub(crate) fn from_front(list: &'a mut ArrayList<T, N>) -> (r: Self)
        requires
            old(list).wf(),
        ensures
            r.wf(),
            r.spec_list() == *old(list),
            *final(list) == *final(r.list_ref()),
            r.pos() == 0,
    {
        let spot = spot_of(list, 0);
        CursorMut { list, index: 0, spot }
    }

    pub(crate) fn from_back(list: &'a mut ArrayList<T, N>) -> (r: Self)
        requires
            old(list).wf(),
        ensures
            r.wf(),
            r.spec_list() == *old(list),
            *final(list) == *final(r.list_ref()),
            r.pos() == if old(list)@.len() == 0 { 0 } else { old(list)@.len() - 1 },
    {
        let index = if list.len() == 0 { 0 } else { list.len() - 1 };
        let spot = spot_of(list, index);
        CursorMut { list, index, spot }
    }

    /// A read-only cursor at the same position.
    pub fn as_cursor(&self) -> (r: Cursor<'_, T, N>)
        requires
            self.wf(),
        ensures
            r.wf(),
            *r.spec_list() == self.spec_list(),
            r.pos() == self.pos(),
    {
        Cursor { list: &*self.list, index: self.index, spot: self.spot }
    }

    pub fn as_list(&self) -> (r: &ArrayList<T, N>)
        ensures
            *r == self.spec_list(),
    {
        &*self.list
    }

    pub fn back(&self) -> (r: Option<&T>)
        requires
            self.wf(),
        ensures
            r == self.spec_list().spec_get(self.elems().len() - 1),
    {
        self.list.back()
    }

    pub fn front(&self) -> (r: Option<&T>)
        requires
            self.wf(),
        ensures
            r == self.spec_list().spec_get(0),
    {
        self.list.front()
    }

    /// The position of the cursor, or `None` at the ghost position.
    pub fn index(&self) -> (r: Option<usize>)
        requires
            self.wf(),
        ensures
            r == if self.pos() < self.elems().len() {
                Some(self.pos() as usize)
            } else {
                None::<usize>
            },
    {
        if self.index < self.list.len() {
            Some(self.index)
        } else {
            None
        }
    }

    /// Steps to the next position: from the back element to the ghost
    /// position, and from there to the front.
    pub fn move_next(&mut self)
        requires
            old(self).wf(),
        ensures
            final(self).wf(),
            final(self).spec_list() == old(self).spec_list(),
            final(self).pos() == next_pos(old(self).pos(), old(self).elems().len() as int),
    {
        let (index, spot) = step_next(&*self.list, self.index, self.spot);
        self.index = index;
        self.spot = spot;
    }

    /// Steps to the previous position: from the front element to the ghost
    /// position, and from there to the back.
    pub fn move_prev(&mut self)
        requires
            old(self).wf(),
        ensures
            final(self).wf(),
            final(self).spec_list() == old(self).spec_list(),
            final(self).pos() == prev_pos(old(self).pos(), old(self).elems().len() as int),
    {
        let (index, spot) = step_prev(&*self.list, self.index, self.spot);
        self.index = index;
        self.spot = spot;
    }

    /// A mutable reference to the element at the cursor, or `None` at the
    /// ghost position.
    pub fn current(&mut self) -> (r: Option<&mut T>)
        requires
            old(self).wf(),
        ensures
            final(self).wf(),
            final(self).pos() == old(self).pos(),
            match r {
                Some(e) => old(self).pos() < old(self).elems().len() && *e == old(self).elems()[old(self).pos()]
                    && final(self).elems() == old(self).elems().update(old(self).pos(), *final(e)),
                None => old(self).pos() == old(self).elems().len() && final(self).elems() == old(self).elems(),
            },
    {
        if self.index < self.list.len() {
            Some(self.list.element_mut(self.spot, Ghost(self.index as int)))
        } else {
            None
        }
    }

    /// A mutable reference to the element at position `i`, without moving.
    fn element_at(&mut self, i: usize) -> (r: Option<&mut T>)
        requires
            old(self).wf(),
        ensures
            final(self).wf(),
            final(self).pos() == old(self).pos(),
            match r {
                Some(e) => i < old(self).elems().len() && *e == old(self).elems()[i as int]
                    && final(self).elems() == old(self).elems().update(i as int, *final(e)),
                None => i >= old(self).elems().len() && final(self).elems() == old(self).elems(),
            },
    {
        match self.list.locate(i) {
            Some(sp) => Some(self.list.element_mut(sp, Ghost(i as int))),
            None => None,
        }
    }

    /// A mutable reference to the element at the next position, without
    /// moving; at the ghost position that is the front element.
    pub fn peek_next(&mut self) -> (r: Option<&mut T>)
        requires
            old(self).wf(),
        ensures
            final(self).wf(),
            final(self).pos() == old(self).pos(),
            ({
                let i = next_pos(old(self).pos(), old(self).elems().len() as int);
                match r {
                    Some(e) => i < old(self).elems().len() && *e == old(self).elems()[i]
                        && final(self).elems() == old(self).elems().update(i, *final(e)),
                    None => i == old(self).elems().len() && final(self).elems() == old(self).elems(),
                }
            }),
    {
        let i = if self.index >= self.list.len() { 0 } else { self.index + 1 };
        self.element_at(i)
    }

    /// A mutable reference to the element at the previous position, without
    /// moving; `None` at the front element, the back element at the ghost
    /// position.
    pub fn peek_prev(&mut self) -> (r: Option<&mut T>)
        requires
            old(self).wf(),
        ensures
            final(self).wf(),
            final(self).pos() == old(self).pos(),
            ({
                let i = prev_pos(old(self).pos(), old(self).elems().len() as int);
                match r {
                    Some(e) => i < old(self).elems().len() && *e == old(self).elems()[i]
                        && final(self).elems() == old(self).elems().update(i, *final(e)),
                    None => i == old(self).elems().len() && final(self).elems() == old(self).elems(),
                }
            }),
    {
        let i = if self.index == 0 { self.list.len() } else { self.index - 1 };
        self.element_at(i)
    }

    /// A mutable reference to the front element, or `None` if the list is empty.
    pub fn front_mut(&mut self) -> (r: Option<&mut T>)
        requires
            old(self).wf(),
        ensures
            final(self).wf(),
            final(self).pos() == old(self).pos(),
            match r {
                Some(e) => old(self).elems().len() > 0 && *e == old(self).elems()[0]
                    && final(self).elems() == old(self).elems().update(0, *final(e)),
                None => old(self).elems().len() == 0 && final(self).elems() == old(self).elems(),
            },
    {
        self.element_at(0)
    }

    /// A mutable reference to the back element, or `None` if the list is empty.
    pub fn back_mut(&mut self) -> (r: Option<&mut T>)
        requires
            old(self).wf(),
        ensures
            final(self).wf(),
            final(self).pos() == old(self).pos(),
            match r {
                Some(e) => old(self).elems().len() > 0 && *e == old(self).elems().last()
                    && final(self).elems() == old(self).elems().update(old(self).elems().len() - 1, *final(e)),
                None => old(self).elems().len() == 0 && final(self).elems() == old(self).elems(),
            },
    {
        let len = self.list.len();
        if len == 0 {
            return None;
        }
        self.element_at(len - 1)
    }

    /// Finds the place of the cursor's position again after a change of the list.
    fn resync(&mut self)
        requires
            old(self).list.wf(),
            old(self).index <= old(self).list@.len(),
        ensures
            final(self).wf(),
            final(self).index == old(self).index,
            final(self).spec_list() == old(self).spec_list(),
    {
        self.spot = spot_of(&*self.list, self.index);
    }

    /// Adds `value` at the front of the list. The cursor keeps its element,
    /// whose position grows by one; at the ghost position it stays there.
    pub fn push_front(&mut self, value: T)
        requires
            old(self).wf(),
            N >= 1,
            old(self).elems().len() < usize::MAX,
        ensures
            final(self).wf(),
            final(self).elems() == seq![value] + old(self).elems(),
            final(self).pos() == old(self).pos() + 1,
    {
        self.list.push_front(value);
        self.index = self.index + 1;
        self.resync();
    }

    /// Adds `value` at the back of the list. The cursor keeps its element;
    /// at the ghost position it stays there.
    pub fn push_back(&mut self, value: T)
        requires
            old(self).wf(),
            N >= 1,
            old(self).elems().len() < usize::MAX,
        ensures
            final(self).wf(),
            final(self).elems() == old(self).elems().push(value),
            final(self).pos() == if old(self).pos() == old(self).elems().len() {
                old(self).pos() + 1
            } else {
                old(self).pos()
            },
    {
        let ghost_pos = self.index >= self.list.len();
        self.list.push_back(value);
        if ghost_pos {
            self.index = self.list.len();
        }
        self.resync();
    }

    /// Removes and returns the front element. The cursor keeps its element
    /// if that was not the front one, and otherwise moves to the new front.
    pub fn pop_front(&mut self) -> (r: Option<T>)
        requires
            old(self).wf(),
        ensures
            final(self).wf(),
            old(self).elems().len() == 0 ==> r.is_none() && final(self).elems() == old(self).elems()
                && final(self).pos() == old(self).pos(),
            old(self).elems().len() > 0 ==> r == Some(old(self).elems()[0]) && final(self).elems()
                == old(self).elems().drop_first() && final(self).pos() == if old(self).pos() == 0 {
                0
            } else {
                old(self).pos() - 1
            },
    {
        let r = self.list.pop_front();
        if r.is_some() && self.index > 0 {
            self.index = self.index - 1;
        }
        self.resync();
        r
    }

    /// Removes and returns the back element. The cursor keeps its element
    /// if that was not the back one, and otherwise moves to the ghost
    /// position.
    pub fn pop_back(&mut self) -> (r: Option<T>)
        requires
            old(self).wf(),
        ensures
            final(self).wf(),
            old(self).elems().len() == 0 ==> r.is_none() && final(self).elems() == old(self).elems()
                && final(self).pos() == old(self).pos(),
            old(self).elems().len() > 0 ==> r == Some(old(self).elems().last()) && final(self).elems()
                == old(self).elems().drop_last() && final(self).pos() == if old(self).pos()
                == old(self).elems().len() {
                old(self).pos() - 1
            } else {
                old(self).pos()
            },
    {
        let r = self.list.pop_back();
        if self.index > self.list.len() {
            self.index = self.list.len();
        }
        self.resync();
        r
    }

    /// Inserts `value` after the cursor's element, which stays current; at
    /// the ghost position the value becomes the new front.
    pub fn insert_after(&mut self, value: T)
        requires
            old(self).wf(),
            N >= 1,
            old(self).elems().len() < usize::MAX,
        ensures
            final(self).wf(),
            final(self).elems() == old(self).elems().insert(
                next_pos(old(self).pos(), old(self).elems().len() as int),
                value,
            ),
            final(self).pos() == if old(self).pos() == old(self).elems().len() {
                old(self).pos() + 1
            } else {
                old(self).pos()
            },
    {
        if self.index >= self.list.len() {
            self.list.push_front(value);
            self.index = self.list.len();
            assert(self.elems() =~= old(self).elems().insert(0, value));
        } else {
            self.list.insert(self.index + 1, value);
        }
        self.resync();
    }

    /// Inserts `value` before the cursor's element, which stays current; at
    /// the ghost position the value becomes the new back.
    pub fn insert_before(&mut self, value: T)
        requires
            old(self).wf(),
            N >= 1,
            old(self).elems().len() < usize::MAX,
        ensures
            final(self).wf(),
            final(self).elems() == old(self).elems().insert(old(self).pos(), value),
            final(self).pos() == old(self).pos() + 1,
    {
        if self.index >= self.list.len() {
            self.list.push_back(value);
            assert(self.elems() =~= old(self).elems().insert(old(self).pos(), value));
        } else {
            self.list.insert(self.index, value);
        }
        self.index = self.index + 1;
        self.resync();
    }

    /// Removes and returns the cursor's element; the cursor moves on to the
    /// element that followed it, or to the ghost position. At the ghost
    /// position nothing is removed.
    pub fn remove_current(&mut self) -> (r: Option<T>)
        requires
            old(self).wf(),
        ensures
            final(self).wf(),
            final(self).pos() == old(self).pos(),
            old(self).pos() < old(self).elems().len() ==> r == Some(old(self).elems()[old(self).pos()])
                && final(self).elems() == old(self).elems().remove(old(self).pos()),
            old(self).pos() == old(self).elems().len() ==> r.is_none() && final(self).elems()
                == old(self).elems(),
    {
        if self.index >= self.list.len() {
            return None;
        }
        let r = self.list.remove(self.index);
        self.resync();
        r
    }
}

impl<T, const N: usize> ArrayList<T, N> {
    /// A cursor that can change the list, at the front element, or at the
    /// ghost position if the list is empty.
    pub fn cursor_front_mut(&mut self) -> (r: CursorMut<'_, T, N>)
        requires
            old(self).wf(),
        ensures
            r.wf(),
            r.spec_list() == *old(self),
            *final(self) == *final(r.list_ref()),
            r.pos() == 0,
    {
        CursorMut::from_front(self)
    }

    /// A cursor that can change the list, at the back element, or at the
    /// ghost position if the list is empty.
    pub fn cursor_back_mut(&mut self) -> (r: CursorMut<'_, T, N>)
        requires
            old(self).wf(),
        ensures
            r.wf(),
            r.spec_list() == *old(self),
            *final(self) == *final(r.list_ref()),
            r.pos() == if old(self)@.len() == 0 { 0 } else { old(self)@.len() - 1 },
    {
        CursorMut::from_back(self)
    }
}

} // verus!
