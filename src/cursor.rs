use vstd::prelude::*;

use crate::list::{ArrayList, Spot};

verus! {

/// The position after `p` in a list of `len` elements: positions run
/// `0, 1, ..., len - 1` and then the ghost position `len`, after which they
/// start over.
pub open spec fn next_pos(p: int, len: int) -> int {
    if p >= len {
        0
    } else {
        p + 1
    }
}

/// The position before `p`; before position 0 comes the ghost position `len`.
pub open spec fn prev_pos(p: int, len: int) -> int {
    if p <= 0 {
        len
    } else {
        p - 1
    }
}

/// A place that is not used: the cursor stands on the ghost position.
pub(crate) fn no_spot() -> (r: Spot) {
    Spot { slot: 0, left: 0, offset: 0, k: Ghost(0) }
}

/// The place of position `index`, if it holds an element.
pub(crate) fn spot_of<T, const N: usize>(list: &ArrayList<T, N>, index: usize) -> (r: Spot)
    requires
        list.wf(),
    ensures
        index < list@.len() ==> list.spot_at(r, index as int),
{
    match list.locate(index) {
        Some(sp) => sp,
        None => no_spot(),
    }
}

/// One step forward from position `index` at place `spot`.
pub(crate) fn step_next<T, const N: usize>(list: &ArrayList<T, N>, index: usize, spot: Spot) -> (r: (
    usize,
    Spot,
))
    requires
        list.wf(),
        index <= list@.len(),
        index < list@.len() ==> list.spot_at(spot, index as int),
    ensures
        r.0 == next_pos(index as int, list@.len() as int),
        r.0 <= list@.len(),
        r.0 < list@.len() ==> list.spot_at(r.1, r.0 as int),
{
    let len = list.len();
    if index >= len {
        if len > 0 {
            (0, list.first_spot())
        } else {
            (0, spot)
        }
    } else if index + 1 < len {
        (index + 1, list.spot_next(spot, Ghost(index as int)))
    } else {
        (len, spot)
    }
}

/// One step back from position `index` at place `spot`.
pub(crate) fn step_prev<T, const N: usize>(list: &ArrayList<T, N>, index: usize, spot: Spot) -> (r: (
    usize,
    Spot,
))
    requires
        list.wf(),
        index <= list@.len(),
        index < list@.len() ==> list.spot_at(spot, index as int),
    ensures
        r.0 == prev_pos(index as int, list@.len() as int),
        r.0 <= list@.len(),
        r.0 < list@.len() ==> list.spot_at(r.1, r.0 as int),
{
    let len = list.len();
    if index == 0 {
        (len, spot)
    } else if index >= len {
        (len - 1, list.last_spot())
    } else {
        (index - 1, list.spot_prev(spot, Ghost(index as int)))
    }
}

/// A read-only cursor over an `ArrayList`.
///
/// A cursor rests on one of `len + 1` positions, taken circularly: the
/// positions of the elements, and the "ghost" position between the back and
/// the front, where there is no current element. It keeps the place of its
/// element in the chain, so that a step touches at most one link.
pub struct Cursor<'a, T, const N: usize> {
    pub(crate) list: &'a ArrayList<T, N>,
    pub(crate) index: usize,
    pub(crate) spot: Spot,
}

impl<'a, T, const N: usize> Cursor<'a, T, N> {
    pub open(crate) spec fn wf(&self) -> bool {
        &&& self.list.wf()
        &&& self.index <= self.list@.len()
        &&& self.index < self.list@.len() ==> self.list.spot_at(self.spot, self.index as int)
    }

    /// The position of the cursor; `len` is the ghost position.
    pub open(crate) spec fn pos(&self) -> int {
        self.index as int
    }

    /// The list the cursor walks.
    pub open(crate) spec fn spec_list(&self) -> &'a ArrayList<T, N> {
        self.list
    }

    pub(crate) fn from_front(list: &'a ArrayList<T, N>) -> (r: Self)
        requires
            list.wf(),
        ensures
            r.wf(),
            r.spec_list() == list,
            r.pos() == 0,
    {
        Cursor { list, index: 0, spot: spot_of(list, 0) }
    }

    pub(crate) fn from_back(list: &'a ArrayList<T, N>) -> (r: Self)
        requires
            list.wf(),
        ensures
            r.wf(),
            r.spec_list() == list,
            r.pos() == if list@.len() == 0 { 0 } else { list@.len() - 1 },
    {
        let index = if list.len() == 0 { 0 } else { list.len() - 1 };
        Cursor { list, index, spot: spot_of(list, index) }
    }

    pub fn as_list(&self) -> (r: &'a ArrayList<T, N>)
        ensures
            r == self.spec_list(),
    {
        self.list
    }

    pub fn back(&self) -> (r: Option<&'a T>)
        requires
            self.wf(),
        ensures
            r == self.spec_list().spec_get(self.spec_list()@.len() - 1),
    {
        self.list.back()
    }

    pub fn front(&self) -> (r: Option<&'a T>)
        requires
            self.wf(),
        ensures
            r == self.spec_list().spec_get(0),
    {
        self.list.front()
    }

    /// The element at the cursor, or `None` at the ghost position.
    pub fn current(&self) -> (r: Option<&'a T>)
        requires
            self.wf(),
        ensures
            r == self.spec_list().spec_get(self.pos()),
    {
        if self.index < self.list.len() {
            Some(self.list.element(self.spot, Ghost(self.index as int)))
        } else {
            None
        }
    }

    /// The position of the cursor, or `None` at the ghost position.
    pub fn index(&self) -> (r: Option<usize>)
        requires
            self.wf(),
        ensures
            r == if self.pos() < self.spec_list()@.len() {
                Some(self.pos() as usize)
            } else {
                None::<usize>
            },
    {
        if self.index < self.list.len() {
            Some(self.index)
        } else {
            None
        }
    }

    /// Steps to the next position: from the back element to the ghost
    /// position, and from there to the front.
    pub fn move_next(&mut self)
        requires
            old(self).wf(),
        ensures
            final(self).wf(),
            final(self).spec_list() == old(self).spec_list(),
            final(self).pos() == next_pos(old(self).pos(), old(self).spec_list()@.len() as int),
    {
        let (index, spot) = step_next(self.list, self.index, self.spot);
        self.index = index;
        self.spot = spot;
    }

    /// Steps to the previous position: from the front element to the ghost
    /// position, and from there to the back.
    pub fn move_prev(&mut self)
        requires
            old(self).wf(),
        ensures
            final(self).wf(),
            final(self).spec_list() == old(self).spec_list(),
            final(self).pos() == prev_pos(old(self).pos(), old(self).spec_list()@.len() as int),
    {
        let (index, spot) = step_prev(self.list, self.index, self.spot);
        self.index = index;
        self.spot = spot;
    }

    /// The element at the next position, without moving; at the ghost
    /// position that is the front element.
    pub fn peek_next(&self) -> (r: Option<&'a T>)
        requires
            self.wf(),
        ensures
            r == self.spec_list().spec_get(next_pos(self.pos(), self.spec_list()@.len() as int)),
    {
        let (index, spot) = step_next(self.list, self.index, self.spot);
        if index < self.list.len() {
            Some(self.list.element(spot, Ghost(index as int)))
        } else {
            None
        }
    }

    /// The element at the previous position, without moving; `None` at the
    /// front element, and the back element at the ghost position.
    pub fn peek_prev(&self) -> (r: Option<&'a T>)
        requires
            self.wf(),
        ensures
            r == self.spec_list().spec_get(prev_pos(self.pos(), self.spec_list()@.len() as int)),
    {
        let (index, spot) = step_prev(self.list, self.index, self.spot);
        if index < self.list.len() {
            Some(self.list.element(spot, Ghost(index as int)))
        } else {
            None
        }
    }
}

impl<T, const N: usize> ArrayList<T, N> {
    /// A cursor at the front element, or at the ghost position if the list
    /// is empty.
    pub fn cursor_front(&self) -> (r: Cursor<'_, T, N>)
        requires
            self.wf(),
        ensures
            r.wf(),
            r.spec_list() == self,
            r.pos() == 0,
    {
        Cursor::from_front(self)
    }

    /// A cursor at the back element, or at the ghost position if the list
    /// is empty.
    pub fn cursor_back(&self) -> (r: Cursor<'_, T, N>)
        requires
            self.wf(),
        ensures
            r.wf(),
            r.spec_list() == self,
            r.pos() == if self@.len() == 0 { 0 } else { self@.len() - 1 },
    {
        Cursor::from_back(self)
    }
}

} // verus!
