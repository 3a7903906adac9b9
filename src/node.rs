use vstd::prelude::*;

verus! {

/// A chunk of the chain: up to `N` elements stored contiguously, and one link
/// field that holds the XOR of the handles of its two neighbours.
#[derive(Clone)]
pub struct Node<T, const N: usize> {
    pub(crate) link: usize,
    pub(crate) data: Vec<T>,
}

impl<T, const N: usize> View for Node<T, N> {
    type V = Seq<T>;

    open(crate) spec fn view(&self) -> Seq<T> {
        self.data@
    }
}

impl<T, const N: usize> Node<T, N> {
    /// A chunk never holds more than `N` elements.
    pub open spec fn wf(&self) -> bool {
        self@.len() <= N
    }

    pub open(crate) spec fn spec_link(&self) -> usize {
        self.link
    }

    pub open spec fn spec_get(&self, index: int) -> Option<&T> {
        if 0 <= index < self@.len() {
            Some(&self@[index])
        } else {
            None
        }
    }

    pub fn new() -> (r: Self)
        ensures
            r.wf(),
            r@ == Seq::<T>::empty(),
            r.spec_link() == 0,
    {
        Node { link: 0, data: Vec::new() }
    }

    pub fn new_with_link(link: usize) -> (r: Self)
        ensures
            r.wf(),
            r@ == Seq::<T>::empty(),
            r.spec_link() == link,
    {
        Node { link, data: Vec::new() }
    }

    pub fn push_front(&mut self, value: T)
        requires
            old(self)@.len() < N,
        ensures
            final(self)@ == seq![value] + old(self)@,
            final(self).spec_link() == old(self).spec_link(),
    {
        self.insert(0, value);
        assert(self@ =~= seq![value] + old(self)@);
    }

    pub fn push_back(&mut self, value: T)
        requires
            old(self)@.len() < N,
        ensures
            final(self)@ == old(self)@.push(value),
            final(self).spec_link() == old(self).spec_link(),
    {
        let len = self.len();
        self.insert(len, value);
    }

    /// Puts `value` at `index`, shifting the elements from `index` on one
    /// slot to the right.
    pub fn insert(&mut self, index: usize, value: T)
        requires
            index <= old(self)@.len(),
            old(self)@.len() < N,
        ensures
            final(self)@ == old(self)@.insert(index as int, value),
            final(self).spec_link() == old(self).spec_link(),
    {
        self.data.insert(index, value);
    }

    pub fn pop_front(&mut self) -> (r: Option<T>)
        ensures
            old(self)@.len() == 0 ==> r.is_none() && final(self)@ == old(self)@,
            old(self)@.len() > 0 ==> r == Some(old(self)@[0]) && final(self)@
                == old(self)@.drop_first(),
            final(self).spec_link() == old(self).spec_link(),
    {
        if self.is_empty() {
            return None;
        }
        let v = self.remove(0);
        assert(self@ =~= old(self)@.drop_first());
        Some(v)
    }

    pub fn pop_back(&mut self) -> (r: Option<T>)
        ensures
            old(self)@.len() == 0 ==> r.is_none() && final(self)@ == old(self)@,
            old(self)@.len() > 0 ==> r == Some(old(self)@.last()) && final(self)@
                == old(self)@.drop_last(),
            final(self).spec_link() == old(self).spec_link(),
    {
        if self.is_empty() {
            return None;
        }
        let last = self.len() - 1;
        let v = self.remove(last);
        assert(self@ =~= old(self)@.drop_last());
        Some(v)
    }

    /// Takes out the element at `index`, shifting the elements after it one
    /// slot to the left.
    pub fn remove(&mut self, index: usize) -> (r: T)
        requires
            index < old(self)@.len(),
        ensures
            r == old(self)@[index as int],
            final(self)@ == old(self)@.remove(index as int),
            final(self).spec_link() == old(self).spec_link(),
    {
        self.data.remove(index)
    }

    pub fn get(&self, index: usize) -> (r: Option<&T>)
        ensures
            r == self.spec_get(index as int),
    {
        if index < self.data.len() {
            Some(&self.data[index])
        } else {
            None
        }
    }

    pub fn get_mut(&mut self, index: usize) -> (r: Option<&mut T>)
        ensures
            match r {
                Some(e) => index < old(self)@.len() && *e == old(self)@[index as int]
                    && final(self)@ == old(self)@.update(index as int, *final(e))
                    && final(self).spec_link() == old(self).spec_link(),
                None => index >= old(self)@.len() && *final(self) == *old(self),
            },
    {
        if index < self.data.len() {
            Some(&mut self.data[index])
        } else {
            None
        }
    }

    pub fn back(&self) -> (r: Option<&T>)
        ensures
            r == self.spec_get(self@.len() - 1),
    {
        if self.data.len() == 0 {
            None
        } else {
            self.get(self.data.len() - 1)
        }
    }

    pub fn back_mut(&mut self) -> (r: Option<&mut T>)
        ensures
            match r {
                Some(e) => old(self)@.len() > 0 && *e == old(self)@.last()
                    && final(self)@ == old(self)@.update(old(self)@.len() - 1, *final(e))
                    && final(self).spec_link() == old(self).spec_link(),
                None => old(self)@.len() == 0 && *final(self) == *old(self),
            },
    {
        let len = self.data.len();
        if len == 0 {
            None
        } else {
            self.get_mut(len - 1)
        }
    }

    pub fn front(&self) -> (r: Option<&T>)
        ensures
            r == self.spec_get(0),
    {
        self.get(0)
    }

    pub fn front_mut(&mut self) -> (r: Option<&mut T>)
        ensures
            match r {
                Some(e) => old(self)@.len() > 0 && *e == old(self)@[0]
                    && final(self)@ == old(self)@.update(0, *final(e))
                    && final(self).spec_link() == old(self).spec_link(),
                None => old(self)@.len() == 0 && *final(self) == *old(self),
            },
    {
        self.get_mut(0)
    }

    pub fn len(&self) -> (r: usize)
        ensures
            r == self@.len(),
    {
        self.data.len()
    }

    pub fn is_empty(&self) -> (r: bool)
        ensures
            r == (self@.len() == 0),
    {
        self.data.len() == 0
    }

    pub fn is_full(&self) -> (r: bool)
        ensures
            r == (self@.len() == N),
    {
        self.data.len() == N
    }

    pub fn link(&self) -> (r: usize)
        ensures
            r == self.spec_link(),
    {
        self.link
    }

    pub fn link_mut(&mut self) -> (r: &mut usize)
        ensures
            *r == old(self).spec_link(),
            final(self).spec_link() == *final(r),
            final(self)@ == old(self)@,
    {
        &mut self.link
    }

    pub fn data(&self) -> (r: &Vec<T>)
        ensures
            r@ == self@,
    {
        &self.data
    }

    pub fn data_mut(&mut self) -> (r: &mut Vec<T>)
        ensures
            r@ == old(self)@,
            final(self)@ == final(r)@,
            final(self).spec_link() == old(self).spec_link(),
    {
        &mut self.data
    }

    /// Shortens the chunk to its first `new_len` elements.
    pub fn set_len(&mut self, new_len: usize)
        requires
            new_len <= old(self)@.len(),
        ensures
            final(self)@ == old(self)@.subrange(0, new_len as int),
            final(self).spec_link() == old(self).spec_link(),
    {
        self.data.truncate(new_len);
    }
}

} // verus!
