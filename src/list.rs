use vstd::prelude::*;

use crate::chain::{
    handle_at, lemma_flatten_around, lemma_flatten_index, lemma_flatten_insert,
    lemma_flatten_insert_at, lemma_flatten_remove, lemma_flatten_remove_at,
    lemma_flatten_split_chunk, lemma_flatten_update, lemma_prefix_ends, lemma_prefix_same_len,
    lemma_prefix_step, lemma_xor, prefix_len,
};
use crate::node::Node;

verus! {

/// A sequence stored as a chain of chunks of at most `N` elements.
///
/// The chunks live in a table of slots; a chunk is addressed by its handle,
/// its slot plus one, so that 0 stands for "no chunk". Each chunk keeps one
/// link, the XOR of the handles of its two neighbours: a walker that knows
/// where it came from recovers where it goes next. Slots of unlinked chunks
/// are kept on a free list and reused.
#[derive(Clone)]
pub struct ArrayList<T, const N: usize> {
    pub(crate) slots: Vec<Node<T, N>>,
    pub(crate) free: Vec<usize>,
    pub(crate) head: usize,
    pub(crate) tail: usize,
    pub(crate) len: usize,
    /// The slots of the chunks, from head to tail.
    pub(crate) chain: Ghost<Seq<usize>>,
}

/// Where an element sits in the chain: the slot of its chunk, the handle of
/// that chunk's left neighbour, its offset in the chunk, and the chunk's
/// position in the chain.
#[derive(Clone, Copy)]
pub(crate) struct Spot {
    pub(crate) slot: usize,
    pub(crate) left: usize,
    pub(crate) offset: usize,
    pub(crate) k: Ghost<int>,
}

impl<T, const N: usize> View for ArrayList<T, N> {
    type V = Seq<T>;

    /// The elements of the list, in order.
    open(crate) spec fn view(&self) -> Seq<T> {
        self.chunks().flatten()
    }
}

impl<T, const N: usize> ArrayList<T, N> {
    /// The contents of the chunks, from head to tail.
    pub open(crate) spec fn chunks(&self) -> Seq<Seq<T>> {
        Seq::new(self.chain@.len(), |k: int| self.slots@[self.chain@[k] as int]@)
    }

    pub open(crate) spec fn link_of(&self, k: int) -> usize {
        self.slots@[self.chain@[k] as int].spec_link()
    }

    /// The chain is well linked: every chunk's link is the XOR of its
    /// neighbours' handles, head and tail are its ends, and free slots lie
    /// outside it.
    pub open(crate) spec fn linked(&self) -> bool {
        let chain = self.chain@;
        &&& chain.no_duplicates()
        &&& forall|k: int| 0 <= k < chain.len() ==> #[trigger] chain[k] < self.slots@.len()
        &&& forall|k: int|
            0 <= k < chain.len() ==> #[trigger] self.slots@[chain[k] as int].spec_link()
                == handle_at(chain, k - 1) ^ handle_at(chain, k + 1)
        &&& self.head == handle_at(chain, 0)
        &&& self.tail == handle_at(chain, chain.len() - 1)
        &&& self.free@.no_duplicates()
        &&& forall|i: int|
            0 <= i < self.free@.len() ==> #[trigger] self.free@[i] < self.slots@.len()
                && !chain.contains(self.free@[i])
    }

    /// The list's invariant: a well-linked chain of non-empty chunks of at
    /// most `N` elements each, whose element count is the cached length.
    pub open(crate) spec fn wf(&self) -> bool {
        &&& self.linked()
        &&& forall|k: int|
            0 <= k < self.chain@.len() ==> 0 < #[trigger] self.chunks()[k].len() <= N
        &&& self.len == self@.len()
    }

    /// The element at `index`, or `None` out of range.
    pub open spec fn spec_get(&self, index: int) -> Option<&T> {
        if 0 <= index < self@.len() {
            Some(&self@[index])
        } else {
            None
        }
    }

    /// The list is one chunk holding one element, linked to nothing: head
    /// and tail are that chunk and its link is 0.
    pub open(crate) spec fn is_single_chunk(&self) -> bool {
        &&& self.chain@.len() == 1
        &&& self.head != 0
        &&& self.head == self.tail
        &&& self.link_of(0) == 0
        &&& self.chunks()[0].len() == 1
    }

    /// The length the list keeps in its header.
    pub open(crate) spec fn cached_len(&self) -> nat {
        self.len as nat
    }

    /// Number of elements held by the chunks along the chain.
    pub open(crate) spec fn live_count(&self) -> int {
        prefix_len(self.chunks(), self.chain@.len() as int)
    }

    proof fn lemma_handles(&self)
        requires
            self.linked(),
        ensures
            forall|j: int|
                0 <= j < self.chain@.len() ==> #[trigger] handle_at(self.chain@, j) != 0
                    && handle_at(self.chain@, j) - 1 == self.chain@[j],
    {
        assert forall|j: int| 0 <= j < self.chain@.len() implies #[trigger] handle_at(
            self.chain@,
            j,
        ) != 0 && handle_at(self.chain@, j) - 1 == self.chain@[j] by {
            assert(self.chain@[j] < self.slots@.len());
            assert(self.slots@.len() == self.slots.len());
        }
    }

    /// Takes a slot for `node`: one from the free list, or a new one.
    fn take_slot(&mut self, node: Node<T, N>) -> (s: usize)
        requires
            old(self).linked(),
        ensures
            final(self).linked(),
            s < final(self).slots@.len(),
            !final(self).chain@.contains(s),
            !final(self).free@.contains(s),
            final(self).slots@[s as int] == node,
            forall|j: int|
                0 <= j < old(self).slots@.len() && j != s ==> #[trigger] final(self).slots@[j]
                    == old(self).slots@[j],
            final(self).chain@ == old(self).chain@,
            final(self).chunks() == old(self).chunks(),
            final(self).len == old(self).len,
            forall|k: int|
                0 <= k < final(self).chain@.len() ==> #[trigger] final(self).link_of(k)
                    == old(self).link_of(k),
    {
        let ghost old_slots = self.slots@;
        let s = match self.free.pop() {
            Some(s) => {
                proof {
                    assert(old(self).free@[old(self).free@.len() - 1] == s);
                }
                self.slots.set(s, node);
                s
            },
            None => {
                self.slots.push(node);
                self.slots.len() - 1
            },
        };
        proof {
            let chain = self.chain@;
            assert forall|k: int| 0 <= k < chain.len() implies #[trigger] chain[k] != s by {
                if s < old_slots.len() {
                    assert(!chain.contains(s));
                }
            }
            assert(self.chunks() =~= old(self).chunks());
            assert(!self.free@.contains(s)) by {
                if exists|i: int| 0 <= i < self.free@.len() && self.free@[i] == s {
                    let i = choose|i: int| 0 <= i < self.free@.len() && self.free@[i] == s;
                    if s < old_slots.len() {
                        assert(old(self).free@[i] == old(self).free@[old(self).free@.len() - 1]);
                    } else {
                        assert(old(self).free@[i] < old_slots.len());
                    }
                }
            }
            assert forall|i: int| 0 <= i < self.free@.len() implies #[trigger] self.free@[i]
                < self.slots@.len() && !chain.contains(self.free@[i]) by {
                assert(self.free@[i] == old(self).free@[i]);
            }
            assert forall|k: int| 0 <= k < chain.len() implies #[trigger] self.link_of(k)
                == old(self).link_of(k) by {
                assert(chain[k] != s);
            }
        }
        s
    }

    /// Threads a new chunk holding `data` into the chain at position `p`,
    /// between the chunks whose handles are `left` and `right`.
    #[verifier::rlimit(60)]
    fn link_chunk(&mut self, p: Ghost<int>, left: usize, right: usize, data: Vec<T>) -> (s: usize)
        requires
            old(self).linked(),
            0 <= p@ <= old(self).chain@.len(),
            left == handle_at(old(self).chain@, p@ - 1),
            right == handle_at(old(self).chain@, p@),
        ensures
            final(self).linked(),
            final(self).chain@ == old(self).chain@.insert(p@, s),
            final(self).chunks() == old(self).chunks().insert(p@, data@),
            final(self).len == old(self).len,
    {
        let ghost c = self.chain@;
        let ghost data_view = data@;
        proof {
            self.lemma_handles();
        }
        let s = self.take_slot(Node { link: left ^ right, data });
        assert(self.slots@.len() == self.slots.len());
        let h = s + 1;
        let ghost mid = self.slots@;
        if left != 0 {
            let l = left - 1;
            let link = self.slots[l].link;
            self.slots[l].link = (link ^ right) ^ h;
        } else {
            self.head = h;
        }
        if right != 0 {
            let r = right - 1;
            let link = self.slots[r].link;
            self.slots[r].link = (link ^ left) ^ h;
        } else {
            self.tail = h;
        }
        self.chain = Ghost(c.insert(p@, s));
        proof {
            let n = self.chain@;
            assert(n.no_duplicates()) by {
                assert forall|i: int, j: int| 0 <= i < j < n.len() implies n[i] != n[j] by {
                    if i != p@ && j != p@ {
                        let i0 = if i < p@ { i } else { i - 1 };
                        let j0 = if j < p@ { j } else { j - 1 };
                        assert(c[i0] != c[j0]);
                    } else if i == p@ {
                        assert(c.contains(n[j]));
                    } else {
                        assert(c.contains(n[i]));
                    }
                }
            }
            assert forall|j: int| -1 <= j < p@ implies #[trigger] handle_at(n, j) == handle_at(c, j) by {}
            assert forall|j: int| p@ < j <= n.len() implies #[trigger] handle_at(n, j) == handle_at(c, j - 1) by {}
            assert(handle_at(n, p@) == h);
            assert forall|k: int| 0 <= k < n.len() implies #[trigger] n[k] < self.slots@.len() by {
                if k != p@ {
                    let k0 = if k < p@ { k } else { k - 1 };
                    assert(c[k0] < old(self).slots@.len());
                }
            }
            assert forall|k: int| 0 <= k < n.len() implies #[trigger] self.slots@[n[k] as int].spec_link() == handle_at(n, k - 1)
                ^ handle_at(n, k + 1) by {
                if k == p@ {
                    assert(self.slots@[s as int].spec_link() == left ^ right);
                } else {
                    let k0 = if k < p@ { k } else { k - 1 };
                    assert(n[k] == c[k0]);
                    assert(c[k0] != s);
                    assert(old(self).link_of(k0) == handle_at(c, k0 - 1) ^ handle_at(c, k0 + 1));
                    if k == p@ - 1 {
                        assert(left - 1 == c[k0]);
                        lemma_xor(handle_at(c, k0 - 1), right);
                        lemma_xor(handle_at(c, k0 - 1), h);
                    } else if k == p@ + 1 {
                        assert(right - 1 == c[k0]);
                        lemma_xor(left, handle_at(c, k0 + 1));
                        lemma_xor(h, handle_at(c, k0 + 1));
                    } else {
                        if left != 0 {
                            assert(c[k0] != left - 1);
                        }
                        if right != 0 {
                            assert(c[k0] != right - 1);
                        }
                    }
                }
            }
            assert forall|i: int| 0 <= i < self.free@.len() implies #[trigger] self.free@[i]
                < self.slots@.len() && !n.contains(self.free@[i]) by {
                let f = self.free@[i];
                assert(!c.contains(f));
                assert(f != s);
                if n.contains(f) {
                    let k = choose|k: int| 0 <= k < n.len() && n[k] == f;
                    let k0 = if k < p@ { k } else { k - 1 };
                    assert(c[k0] == f);
                }
            }
            assert(self.chunks() =~= old(self).chunks().insert(p@, data_view)) by {
                assert forall|k: int| 0 <= k < n.len() implies self.chunks()[k] == old(self).chunks().insert(p@, data_view)[k] by {
                    if k != p@ {
                        let k0 = if k < p@ { k } else { k - 1 };
                        assert(c[k0] != s);
                        assert(self.slots@[c[k0] as int]@ == old(self).slots@[c[k0] as int]@);
                    }
                }
            }
        }
        s
    }

    /// Takes the chunk at position `p` (slot `s`, between the chunks whose
    /// handles are `left` and `right`) out of the chain, frees its slot, and
    /// hands back its elements.
    fn unlink_chunk(&mut self, p: Ghost<int>, left: usize, s: usize, right: usize) -> (data: Vec<T>)
        requires
            old(self).linked(),
            0 <= p@ < old(self).chain@.len(),
            s == old(self).chain@[p@],
            left == handle_at(old(self).chain@, p@ - 1),
            right == handle_at(old(self).chain@, p@ + 1),
        ensures
            final(self).linked(),
            final(self).chain@ == old(self).chain@.remove(p@),
            final(self).chunks() == old(self).chunks().remove(p@),
            data@ == old(self).chunks()[p@],
            final(self).len == old(self).len,
    {
        let ghost c = self.chain@;
        proof {
            self.lemma_handles();
        }
        assert(self.slots@.len() == self.slots.len());
        let h = s + 1;
        if left != 0 {
            let l = left - 1;
            let link = self.slots[l].link;
            self.slots[l].link = (link ^ h) ^ right;
        } else {
            self.head = right;
        }
        if right != 0 {
            let r = right - 1;
            let link = self.slots[r].link;
            self.slots[r].link = (link ^ h) ^ left;
        } else {
            self.tail = left;
        }
        let mut data: Vec<T> = Vec::new();
        std::mem::swap(&mut data, &mut self.slots[s].data);
        self.slots[s].link = 0;
        self.free.push(s);
        self.chain = Ghost(c.remove(p@));
        proof {
            let n = self.chain@;
            assert(n.no_duplicates()) by {
                assert forall|i: int, j: int| 0 <= i < j < n.len() implies n[i] != n[j] by {
                    let i0 = if i < p@ { i } else { i + 1 };
                    let j0 = if j < p@ { j } else { j + 1 };
                    assert(c[i0] != c[j0]);
                }
            }
            assert forall|j: int| -1 <= j < p@ implies #[trigger] handle_at(n, j) == handle_at(c, j) by {}
            assert forall|j: int| p@ <= j <= n.len() implies #[trigger] handle_at(n, j) == handle_at(c, j + 1) by {}
            assert forall|k: int| 0 <= k < n.len() implies #[trigger] n[k] < self.slots@.len() by {
                let k0 = if k < p@ { k } else { k + 1 };
                assert(c[k0] < old(self).slots@.len());
            }
            assert forall|k: int| 0 <= k < n.len() implies #[trigger] self.slots@[n[k] as int].spec_link() == handle_at(n, k - 1)
                ^ handle_at(n, k + 1) by {
                let k0 = if k < p@ { k } else { k + 1 };
                assert(n[k] == c[k0]);
                assert(c[k0] != s);
                assert(old(self).link_of(k0) == handle_at(c, k0 - 1) ^ handle_at(c, k0 + 1));
                if k == p@ - 1 {
                    assert(left - 1 == c[k0]);
                    lemma_xor(handle_at(c, k0 - 1), h);
                    lemma_xor(handle_at(c, k0 - 1), right);
                } else if k == p@ {
                    assert(right - 1 == c[k0]);
                    lemma_xor(h, handle_at(c, k0 + 1));
                    lemma_xor(handle_at(c, k0 + 1), left);
                    lemma_xor(left, handle_at(c, k0 + 1));
                } else {
                    if left != 0 {
                        assert(c[k0] != left - 1);
                    }
                    if right != 0 {
                        assert(c[k0] != right - 1);
                    }
                }
            }
            assert(self.free@.no_duplicates()) by {
                assert(!old(self).free@.contains(s)) by {
                    if old(self).free@.contains(s) {
                        let i = choose|i: int| 0 <= i < old(self).free@.len() && old(self).free@[i] == s;
                        assert(!c.contains(old(self).free@[i]));
                    }
                }
                assert forall|i: int, j: int| 0 <= i < j < self.free@.len() implies self.free@[i] != self.free@[j] by {
                    if j == self.free@.len() - 1 {
                        assert(old(self).free@.contains(self.free@[i]));
                    }
                }
            }
            assert forall|i: int| 0 <= i < self.free@.len() implies #[trigger] self.free@[i]
                < self.slots@.len() && !n.contains(self.free@[i]) by {
                let f = self.free@[i];
                if n.contains(f) {
                    let k = choose|k: int| 0 <= k < n.len() && n[k] == f;
                    let k0 = if k < p@ { k } else { k + 1 };
                    assert(c[k0] == f);
                    assert(c[k0] != s);
                    assert(old(self).free@[i] == f);
                }
            }
            assert(self.chunks() =~= old(self).chunks().remove(p@)) by {
                assert forall|k: int| 0 <= k < n.len() implies self.chunks()[k] == old(self).chunks().remove(p@)[k] by {
                    let k0 = if k < p@ { k } else { k + 1 };
                    assert(c[k0] != s);
                    assert(self.slots@[c[k0] as int]@ == old(self).slots@[c[k0] as int]@);
                }
            }
        }
        data
    }

    /// An edit of the elements of the chunk at position `k` keeps the chain
    /// well linked and changes only that chunk.
    proof fn lemma_edit_chunk(pre: &Self, post: &Self, k: int)
        requires
            pre.linked(),
            0 <= k < pre.chain@.len(),
            post.chain@ == pre.chain@,
            post.head == pre.head,
            post.tail == pre.tail,
            post.free@ == pre.free@,
            post.slots@.len() == pre.slots@.len(),
            post.slots@[pre.chain@[k] as int].spec_link() == pre.slots@[pre.chain@[k] as int].spec_link(),
            forall|j: int| 0 <= j < pre.slots@.len() && j != pre.chain@[k] ==> #[trigger] post.slots@[j] == pre.slots@[j],
        ensures
            post.linked(),
            post.chunks() == pre.chunks().update(k, post.slots@[pre.chain@[k] as int]@),
    {
        let c = pre.chain@;
        assert forall|j: int| 0 <= j < c.len() implies #[trigger] post.slots@[c[j] as int].spec_link() == handle_at(c, j - 1)
            ^ handle_at(c, j + 1) by {
            assert(pre.link_of(j) == handle_at(c, j - 1) ^ handle_at(c, j + 1));
        }
        assert forall|j: int| 0 <= j < c.len() implies #[trigger] c[j] < post.slots@.len() by {
            assert(c[j] < pre.slots@.len());
        }
        assert forall|i: int| 0 <= i < post.free@.len() implies #[trigger] post.free@[i]
            < post.slots@.len() && !c.contains(post.free@[i]) by {
            assert(pre.free@[i] < pre.slots@.len());
        }
        assert(post.chunks() =~= pre.chunks().update(k, post.slots@[c[k] as int]@)) by {
            assert forall|j: int| 0 <= j < c.len() && j != k implies post.chunks()[j] == pre.chunks()[j] by {
                assert(c[j] != c[k]);
            }
        }
    }

    /// Puts `value` at `offset` in the chunk at position `k`, slot `s`.
    fn chunk_insert(&mut self, k: Ghost<int>, s: usize, offset: usize, value: T)
        requires
            old(self).linked(),
            0 <= k@ < old(self).chain@.len(),
            s == old(self).chain@[k@],
            offset <= old(self).chunks()[k@].len(),
        ensures
            final(self).linked(),
            final(self).chain@ == old(self).chain@,
            final(self).chunks() == old(self).chunks().update(k@, old(self).chunks()[k@].insert(offset as int, value)),
            final(self).len == old(self).len,
    {
        self.slots[s].data.insert(offset, value);
        proof {
            Self::lemma_edit_chunk(old(self), self, k@);
        }
    }

    /// Takes out the element at `offset` of the chunk at position `k`, slot `s`.
    fn chunk_remove(&mut self, k: Ghost<int>, s: usize, offset: usize) -> (r: T)
        requires
            old(self).linked(),
            0 <= k@ < old(self).chain@.len(),
            s == old(self).chain@[k@],
            offset < old(self).chunks()[k@].len(),
        ensures
            final(self).linked(),
            final(self).chain@ == old(self).chain@,
            r == old(self).chunks()[k@][offset as int],
            final(self).chunks() == old(self).chunks().update(k@, old(self).chunks()[k@].remove(offset as int)),
            final(self).len == old(self).len,
    {
        let r = self.slots[s].data.remove(offset);
        proof {
            Self::lemma_edit_chunk(old(self), self, k@);
        }
        r
    }

    /// Cuts the chunk at position `k`, slot `s`, after its first `at`
    /// elements, and hands back the rest.
    fn chunk_split_off(&mut self, k: Ghost<int>, s: usize, at: usize) -> (r: Vec<T>)
        requires
            old(self).linked(),
            0 <= k@ < old(self).chain@.len(),
            s == old(self).chain@[k@],
            at <= old(self).chunks()[k@].len(),
        ensures
            final(self).linked(),
            final(self).chain@ == old(self).chain@,
            r@ == old(self).chunks()[k@].subrange(at as int, old(self).chunks()[k@].len() as int),
            final(self).chunks() == old(self).chunks().update(k@, old(self).chunks()[k@].subrange(0, at as int)),
            final(self).len == old(self).len,
    {
        let r = self.slots[s].data.split_off(at);
        proof {
            Self::lemma_edit_chunk(old(self), self, k@);
        }
        r
    }

    /// Creates an empty list; it holds no chunk.
    pub fn new() -> (r: Self)
        ensures
            r.wf(),
            r@ == Seq::<T>::empty(),
    {
        let r = ArrayList {
            slots: Vec::new(),
            free: Vec::new(),
            head: 0,
            tail: 0,
            len: 0,
            chain: Ghost(Seq::empty()),
        };
        proof {
            assert(r.chunks() =~= Seq::<Seq<T>>::empty());
        }
        r
    }

    /// Number of elements in the list.
    pub fn len(&self) -> (r: usize)
        requires
            self.wf(),
        ensures
            r == self@.len(),
            r == self.cached_len(),
    {
        self.len
    }

    pub fn is_empty(&self) -> (r: bool)
        requires
            self.wf(),
        ensures
            r == (self@.len() == 0),
    {
        self.len == 0
    }

    /// Adds `value` at the back, into the tail chunk if it has room, else
    /// into a new tail chunk.
    pub fn push_back(&mut self, value: T)
        requires
            old(self).wf(),
            N >= 1,
            old(self)@.len() < usize::MAX,
        ensures
            final(self).wf(),
            final(self)@ == old(self)@.push(value),
            old(self)@.len() == 0 ==> final(self).is_single_chunk(),
    {
        let ghost cs = self.chunks();
        let ghost n = cs.len() as int;
        proof {
            self.lemma_ends();
            self.lemma_handles();
            lemma_prefix_ends(cs);
        }
        if self.tail != 0 && self.slots[self.tail - 1].data.len() < N {
            let s = self.tail - 1;
            let end = self.slots[s].data.len();
            self.chunk_insert(Ghost(n - 1), s, end, value);
            proof {
                lemma_flatten_around(cs, n - 1);
                lemma_flatten_update(cs, n - 1, cs[n - 1].push(value));
                assert(cs[n - 1].insert(end as int, value) == cs[n - 1].push(value));
                assert(cs.subrange(n, n) =~= Seq::<Seq<T>>::empty());
                assert forall|k: int| 0 <= k < self.chain@.len() implies 0 < #[trigger] self.chunks()[k].len() <= N by {
                    assert(0 < cs[k].len());
                }
            }
        } else {
            let mut data: Vec<T> = Vec::new();
            data.push(value);
            let tail = self.tail;
            self.link_chunk(Ghost(n), tail, 0, data);
            proof {
                lemma_flatten_insert(cs, n, seq![value]);
                assert(cs.subrange(0, n) =~= cs);
                assert(cs.subrange(n, n) =~= Seq::<Seq<T>>::empty());
                assert forall|k: int| 0 <= k < self.chain@.len() implies 0 < #[trigger] self.chunks()[k].len() <= N by {
                    if k < n {
                        assert(0 < cs[k].len());
                    }
                }
            }
        }
        self.len = self.len + 1;
        proof {
            assert(self@ =~= old(self)@.push(value));
            if old(self)@.len() == 0 {
                lemma_xor(0, 0);
                self.lemma_handles();
                assert(self.chain@.len() == 1);
                assert(self.chunks()[0].len() == 1);
                assert(self.slots@[self.chain@[0] as int].spec_link() == handle_at(self.chain@, -1) ^ handle_at(self.chain@, 1));
                assert(self.head != 0);
            }
        }
    }

    /// Adds `value` at the front, into the head chunk if it has room, else
    /// into a new head chunk.
    pub fn push_front(&mut self, value: T)
        requires
            old(self).wf(),
            N >= 1,
            old(self)@.len() < usize::MAX,
        ensures
            final(self).wf(),
            final(self)@ == seq![value] + old(self)@,
            old(self)@.len() == 0 ==> final(self).is_single_chunk(),
    {
        let ghost cs = self.chunks();
        let ghost n = cs.len() as int;
        proof {
            self.lemma_ends();
            self.lemma_handles();
            lemma_prefix_ends(cs);
        }
        if self.head != 0 && self.slots[self.head - 1].data.len() < N {
            let s = self.head - 1;
            self.chunk_insert(Ghost(0), s, 0, value);
            proof {
                lemma_flatten_around(cs, 0);
                lemma_flatten_update(cs, 0, cs[0].insert(0, value));
                assert(cs.subrange(0, 0) =~= Seq::<Seq<T>>::empty());
                assert(cs[0].insert(0, value) =~= seq![value] + cs[0]);
                assert forall|k: int| 0 <= k < self.chain@.len() implies 0 < #[trigger] self.chunks()[k].len() <= N by {
                    assert(0 < cs[k].len());
                }
            }
        } else {
            let mut data: Vec<T> = Vec::new();
            data.push(value);
            let head = self.head;
            self.link_chunk(Ghost(0), 0, head, data);
            proof {
                lemma_flatten_insert(cs, 0, seq![value]);
                assert(cs.subrange(0, n) =~= cs);
                assert(cs.subrange(0, 0) =~= Seq::<Seq<T>>::empty());
                assert forall|k: int| 0 <= k < self.chain@.len() implies 0 < #[trigger] self.chunks()[k].len() <= N by {
                    if k > 0 {
                        assert(0 < cs[k - 1].len());
                    }
                }
            }
        }
        self.len = self.len + 1;
        proof {
            assert(self@ =~= seq![value] + old(self)@);
            if old(self)@.len() == 0 {
                lemma_xor(0, 0);
                self.lemma_handles();
                assert(self.chain@.len() == 1);
                assert(self.chunks()[0].len() == 1);
                assert(self.slots@[self.chain@[0] as int].spec_link() == handle_at(self.chain@, -1) ^ handle_at(self.chain@, 1));
                assert(self.head != 0);
            }
        }
    }

    /// The list is empty exactly when the chain is, and head and tail are
    /// handles exactly when it is not.
    proof fn lemma_ends(&self)
        requires
            self.wf(),
        ensures
            (self.chain@.len() == 0) == (self@.len() == 0),
            (self.head == 0) == (self.chain@.len() == 0),
            (self.tail == 0) == (self.chain@.len() == 0),
            self.chain@.len() > 0 ==> self.head - 1 == self.chain@[0] && self.tail - 1
                == self.chain@[self.chain@.len() - 1],
    {
        self.lemma_handles();
        let cs = self.chunks();
        if cs.len() > 0 {
            lemma_flatten_index(cs, 0, 0);
        } else {
            assert(cs =~= Seq::<Seq<T>>::empty());
        }
    }

    /// Removes and returns the first element, or `None` if the list is empty.
    pub fn pop_front(&mut self) -> (r: Option<T>)
        requires
            old(self).wf(),
        ensures
            final(self).wf(),
            old(self)@.len() == 0 ==> r.is_none() && final(self)@ == old(self)@,
            old(self)@.len() > 0 ==> r == Some(old(self)@[0]) && final(self)@ == old(self)@.drop_first(),
    {
        proof {
            self.lemma_ends();
        }
        if self.head == 0 {
            return None;
        }
        let ghost cs = self.chunks();
        let ghost n = cs.len() as int;
        let s = self.head - 1;
        assert(cs[0].len() > 0);
        let v = self.chunk_remove(Ghost(0), s, 0);
        let ghost cs1 = self.chunks();
        proof {
            lemma_flatten_around(cs, 0);
            lemma_flatten_update(cs, 0, cs[0].remove(0));
            lemma_flatten_index(cs, 0, 0);
            lemma_prefix_ends(cs);
            assert(cs.subrange(0, 0) =~= Seq::<Seq<T>>::empty());
            assert(cs[0].remove(0) =~= cs[0].drop_first());
            assert(cs1.flatten() =~= cs.flatten().drop_first());
        }
        if self.slots[s].data.len() == 0 {
            let right = self.slots[s].link;
            proof {
                assert(self.slots@[self.chain@[0] as int].spec_link() == handle_at(self.chain@, -1) ^ handle_at(self.chain@, 1));
                lemma_xor(handle_at(self.chain@, 1), 0);
                lemma_flatten_remove(cs1, 0);
                lemma_flatten_around(cs1, 0);
                assert(cs1.subrange(0, 0) =~= Seq::<Seq<T>>::empty());
            }
            self.unlink_chunk(Ghost(0), 0, s, right);
        }
        self.len = self.len - 1;
        proof {
            assert forall|k: int| 0 <= k < self.chain@.len() implies 0 < #[trigger] self.chunks()[k].len() <= N by {
                if self.chain@.len() == n {
                    assert(0 < cs[k].len());
                } else {
                    assert(0 < cs[k + 1].len());
                }
            }
        }
        Some(v)
    }

    /// Removes and returns the last element, or `None` if the list is empty.
    pub fn pop_back(&mut self) -> (r: Option<T>)
        requires
            old(self).wf(),
        ensures
            final(self).wf(),
            old(self)@.len() == 0 ==> r.is_none() && final(self)@ == old(self)@,
            old(self)@.len() > 0 ==> r == Some(old(self)@.last()) && final(self)@ == old(self)@.drop_last(),
    {
        proof {
            self.lemma_ends();
        }
        if self.tail == 0 {
            return None;
        }
        let ghost cs = self.chunks();
        let ghost n = cs.len() as int;
        let s = self.tail - 1;
        assert(cs[n - 1].len() > 0);
        let last = self.slots[s].data.len() - 1;
        let v = self.chunk_remove(Ghost(n - 1), s, last);
        let ghost cs1 = self.chunks();
        proof {
            lemma_flatten_around(cs, n - 1);
            lemma_flatten_update(cs, n - 1, cs[n - 1].remove(last as int));
            assert(cs.subrange(n, n) =~= Seq::<Seq<T>>::empty());
            assert(cs[n - 1].remove(last as int) =~= cs[n - 1].drop_last());
            assert(cs1.flatten() =~= cs.flatten().drop_last());
        }
        if self.slots[s].data.len() == 0 {
            let left = self.slots[s].link;
            proof {
                assert(self.slots@[self.chain@[n - 1] as int].spec_link() == handle_at(self.chain@, n - 2) ^ handle_at(self.chain@, n));
                lemma_xor(handle_at(self.chain@, n - 2), 0);
                lemma_flatten_remove(cs1, n - 1);
                lemma_flatten_around(cs1, n - 1);
                assert(cs1.subrange(n, n) =~= Seq::<Seq<T>>::empty());
            }
            self.unlink_chunk(Ghost(n - 1), left, s, 0);
        }
        self.len = self.len - 1;
        proof {
            assert forall|k: int| 0 <= k < self.chain@.len() implies 0 < #[trigger] self.chunks()[k].len() <= N by {
                assert(0 < cs[k].len());
            }
        }
        Some(v)
    }

    /// `sp` is the place of element `i`.
    pub(crate) open spec fn spot_at(&self, sp: Spot, i: int) -> bool {
        let k = sp.k@;
        &&& 0 <= k < self.chain@.len()
        &&& self.chain@[k] == sp.slot
        &&& sp.left == handle_at(self.chain@, k - 1)
        &&& sp.offset < self.chunks()[k].len()
        &&& i == prefix_len(self.chunks(), k) + sp.offset
    }

    proof fn lemma_spot(&self, sp: Spot, i: int)
        requires
            self.wf(),
            self.spot_at(sp, i),
        ensures
            0 <= i < self@.len(),
            self@[i] == self.chunks()[sp.k@][sp.offset as int],
            sp.slot < self.slots@.len(),
            sp.slot < usize::MAX,
            self.slots@[sp.slot as int].spec_link() == handle_at(self.chain@, sp.k@ - 1)
                ^ handle_at(self.chain@, sp.k@ + 1),
    {
        lemma_flatten_index(self.chunks(), sp.k@, sp.offset as int);
        assert(self.chain@[sp.k@] < self.slots@.len());
        assert(self.slots@.len() == self.slots.len());
    }

    /// The element at a place.
    pub(crate) fn element(&self, sp: Spot, i: Ghost<int>) -> (r: &T)
        requires
            self.wf(),
            self.spot_at(sp, i@),
        ensures
            *r == self@[i@],
    {
        proof {
            self.lemma_spot(sp, i@);
        }
        &self.slots[sp.slot].data[sp.offset]
    }

    /// The handle of the right neighbour of the chunk of a place.
    pub(crate) fn right_of(&self, sp: Spot, i: Ghost<int>) -> (r: usize)
        requires
            self.wf(),
            self.spot_at(sp, i@),
        ensures
            r == handle_at(self.chain@, sp.k@ + 1),
    {
        proof {
            self.lemma_spot(sp, i@);
            lemma_xor(sp.left, handle_at(self.chain@, sp.k@ + 1));
        }
        self.slots[sp.slot].link ^ sp.left
    }

    /// The place of the first element.
    pub(crate) fn first_spot(&self) -> (r: Spot)
        requires
            self.wf(),
            self@.len() > 0,
        ensures
            self.spot_at(r, 0),
    {
        proof {
            self.lemma_ends();
            lemma_prefix_ends(self.chunks());
            assert(self.chunks()[0].len() > 0);
        }
        Spot { slot: self.head - 1, left: 0, offset: 0, k: Ghost(0) }
    }

    /// The place of the last element.
    pub(crate) fn last_spot(&self) -> (r: Spot)
        requires
            self.wf(),
            self@.len() > 0,
        ensures
            self.spot_at(r, self@.len() - 1),
    {
        let ghost cs = self.chunks();
        let ghost n = cs.len() as int;
        proof {
            self.lemma_ends();
            lemma_prefix_ends(cs);
            lemma_prefix_step(cs, n - 1);
            assert(cs.subrange(0, n) =~= cs);
            assert(cs[n - 1].len() > 0);
            assert(self.slots@[self.chain@[n - 1] as int].spec_link() == handle_at(self.chain@, n - 2) ^ handle_at(self.chain@, n));
            lemma_xor(handle_at(self.chain@, n - 2), 0);
        }
        let s = self.tail - 1;
        let left = self.slots[s].link;
        Spot { slot: s, left, offset: self.slots[s].data.len() - 1, k: Ghost(n - 1) }
    }

    /// The place of the element after the one at `sp`.
    pub(crate) fn spot_next(&self, sp: Spot, i: Ghost<int>) -> (r: Spot)
        requires
            self.wf(),
            self.spot_at(sp, i@),
            i@ + 1 < self@.len(),
        ensures
            self.spot_at(r, i@ + 1),
    {
        let ghost cs = self.chunks();
        let ghost k = sp.k@;
        proof {
            self.lemma_spot(sp, i@);
        }
        if sp.offset + 1 < self.slots[sp.slot].data.len() {
            Spot { offset: sp.offset + 1, ..sp }
        } else {
            let right = self.right_of(sp, i);
            proof {
                lemma_prefix_step(cs, k);
                lemma_prefix_ends(cs);
                assert(k + 1 < cs.len());
                self.lemma_handles();
                assert(cs[k + 1].len() > 0);
            }
            Spot { slot: right - 1, left: sp.slot + 1, offset: 0, k: Ghost(k + 1) }
        }
    }

    /// The place of the element before the one at `sp`.
    pub(crate) fn spot_prev(&self, sp: Spot, i: Ghost<int>) -> (r: Spot)
        requires
            self.wf(),
            self.spot_at(sp, i@),
            i@ > 0,
        ensures
            self.spot_at(r, i@ - 1),
    {
        let ghost cs = self.chunks();
        let ghost k = sp.k@;
        proof {
            self.lemma_spot(sp, i@);
            self.lemma_handles();
        }
        if sp.offset > 0 {
            Spot { offset: sp.offset - 1, ..sp }
        } else {
            proof {
                lemma_prefix_ends(cs);
                assert(k > 0);
                lemma_prefix_step(cs, k - 1);
                assert(cs[k - 1].len() > 0);
                assert(self.chain@[k - 1] < self.slots@.len());
                assert(self.slots@[self.chain@[k - 1] as int].spec_link() == handle_at(self.chain@, k - 2) ^ handle_at(self.chain@, k));
                lemma_xor(handle_at(self.chain@, k - 2), handle_at(self.chain@, k));
            }
            let s = sp.left - 1;
            let left = self.slots[s].link ^ (sp.slot + 1);
            Spot { slot: s, left, offset: self.slots[s].data.len() - 1, k: Ghost(k - 1) }
        }
    }

    /// Finds the place of element `index`, walking from the nearer end of
    /// the chain; `None` if `index` is out of range.
    pub(crate) fn locate(&self, index: usize) -> (r: Option<Spot>)
        requires
            self.wf(),
        ensures
            (r is Some) == (index < self@.len()),
            r is Some ==> self.spot_at(r->0, index as int),
    {
        if index >= self.len {
            return None;
        }
        let ghost cs = self.chunks();
        let ghost n = cs.len() as int;
        proof {
            self.lemma_ends();
            self.lemma_handles();
            lemma_prefix_ends(cs);
        }
        if index <= self.len / 2 {
            let mut left: usize = 0;
            let mut cur: usize = self.head;
            let mut acc: usize = 0;
            let ghost mut k: int = 0;
            loop
                invariant
                    self.wf(),
                    cs == self.chunks(),
                    n == cs.len(),
                    0 <= k < n,
                    cur == handle_at(self.chain@, k),
                    left == handle_at(self.chain@, k - 1),
                    acc == prefix_len(cs, k),
                    acc <= index < self@.len(),
                    self@.len() == prefix_len(cs, n),
                    forall|j: int| 0 <= j < n ==> #[trigger] handle_at(self.chain@, j) != 0
                        && handle_at(self.chain@, j) - 1 == self.chain@[j],
                decreases n - k,
            {
                let s = cur - 1;
                assert(self.chain@[k] < self.slots@.len());
                let size = self.slots[s].data.len();
                if index - acc < size {
                    return Some(Spot { slot: s, left, offset: index - acc, k: Ghost(k) });
                }
                proof {
                    lemma_prefix_step(cs, k);
                    assert(self.slots@[self.chain@[k] as int].spec_link() == handle_at(self.chain@, k - 1) ^ handle_at(self.chain@, k + 1));
                    lemma_xor(handle_at(self.chain@, k + 1), left);
                    lemma_xor(left, handle_at(self.chain@, k + 1));
                }
                let next = self.slots[s].link ^ left;
                acc = acc + size;
                left = cur;
                cur = next;
                proof {
                    k = k + 1;
                }
            }
        } else {
            let mut right: usize = 0;
            let mut cur: usize = self.tail;
            let mut end: usize = self.len;
            let ghost mut k: int = n - 1;
            proof {
                assert(cs.subrange(0, n) =~= cs);
            }
            loop
                invariant
                    self.wf(),
                    cs == self.chunks(),
                    n == cs.len(),
                    0 <= k < n,
                    cur == handle_at(self.chain@, k),
                    right == handle_at(self.chain@, k + 1),
                    end == prefix_len(cs, k + 1),
                    index < end,
                    index < self@.len(),
                    forall|j: int| 0 <= j < n ==> #[trigger] handle_at(self.chain@, j) != 0
                        && handle_at(self.chain@, j) - 1 == self.chain@[j],
                decreases k,
            {
                let s = cur - 1;
                assert(self.chain@[k] < self.slots@.len());
                proof {
                    lemma_prefix_step(cs, k);
                    assert(self.slots@[self.chain@[k] as int].spec_link() == handle_at(self.chain@, k - 1) ^ handle_at(self.chain@, k + 1));
                    lemma_xor(handle_at(self.chain@, k - 1), right);
                }
                let size = self.slots[s].data.len();
                let start = end - size;
                let prev = self.slots[s].link ^ right;
                if index >= start {
                    return Some(Spot { slot: s, left: prev, offset: index - start, k: Ghost(k) });
                }
                right = cur;
                cur = prev;
                end = start;
                proof {
                    k = k - 1;
                }
            }
        }
    }

    /// The element at `index`, or `None` if `index` is out of range.
    pub fn get(&self, index: usize) -> (r: Option<&T>)
        requires
            self.wf(),
        ensures
            r == self.spec_get(index as int),
    {
        match self.locate(index) {
            Some(sp) => Some(self.element(sp, Ghost(index as int))),
            None => None,
        }
    }

    /// The first element, or `None` if the list is empty.
    pub fn front(&self) -> (r: Option<&T>)
        requires
            self.wf(),
        ensures
            r == self.spec_get(0),
    {
        if self.len == 0 {
            return None;
        }
        let sp = self.first_spot();
        Some(self.element(sp, Ghost(0)))
    }

    /// The last element, or `None` if the list is empty.
    pub fn back(&self) -> (r: Option<&T>)
        requires
            self.wf(),
        ensures
            r == self.spec_get(self@.len() - 1),
    {
        if self.len == 0 {
            return None;
        }
        let sp = self.last_spot();
        Some(self.element(sp, Ghost(self@.len() - 1)))
    }

    /// A mutable reference to the element at a place; whatever is written
    /// through it becomes element `i` of the list.
    pub(crate) fn element_mut(&mut self, sp: Spot, i: Ghost<int>) -> (r: &mut T)
        requires
            old(self).wf(),
            old(self).spot_at(sp, i@),
        ensures
            *r == old(self)@[i@],
            Self::written(old(self), final(self), sp, *final(r)),
            final(self).wf(),
            final(self)@ == old(self)@.update(i@, *final(r)),
            final(self).chain@ == old(self).chain@,
            forall|sp2: Spot, j: int| #[trigger] old(self).spot_at(sp2, j) ==> final(self).spot_at(sp2, j),
    {
        proof {
            self.lemma_spot(sp, i@);
            assert forall|post: Self, v: T| #[trigger] Self::written(old(self), &post, sp, v) implies post.wf()
                && post@ == old(self)@.update(i@, v) && post.chain@ == old(self).chain@
                && (forall|sp2: Spot, j: int| #[trigger] old(self).spot_at(sp2, j) ==> post.spot_at(sp2, j)) by {
                Self::lemma_write_element(old(self), &post, sp, i@, v);
            }
        }
        &mut self.slots[sp.slot].data[sp.offset]
    }

    /// `post` is `pre` with the element at place `sp` replaced by `v`.
    pub(crate) open spec fn written(pre: &Self, post: &Self, sp: Spot, v: T) -> bool {
        &&& post.chain@ == pre.chain@
        &&& post.head == pre.head
        &&& post.tail == pre.tail
        &&& post.len == pre.len
        &&& post.free@ == pre.free@
        &&& post.slots@ == pre.slots@.update(sp.slot as int, post.slots@[sp.slot as int])
        &&& post.slots@[sp.slot as int].link == pre.slots@[sp.slot as int].link
        &&& post.slots@[sp.slot as int]@ == pre.slots@[sp.slot as int]@.update(sp.offset as int, v)
    }

    proof fn lemma_write_element(pre: &Self, post: &Self, sp: Spot, i: int, v: T)
        requires
            pre.wf(),
            pre.spot_at(sp, i),
            Self::written(pre, post, sp, v),
        ensures
            post.wf(),
            post@ == pre@.update(i, v),
            forall|sp2: Spot, j: int| #[trigger] pre.spot_at(sp2, j) ==> post.spot_at(sp2, j),
    {
        pre.lemma_spot(sp, i);
        let k = sp.k@;
        let cs = pre.chunks();
        assert forall|j: int| 0 <= j < pre.slots@.len() && j != pre.chain@[k] implies #[trigger] post.slots@[j] == pre.slots@[j] by {
            assert(post.slots@[j] == pre.slots@.update(sp.slot as int, post.slots@[sp.slot as int])[j]);
        }
        Self::lemma_edit_chunk(pre, post, k);
        lemma_flatten_around(cs, k);
        lemma_flatten_update(cs, k, cs[k].update(sp.offset as int, v));
        assert(post@ =~= pre@.update(i, v));
        assert forall|sp2: Spot, j: int| #[trigger] pre.spot_at(sp2, j) implies post.spot_at(sp2, j) by {
            lemma_prefix_same_len(cs, k, cs[k].update(sp.offset as int, v), sp2.k@);
        }
        assert forall|j: int| 0 <= j < post.chain@.len() implies 0 < #[trigger] post.chunks()[j].len() <= N by {
            assert(0 < cs[j].len() <= N);
        }
    }

    /// A mutable reference to the element at `index`, or `None` if `index`
    /// is out of range.
    pub fn get_mut(&mut self, index: usize) -> (r: Option<&mut T>)
        requires
            old(self).wf(),
        ensures
            final(self).wf(),
            match r {
                Some(e) => index < old(self)@.len() && *e == old(self)@[index as int] && final(self)@
                    == old(self)@.update(index as int, *final(e)),
                None => index >= old(self)@.len() && final(self)@ == old(self)@,
            },
    {
        match self.locate(index) {
            Some(sp) => Some(self.element_mut(sp, Ghost(index as int))),
            None => None,
        }
    }

    /// A mutable reference to the first element, or `None` if the list is empty.
    pub fn front_mut(&mut self) -> (r: Option<&mut T>)
        requires
            old(self).wf(),
        ensures
            final(self).wf(),
            match r {
                Some(e) => old(self)@.len() > 0 && *e == old(self)@[0] && final(self)@
                    == old(self)@.update(0, *final(e)),
                None => old(self)@.len() == 0 && final(self)@ == old(self)@,
            },
    {
        if self.len == 0 {
            return None;
        }
        let sp = self.first_spot();
        Some(self.element_mut(sp, Ghost(0)))
    }

    /// A mutable reference to the last element, or `None` if the list is empty.
    pub fn back_mut(&mut self) -> (r: Option<&mut T>)
        requires
            old(self).wf(),
        ensures
            final(self).wf(),
            match r {
                Some(e) => old(self)@.len() > 0 && *e == old(self)@.last() && final(self)@
                    == old(self)@.update(old(self)@.len() - 1, *final(e)),
                None => old(self)@.len() == 0 && final(self)@ == old(self)@,
            },
    {
        if self.len == 0 {
            return None;
        }
        let sp = self.last_spot();
        let ghost last = self@.len() - 1;
        Some(self.element_mut(sp, Ghost(last)))
    }

    /// Cuts the full chunk at place `sp` in two halves; the upper half goes
    /// to a new chunk threaded in after it.
    fn split_chunk(&mut self, sp: Spot, i: Ghost<int>) -> (s_new: usize)
        requires
            old(self).wf(),
            N >= 1,
            old(self).spot_at(sp, i@),
            old(self).chunks()[sp.k@].len() == N,
        ensures
            final(self).linked(),
            final(self).len == old(self).len,
            final(self)@ == old(self)@,
            final(self).chain@ == old(self).chain@.insert(sp.k@ + 1, s_new),
            ({
                let c = old(self).chunks()[sp.k@];
                final(self).chunks() == old(self).chunks().update(sp.k@, c.subrange(0, (N / 2) as int)).insert(
                    sp.k@ + 1,
                    c.subrange((N / 2) as int, c.len() as int),
                )
            }),
            prefix_len(final(self).chunks(), sp.k@) == prefix_len(old(self).chunks(), sp.k@),
            prefix_len(final(self).chunks(), sp.k@ + 1) == prefix_len(old(self).chunks(), sp.k@) + N / 2,
    {
        let ghost cs = self.chunks();
        let ghost k = sp.k@;
        proof {
            self.lemma_spot(sp, i@);
            self.lemma_handles();
            lemma_flatten_split_chunk(cs, k, (N / 2) as int);
        }
        let right = self.right_of(sp, i);
        let upper = self.chunk_split_off(Ghost(k), sp.slot, N / 2);
        self.link_chunk(Ghost(k + 1), sp.slot + 1, right, upper)
    }

    /// Moves the last element of the full chunk at position `k` (slot `s`)
    /// to the front of its right neighbour (handle `right`), which has room.
    fn spill_right(&mut self, k: Ghost<int>, s: usize, right: usize)
        requires
            old(self).wf(),
            0 <= k@ < old(self).chain@.len() - 1,
            s == old(self).chain@[k@],
            right == handle_at(old(self).chain@, k@ + 1),
            old(self).chunks()[k@].len() == N,
            old(self).chunks()[k@ + 1].len() < N,
        ensures
            final(self).wf(),
            final(self)@ == old(self)@,
            final(self).chain@ == old(self).chain@,
            final(self).chunks()[k@] == old(self).chunks()[k@].drop_last(),
            prefix_len(final(self).chunks(), k@) == prefix_len(old(self).chunks(), k@),
    {
        let ghost cs = self.chunks();
        let ghost c = cs[k@];
        proof {
            self.lemma_handles();
            assert(0 < cs[k@ + 1].len());
        }
        let x = self.chunk_remove(k, s, N - 1);
        let ghost cs1 = self.chunks();
        proof {
            lemma_flatten_remove_at(cs, k@, N - 1);
            lemma_flatten_update(cs, k@, c.remove(N - 1));
            lemma_prefix_step(cs1, k@);
        }
        self.chunk_insert(Ghost(k@ + 1), right - 1, 0, x);
        proof {
            let cs2 = self.chunks();
            lemma_flatten_insert_at(cs1, k@ + 1, 0, x);
            assert(old(self)@.remove(prefix_len(cs, k@) + N - 1).insert(prefix_len(cs, k@) + N - 1, x) =~= old(self)@) by {
                lemma_flatten_index(cs, k@, N - 1);
            }
            assert(cs2.subrange(0, k@) =~= cs.subrange(0, k@));
            assert(c.remove(N - 1) =~= c.drop_last());
            assert forall|j: int| 0 <= j < self.chain@.len() implies 0 < #[trigger] self.chunks()[j].len() <= N by {
                assert(0 < cs[j].len() <= N);
            }
        }
    }

    /// Moves the first element of the full chunk at position `k` (slot `s`)
    /// to the back of its left neighbour (handle `left`), which has room.
    fn spill_left(&mut self, k: Ghost<int>, s: usize, left: usize)
        requires
            old(self).wf(),
            0 < k@ < old(self).chain@.len(),
            s == old(self).chain@[k@],
            left == handle_at(old(self).chain@, k@ - 1),
            old(self).chunks()[k@].len() == N,
            old(self).chunks()[k@ - 1].len() < N,
        ensures
            final(self).wf(),
            final(self)@ == old(self)@,
            final(self).chain@ == old(self).chain@,
            final(self).chunks()[k@] == old(self).chunks()[k@].drop_first(),
            prefix_len(final(self).chunks(), k@) == prefix_len(old(self).chunks(), k@) + 1,
    {
        let ghost cs = self.chunks();
        let ghost c = cs[k@];
        proof {
            self.lemma_handles();
            assert(0 < cs[k@ - 1].len());
            lemma_prefix_step(cs, k@ - 1);
        }
        let x = self.chunk_remove(k, s, 0);
        let ghost cs1 = self.chunks();
        proof {
            lemma_flatten_remove_at(cs, k@, 0);
            assert(cs1.subrange(0, k@) =~= cs.subrange(0, k@));
            assert(cs1[k@ - 1] == cs[k@ - 1]);
            lemma_prefix_step(cs1, k@ - 1);
        }
        let end = self.slots[left - 1].data.len();
        self.chunk_insert(Ghost(k@ - 1), left - 1, end, x);
        proof {
            let cs2 = self.chunks();
            let p = prefix_len(cs, k@);
            lemma_flatten_insert_at(cs1, k@ - 1, end as int, x);
            assert(old(self)@.remove(p).insert(p, x) =~= old(self)@) by {
                lemma_flatten_index(cs, k@, 0);
            }
            assert(cs2.subrange(0, k@ - 1) =~= cs.subrange(0, k@ - 1));
            lemma_prefix_step(cs2, k@ - 1);
            assert(c.remove(0) =~= c.drop_first());
            assert forall|j: int| 0 <= j < self.chain@.len() implies 0 < #[trigger] self.chunks()[j].len() <= N by {
                assert(0 < cs[j].len() <= N);
            }
        }
    }

    /// Puts `value` at `index`, shifting the elements from `index` on one
    /// place to the right. When the chunk that holds `index` is full, one
    /// element is first spilled into a neighbour that has room; when neither
    /// has, the chunk is split in two halves.
    #[verifier::rlimit(60)]
    pub fn insert(&mut self, index: usize, value: T)
        requires
            old(self).wf(),
            N >= 1,
            index <= old(self)@.len(),
            old(self)@.len() < usize::MAX,
        ensures
            final(self).wf(),
            final(self)@ == old(self)@.insert(index as int, value),
    {
        if index == 0 {
            self.push_front(value);
            assert(self@ =~= old(self)@.insert(0, value));
            return;
        }
        if index == self.len {
            self.push_back(value);
            assert(self@ =~= old(self)@.insert(index as int, value));
            return;
        }
        let sp = match self.locate(index) {
            Some(sp) => sp,
            None => return,
        };
        let ghost cs = self.chunks();
        let ghost k = sp.k@;
        let ghost o = sp.offset as int;
        proof {
            self.lemma_spot(sp, index as int);
        }
        let right = self.right_of(sp, Ghost(index as int));
        proof {
            self.lemma_handles();
            lemma_prefix_ends(cs);
        }
        let right_has_room = right != 0 && self.slots[right - 1].data.len() < N;
        let left_has_room = sp.left != 0 && self.slots[sp.left - 1].data.len() < N;
        proof {
            if right != 0 {
                assert(self.chain@[k + 1] < self.slots@.len());
            }
            if sp.left != 0 {
                assert(self.chain@[k - 1] < self.slots@.len());
            }
        }
        if self.slots[sp.slot].data.len() < N {
            self.chunk_insert(Ghost(k), sp.slot, sp.offset, value);
            proof {
                lemma_flatten_insert_at(cs, k, o, value);
                assert forall|j: int| 0 <= j < self.chain@.len() implies 0 < #[trigger] self.chunks()[j].len() <= N by {
                    assert(0 < cs[j].len() <= N);
                }
            }
        } else if right_has_room {
            self.spill_right(Ghost(k), sp.slot, right);
            let ghost cs2 = self.chunks();
            self.chunk_insert(Ghost(k), sp.slot, sp.offset, value);
            proof {
                lemma_flatten_insert_at(cs2, k, o, value);
                assert forall|j: int| 0 <= j < self.chain@.len() implies 0 < #[trigger] self.chunks()[j].len() <= N by {
                    assert(0 < cs2[j].len() <= N);
                }
            }
        } else if left_has_room {
            if sp.offset == 0 {
                let end = self.slots[sp.left - 1].data.len();
                self.chunk_insert(Ghost(k - 1), sp.left - 1, end, value);
                proof {
                    lemma_prefix_step(cs, k - 1);
                    lemma_flatten_insert_at(cs, k - 1, end as int, value);
                }
            } else {
                self.spill_left(Ghost(k), sp.slot, sp.left);
                let ghost cs3 = self.chunks();
                self.chunk_insert(Ghost(k), sp.slot, sp.offset - 1, value);
                proof {
                    lemma_flatten_insert_at(cs3, k, o - 1, value);
                }
            }
            proof {
                assert forall|j: int| 0 <= j < self.chain@.len() implies 0 < #[trigger] self.chunks()[j].len() <= N by {
                    assert(0 < cs[j].len() <= N);
                }
            }
        } else {
            let half = N / 2;
            let s_new = self.split_chunk(sp, Ghost(index as int));
            let ghost cs2 = self.chunks();
            if sp.offset <= half {
                self.chunk_insert(Ghost(k), sp.slot, sp.offset, value);
                proof {
                    lemma_flatten_insert_at(cs2, k, o, value);
                }
            } else {
                self.chunk_insert(Ghost(k + 1), s_new, sp.offset - half, value);
                proof {
                    lemma_flatten_insert_at(cs2, k + 1, o - half, value);
                }
            }
            proof {
                assert forall|j: int| 0 <= j < self.chain@.len() implies 0 < #[trigger] self.chunks()[j].len() <= N by {
                    if j < k {
                        assert(0 < cs[j].len() <= N);
                    } else if j > k + 1 {
                        assert(0 < cs[j - 1].len() <= N);
                    }
                }
            }
        }
        self.len = self.len + 1;
    }

    /// Removes and returns the element at `index`, shifting the elements
    /// after it one place to the left; a chunk left empty is unlinked.
    /// `index < len` is a precondition.
    pub fn remove(&mut self, index: usize) -> (r: Option<T>)
        requires
            old(self).wf(),
            index < old(self)@.len(),
        ensures
            final(self).wf(),
            r == Some(old(self)@[index as int]),
            final(self)@ == old(self)@.remove(index as int),
    {
        if index >= self.len {
            return None;
        }
        if index == 0 {
            let r = self.pop_front();
            assert(old(self)@.drop_first() =~= old(self)@.remove(0));
            return r;
        }
        if index == self.len - 1 {
            let r = self.pop_back();
            assert(old(self)@.drop_last() =~= old(self)@.remove(index as int));
            return r;
        }
        let sp = match self.locate(index) {
            Some(sp) => sp,
            None => return None,
        };
        let ghost cs = self.chunks();
        let ghost k = sp.k@;
        proof {
            self.lemma_spot(sp, index as int);
        }
        let right = self.right_of(sp, Ghost(index as int));
        let v = self.chunk_remove(Ghost(k), sp.slot, sp.offset);
        let ghost cs1 = self.chunks();
        proof {
            lemma_flatten_remove_at(cs, k, sp.offset as int);
        }
        if self.slots[sp.slot].data.len() == 0 {
            proof {
                lemma_flatten_remove(cs1, k);
                lemma_flatten_around(cs1, k);
            }
            self.unlink_chunk(Ghost(k), sp.left, sp.slot, right);
        }
        self.len = self.len - 1;
        proof {
            assert forall|j: int| 0 <= j < self.chain@.len() implies 0 < #[trigger] self.chunks()[j].len() <= N by {
                if self.chain@.len() == cs.len() || j < k {
                    assert(0 < cs[j].len() <= N);
                } else {
                    assert(0 < cs[j + 1].len() <= N);
                }
            }
        }
        Some(v)
    }

    /// Takes the head chunk out of the chain and hands back its elements.
    fn take_front_chunk(&mut self) -> (r: Vec<T>)
        requires
            old(self).wf(),
            old(self)@.len() > 0,
        ensures
            final(self).wf(),
            r@ == old(self).chunks()[0],
            final(self).chunks() == old(self).chunks().drop_first(),
            old(self)@ == r@ + final(self)@,
            0 < r@.len() <= N,
    {
        let ghost cs = self.chunks();
        proof {
            self.lemma_ends();
            assert(self.slots@[self.chain@[0] as int].spec_link() == handle_at(self.chain@, -1) ^ handle_at(self.chain@, 1));
            lemma_xor(handle_at(self.chain@, 1), 0);
            lemma_flatten_around(cs, 0);
            lemma_flatten_remove(cs, 0);
            assert(cs.subrange(0, 0) =~= Seq::<Seq<T>>::empty());
            assert(cs.remove(0) =~= cs.drop_first());
            assert(0 < cs[0].len() <= N);
        }
        let s = self.head - 1;
        let right = self.slots[s].link;
        let data = self.unlink_chunk(Ghost(0), 0, s, right);
        self.len = self.len - data.len();
        proof {
            assert forall|j: int| 0 <= j < self.chain@.len() implies 0 < #[trigger] self.chunks()[j].len() <= N by {
                assert(0 < cs[j + 1].len() <= N);
            }
        }
        data
    }

    /// Threads a chunk holding `data` in after the tail.
    fn push_back_chunk(&mut self, data: Vec<T>)
        requires
            old(self).wf(),
            0 < data@.len() <= N,
            old(self)@.len() + data@.len() <= usize::MAX,
        ensures
            final(self).wf(),
            final(self)@ == old(self)@ + data@,
    {
        let ghost cs = self.chunks();
        let ghost n = cs.len() as int;
        let ghost d = data@;
        proof {
            self.lemma_ends();
            lemma_flatten_insert(cs, n, d);
            assert(cs.subrange(0, n) =~= cs);
            assert(cs.subrange(n, n) =~= Seq::<Seq<T>>::empty());
        }
        let size = data.len();
        let tail = self.tail;
        self.link_chunk(Ghost(n), tail, 0, data);
        self.len = self.len + size;
        proof {
            assert forall|j: int| 0 <= j < self.chain@.len() implies 0 < #[trigger] self.chunks()[j].len() <= N by {
                if j < n {
                    assert(0 < cs[j].len() <= N);
                }
            }
        }
    }

    /// Moves all elements of `other` to the back of this list, leaving
    /// `other` empty. Whole chunks move over, none of their elements is
    /// moved one by one.
    pub fn append(&mut self, other: &mut Self)
        requires
            old(self).wf(),
            old(other).wf(),
            old(self)@.len() + old(other)@.len() <= usize::MAX,
        ensures
            final(self).wf(),
            final(other).wf(),
            final(self)@ == old(self)@ + old(other)@,
            final(other)@ == Seq::<T>::empty(),
    {
        while other.len != 0
            invariant
                self.wf(),
                other.wf(),
                self@ + other@ == old(self)@ + old(other)@,
                old(self)@.len() + old(other)@.len() <= usize::MAX,
            decreases other.chain@.len(),
        {
            let ghost before = self@;
            let ghost rest = other@;
            let data = other.take_front_chunk();
            proof {
                assert(before + rest == before + data@ + other@);
            }
            self.push_back_chunk(data);
        }
        proof {
            assert(other@ =~= Seq::<T>::empty());
            assert(self@ =~= self@ + other@);
        }
    }

    /// Removes all elements; every chunk is dropped once.
    pub fn clear(&mut self)
        requires
            old(self).wf(),
        ensures
            final(self).wf(),
            final(self)@ == Seq::<T>::empty(),
    {
        self.slots = Vec::new();
        self.free = Vec::new();
        self.head = 0;
        self.tail = 0;
        self.len = 0;
        self.chain = Ghost(Seq::empty());
        proof {
            assert(self.chunks() =~= Seq::<Seq<T>>::empty());
        }
    }

    /// Adds the elements of `values` at the back, in order, `N` to a chunk.
    pub fn extend(&mut self, values: Vec<T>)
        requires
            old(self).wf(),
            N >= 1,
            old(self)@.len() + values@.len() <= usize::MAX,
        ensures
            final(self).wf(),
            final(self)@ == old(self)@ + values@,
    {
        let mut rest = values;
        while rest.len() > 0
            invariant
                self.wf(),
                N >= 1,
                self@ + rest@ == old(self)@ + values@,
                old(self)@.len() + values@.len() <= usize::MAX,
            decreases rest@.len(),
        {
            let take = if rest.len() < N { rest.len() } else { N };
            let ghost before = rest@;
            let tail = rest.split_off(take);
            proof {
                assert(before =~= rest@ + tail@);
                assert(self@ + before == self@ + rest@ + tail@);
            }
            self.push_back_chunk(rest);
            rest = tail;
        }
        proof {
            assert(self@ =~= self@ + rest@);
        }
    }

    /// Adds clones of the elements of `values` at the back, in order.
    pub fn extend_from_slice(&mut self, values: &[T])
        where
            T: Clone,
        requires
            old(self).wf(),
            N >= 1,
            old(self)@.len() + values@.len() <= usize::MAX,
        ensures
            final(self).wf(),
            final(self)@.len() == old(self)@.len() + values@.len(),
            final(self)@.subrange(0, old(self)@.len() as int) == old(self)@,
            forall|i: int| 0 <= i < values@.len() ==> cloned(values@[i], #[trigger] final(self)@[old(self)@.len() + i]),
    {
        let mut i: usize = 0;
        while i < values.len()
            invariant
                self.wf(),
                N >= 1,
                i <= values@.len(),
                self@.len() == old(self)@.len() + i,
                self@.subrange(0, old(self)@.len() as int) == old(self)@,
                forall|j: int| 0 <= j < i ==> cloned(values@[j], #[trigger] self@[old(self)@.len() + j]),
                old(self)@.len() + values@.len() <= usize::MAX,
            decreases values@.len() - i,
        {
            let v = values[i].clone();
            let ghost before = self@;
            self.push_back(v);
            proof {
                assert(self@.subrange(0, old(self)@.len() as int) =~= before.subrange(0, old(self)@.len() as int));
                assert forall|j: int| 0 <= j < i + 1 implies cloned(values@[j], #[trigger] self@[old(self)@.len() + j]) by {
                    if j < i {
                        assert(self@[old(self)@.len() + j] == before[old(self)@.len() + j]);
                    }
                }
            }
            i = i + 1;
        }
    }

    /// A list of the elements of `values`, in order.
    pub fn from_iter(values: Vec<T>) -> (r: Self)
        requires
            N >= 1,
        ensures
            r.wf(),
            r@ == values@,
    {
        let mut r = Self::new();
        assert(values@.len() == values.len());
        r.extend(values);
        assert(r@ =~= values@);
        r
    }
}

impl<T, const N: usize> Default for ArrayList<T, N> {
    fn default() -> (r: Self)
        ensures
            r.wf(),
            r@ == Seq::<T>::empty(),
    {
        Self::new()
    }
}

} // verus!
