//! A priority queue of search entries that hands out a cheapest entry first.

use crate::state::HeapState;
use vstd::multiset::Multiset;
use vstd::prelude::*;
use vstd::seq_lib::group_to_multiset_ensures;

verus! {

/// The slot above slot `i` in the implicit binary tree.
pub open spec fn parent(i: int) -> int {
    (i - 1) / 2
}

/// Whether entry `a` may stand above entry `b`: `a` is at least as cheap as `b`.
pub open spec fn may_top(a: HeapState, b: HeapState) -> bool {
    a.c.at_most(b.c)
}

/// Every slot but the root holds an entry that its parent may stand above.
pub open spec fn heap_ordered(s: Seq<HeapState>) -> bool {
    forall|i: int| 1 <= i < s.len() ==> may_top(#[trigger] s[parent(i)], s[i])
}

/// The heap order holds everywhere except between slot `k` and its parent, and the
/// parent of `k` may stand above the children of `k`.
pub open spec fn ordered_but_above(s: Seq<HeapState>, k: int) -> bool {
    &&& forall|i: int| 1 <= i < s.len() && i != k ==> may_top(#[trigger] s[parent(i)], s[i])
    &&& forall|i: int|
        1 <= i < s.len() && parent(i) == k && k >= 1 ==> may_top(s[parent(k)], #[trigger] s[i])
}

/// The heap order holds everywhere except between slot `k` and its children, and the
/// parent of `k` may stand above the children of `k`.
pub open spec fn ordered_but_below(s: Seq<HeapState>, k: int) -> bool {
    &&& forall|i: int|
        1 <= i < s.len() && parent(i) != k ==> may_top(#[trigger] s[parent(i)], s[i])
    &&& forall|i: int|
        1 <= i < s.len() && parent(i) == k && k >= 1 ==> may_top(s[parent(k)], #[trigger] s[i])
}

/// The sequence `s` with the entries of slots `i` and `j` exchanged.
pub open spec fn swapped(s: Seq<HeapState>, i: int, j: int) -> Seq<HeapState> {
    s.update(i, s[j]).update(j, s[i])
}

/// Exchanging two entries keeps the entries that the sequence holds.
pub proof fn lemma_swap_keeps_entries(s: Seq<HeapState>, i: int, j: int)
    requires
        0 <= i < s.len(),
        0 <= j < s.len(),
    ensures
        swapped(s, i, j).to_multiset() == s.to_multiset(),
{
    broadcast use group_to_multiset_ensures;
    broadcast use vstd::multiset::group_multiset_axioms;

    let t = s.update(i, s[j]);
    assert(swapped(s, i, j) == t.update(j, s[i]));
    assert(swapped(s, i, j).to_multiset() =~= s.to_multiset());
}

/// In a heap-ordered sequence the root may stand above every entry.
pub proof fn lemma_root_is_cheapest(s: Seq<HeapState>, i: int)
    requires
        heap_ordered(s),
        0 <= i < s.len(),
    ensures
        may_top(s[0], s[i]),
    decreases i,
{
    if i > 0 {
        lemma_root_is_cheapest(s, parent(i));
    }
}

/// A priority queue of entries, kept as a binary heap with a cheapest entry at the
/// root. Its view is the multiset of the entries it holds.
pub struct Heap {
    /// The entries, the children of slot `i` being in slots `2 * i + 1` and `2 * i + 2`.
    pub data: Vec<HeapState>,
}

impl View for Heap {
    type V = Multiset<HeapState>;

    open spec fn view(&self) -> Multiset<HeapState> {
        self.data@.to_multiset()
    }
}

impl Heap {
    /// The heap order holds between every slot and its parent.
    pub open spec fn wf(&self) -> bool {
        heap_ordered(self.data@)
    }

    /// An empty queue.
    pub fn new() -> (h: Heap)
        ensures
            h.wf(),
            h@ == Multiset::<HeapState>::empty(),
            h.data@.len() == 0,
    {
        let h = Heap { data: Vec::new() };
        proof {
            broadcast use group_to_multiset_ensures;

        }
        h
    }

    /// The number of entries in the queue.
    pub fn len(&self) -> (n: usize)
        ensures
            n == self@.len(),
    {
        proof {
            broadcast use group_to_multiset_ensures;

        }
        self.data.len()
    }

    /// Whether the queue holds no entry.
    pub fn is_empty(&self) -> (b: bool)
        ensures
            b == (self@.len() == 0),
    {
        proof {
            broadcast use group_to_multiset_ensures;

        }
        self.data.len() == 0
    }

    /// Exchanges the entries of two slots.
    fn swap(&mut self, i: usize, j: usize)
        requires
            i < old(self).data@.len(),
            j < old(self).data@.len(),
        ensures
            final(self).data@ == swapped(old(self).data@, i as int, j as int),
            final(self)@ == old(self)@,
    {
        proof {
            lemma_swap_keeps_entries(self.data@, i as int, j as int);
        }
        let a = self.data[i];
        let b = self.data[j];
        self.data[i] = b;
        self.data[j] = a;
    }

    /// Adds an entry to the queue.
    pub fn push(&mut self, e: HeapState)
        requires
            old(self).wf(),
        ensures
            final(self).wf(),
            final(self)@ == old(self)@.insert(e),
    {
        proof {
            broadcast use group_to_multiset_ensures;

        }
        self.data.push(e);
        let mut k: usize = self.data.len() - 1;
        while k > 0
            invariant
                k < self.data@.len(),
                self@ == old(self)@.insert(e),
                ordered_but_above(self.data@, k as int),
            ensures
                heap_ordered(self.data@),
            decreases k,
        {
            let up: usize = (k - 1) / 2;
            if self.data[k] > self.data[up] {
                self.swap(k, up);
                k = up;
            } else {
                break ;
            }
        }
    }

    /// Takes a cheapest entry out of the queue, if it holds any.
    pub fn pop(&mut self) -> (r: Option<HeapState>)
        requires
            old(self).wf(),
        ensures
            final(self).wf(),
            match r {
                Some(e) => {
                    &&& old(self)@.count(e) > 0
                    &&& final(self)@ == old(self)@.remove(e)
                    &&& forall|x: HeapState| old(self)@.count(x) > 0 ==> e.c.at_most(x.c)
                },
                None => old(self)@.len() == 0 && final(self)@ == old(self)@,
            },
    {
        proof {
            broadcast use group_to_multiset_ensures;

        }
        let n: usize = self.data.len();
        if n == 0 {
            return None;
        }
        let top = self.data[0];
        proof {
            assert forall|x: HeapState| self@.count(x) > 0 implies top.c.at_most(x.c) by {
                let i = choose|i: int| 0 <= i < self.data@.len() && self.data@[i] == x;
                lemma_root_is_cheapest(self.data@, i);
            }
        }
        self.swap(0, n - 1);
        let ghost mid = self.data@;
        self.data.pop();
        proof {
            assert(self.data@ =~= mid.remove(n - 1));
        }
        let m: usize = n - 1;
        let mut k: usize = 0;
        while m >= 2 && k <= (m - 2) / 2
            invariant
                m == self.data@.len(),
                k < m || m == 0,
                self@ == old(self)@.remove(top),
                ordered_but_below(self.data@, k as int),
            ensures
                heap_ordered(self.data@),
            decreases m - k,
        {
            let left: usize = 2 * k + 1;
            let right: usize = left + 1;
            let mut least: usize = left;
            if right < m && self.data[right] > self.data[left] {
                least = right;
            }
            if self.data[least] > self.data[k] {
                self.swap(least, k);
                k = least;
            } else {
                break ;
            }
        }
        Some(top)
    }
}

} // verus!
