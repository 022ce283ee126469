use vstd::prelude::*;
use crate::model::{ContextEntry, DwarfUnits, Entry};

verus! {

/// The first index at or after `k` whose entry is at depth `d` or less, or
/// the end of the unit: where the subtree that precedes `k` ends.
pub open spec fn subtree_end(es: Seq<Entry>, d: nat, k: int) -> int
    decreases es.len() - k,
{
    if k >= es.len() || es[k].depth <= d {
        k
    } else {
        subtree_end(es, d, k + 1)
    }
}

/// The first child of entry `i`: the next entry, when it is one level deeper.
pub open spec fn first_child(es: Seq<Entry>, i: int) -> Option<int> {
    if i + 1 < es.len() && es[i + 1].depth == es[i].depth + 1 {
        Some(i + 1)
    } else {
        None
    }
}

/// The next sibling of entry `j`: the entry after its subtree, when it is
/// at the same depth.
pub open spec fn next_sibling(es: Seq<Entry>, j: int) -> Option<int> {
    let k = subtree_end(es, es[j].depth as nat, j + 1);
    if k < es.len() && es[k].depth == es[j].depth {
        Some(k)
    } else {
        None
    }
}

/// Entry `j` and the siblings that follow it.
pub open spec fn siblings_from(es: Seq<Entry>, j: int) -> Seq<int>
    decreases es.len() - j,
{
    if j < 0 || j >= es.len() {
        Seq::empty()
    } else {
        match next_sibling(es, j) {
            Some(k) => if k > j {
                seq![j] + siblings_from(es, k)
            } else {
                seq![j]
            },
            None => seq![j],
        }
    }
}

/// The direct children of entry `i`, in document order.
pub open spec fn children(es: Seq<Entry>, i: int) -> Seq<int> {
    match first_child(es, i) {
        Some(j) => siblings_from(es, j),
        None => Seq::empty(),
    }
}

/// The children of `c` as handles in the same unit.
pub open spec fn child_entries(du: &DwarfUnits, c: ContextEntry) -> Seq<ContextEntry> {
    children(du.entries(c.unit as int), c.index as int).map_values(
        |j: int| ContextEntry { unit: c.unit, index: j as usize },
    )
}

pub proof fn lemma_subtree_end_after(es: Seq<Entry>, d: nat, k: int)
    requires
        0 <= k <= es.len(),
    ensures
        k <= subtree_end(es, d, k) <= es.len(),
    decreases es.len() - k,
{
    if k < es.len() && es[k].depth > d {
        lemma_subtree_end_after(es, d, k + 1);
    }
}

pub proof fn lemma_siblings_in_range(es: Seq<Entry>, j: int)
    ensures
        forall|x: int| #[trigger] siblings_from(es, j).contains(x) ==> j <= x < es.len(),
    decreases es.len() - j,
{
    if 0 <= j < es.len() {
        match next_sibling(es, j) {
            Some(k) => if k > j {
                lemma_siblings_in_range(es, k);
                assert forall|x: int| #[trigger] siblings_from(es, j).contains(x) implies j <= x
                    < es.len() by {
                    let s = seq![j] + siblings_from(es, k);
                    if x != j {
                        let n = choose|n: int| 0 <= n < s.len() && s[n] == x;
                        assert(siblings_from(es, k)[n - 1] == x);
                        assert(siblings_from(es, k).contains(x));
                    }
                }
            },
            None => {},
        }
    }
}

/// Every child of an existing entry exists.
pub proof fn lemma_children_valid(du: &DwarfUnits, c: ContextEntry)
    requires
        du.valid(c),
    ensures
        forall|n: int|
            0 <= n < child_entries(du, c).len() ==> du.valid(#[trigger] child_entries(du, c)[n]),
{
    let es = du.entries(c.unit as int);
    let ks = children(es, c.index as int);
    assert forall|n: int| 0 <= n < child_entries(du, c).len() implies du.valid(
        #[trigger] child_entries(du, c)[n],
    ) by {
        if let Some(j) = first_child(es, c.index as int) {
            lemma_siblings_in_range(es, j);
            assert(ks.contains(ks[n]));
        }
    }
}

/// The index of the entry after the subtree of entry `j` at depth `d`.
fn skip_subtree(es: &Vec<Entry>, d: usize, j: usize) -> (r: usize)
    requires
        j < es@.len(),
    ensures
        r as int == subtree_end(es@, d as nat, j + 1),
{
    let n = es.len();
    let mut k: usize = j + 1;
    while k < n && es[k].depth > d
        invariant
            n == es@.len(),
            j + 1 <= k <= es@.len(),
            subtree_end(es@, d as nat, j + 1) == subtree_end(es@, d as nat, k as int),
        decreases es@.len() - k,
    {
        k = k + 1;
    }
    k
}

/// Iterates over the direct children of one entry, as a DWARF cursor does:
/// one depth-first step down to the first child, then sibling steps that
/// skip each child's own subtree.
pub struct EntryChildrenIterator {
    unit: usize,
    parent: usize,
    current: Option<usize>,
    is_first: bool,
}

impl EntryChildrenIterator {
    /// The children that are still to come.
    pub closed spec fn remaining(&self, du: &DwarfUnits) -> Seq<ContextEntry> {
        let es = du.entries(self.unit as int);
        let ks = if self.is_first {
            children(es, self.parent as int)
        } else {
            match self.current {
                Some(j) => siblings_from(es, j as int).drop_first(),
                None => Seq::empty(),
            }
        };
        ks.map_values(|j: int| ContextEntry { unit: self.unit, index: j as usize })
    }

    pub closed spec fn wf(&self, du: &DwarfUnits) -> bool {
        &&& self.unit < du.units_seq().len()
        &&& self.is_first ==> self.parent < du.entries(self.unit as int).len()
        &&& !self.is_first ==> match self.current {
            Some(j) => j < du.entries(self.unit as int).len(),
            None => true,
        }
    }

    /// Starts on the entry `c`.
    pub fn new(du: &DwarfUnits, c: ContextEntry) -> (r: Self)
        requires
            du.valid(c),
        ensures
            r.wf(du),
            r.remaining(du) == child_entries(du, c),
    {
        EntryChildrenIterator { unit: c.unit, parent: c.index, current: None, is_first: true }
    }

    /// The next child, if any.
    pub fn next(&mut self, du: &DwarfUnits) -> (r: Option<ContextEntry>)
        requires
            old(self).wf(du),
        ensures
            final(self).wf(du),
            old(self).remaining(du).len() == 0 ==> r is None && final(self).remaining(du).len()
                == 0,
            old(self).remaining(du).len() > 0 ==> r == Some(old(self).remaining(du)[0])
                && final(self).remaining(du) == old(self).remaining(du).drop_first(),
    {
        let ghost es = du.entries(self.unit as int);
        let es_ref = &du.unit(self.unit).entries;
        if self.is_first {
            self.is_first = false;
            let p = self.parent;
            let n = es_ref.len();
            if p + 1 < n && es_ref[p + 1].depth > 0 && es_ref[p + 1].depth - 1
                == es_ref[p].depth {
                self.current = Some(p + 1);
                proof {
                    lemma_subtree_end_after(es, es[p + 1].depth as nat, p + 2);
                    assert(children(es, p as int) == siblings_from(es, p + 1));
                    assert(siblings_from(es, p + 1)[0] == p + 1);
                    assert(old(self).remaining(du).drop_first() =~= self.remaining(du));
                }
                Some(ContextEntry { unit: self.unit, index: p + 1 })
            } else {
                self.current = None;
                None
            }
        } else {
            match self.current {
                None => None,
                Some(j) => {
                    let d = es_ref[j].depth;
                    let k = skip_subtree(es_ref, d, j);
                    proof {
                        lemma_subtree_end_after(es, d as nat, j + 1);
                    }
                    if k < es_ref.len() && es_ref[k].depth == d {
                        self.current = Some(k);
                        proof {
                            assert(siblings_from(es, j as int).drop_first() =~= siblings_from(
                                es,
                                k as int,
                            ));
                            lemma_subtree_end_after(es, es[k as int].depth as nat, k + 1);
                            assert(old(self).remaining(du).drop_first() =~= self.remaining(du));
                        }
                        Some(ContextEntry { unit: self.unit, index: k })
                    } else {
                        self.current = None;
                        proof {
                            assert(siblings_from(es, j as int) =~= seq![j as int]);
                            assert(old(self).remaining(du) =~= Seq::empty());
                        }
                        None
                    }
                },
            }
        }
    }
}

impl ContextEntry {
    /// The direct children of this entry, in document order.
    pub fn iter_children(&self, du: &DwarfUnits) -> (r: Vec<ContextEntry>)
        requires
            du.valid(*self),
        ensures
            r@ == child_entries(du, *self),
    {
        let mut it = EntryChildrenIterator::new(du, *self);
        let mut r: Vec<ContextEntry> = Vec::new();
        loop
            invariant
                it.wf(du),
                r@ + it.remaining(du) == child_entries(du, *self),
            ensures
                r@ == child_entries(du, *self),
            decreases it.remaining(du).len(),
        {
            match it.next(du) {
                Some(e) => {
                    r.push(e);
                    assert(r@ + it.remaining(du) =~= child_entries(du, *self));
                },
                None => {
                    assert(r@ =~= child_entries(du, *self));
                    break;
                },
            }
        }
        r
    }
}

/// The top-level entries of unit `u`: the children of its root entry.
pub open spec fn top_level(du: &DwarfUnits, u: int) -> Seq<ContextEntry> {
    if du.entries(u).len() > 0 {
        child_entries(du, ContextEntry { unit: u as usize, index: 0 })
    } else {
        Seq::empty()
    }
}

impl DwarfUnits {
    /// The top-level entries of unit `u`, in document order; the unit must
    /// have its root entry.
    pub fn iter_top_level(&self, u: usize) -> (r: Vec<ContextEntry>)
        requires
            u < self.units_seq().len(),
            self.entries(u as int).len() > 0,
        ensures
            r@ == top_level(self, u as int),
            forall|i: int| 0 <= i < r@.len() ==> self.valid(#[trigger] r@[i]),
    {
        let root = ContextEntry { unit: u, index: 0 };
        proof {
            lemma_children_valid(self, root);
        }
        root.iter_children(self)
    }
}

} // verus!
