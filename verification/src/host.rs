//! Model of the host tree adapter: the live, externally rendered tree
//! under one parent element.
//!
//! The adapter is an external collaborator; the reconciler only ever reads
//! sibling order and inserts or removes children under a single parent.
//! It is therefore modelled as the parent's ordered child list, with host
//! nodes represented by identifiers.  A node identifier that is not in the
//! child list stands for a detached node.

use vstd::prelude::*;
use vstd::set_lib::lemma_int_range;
use vstd::set_lib::lemma_len_subset;
use vstd::set_lib::set_int_range;

verus! {

/// If a sequence of distinct identifiers contains every value up to `k`,
/// it must have more than `k` entries.
proof fn lemma_pigeonhole(s: Seq<u64>, k: u64)
    requires
        s.no_duplicates(),
        forall|m: u64| m <= k ==> s.contains(m),
    ensures
        s.len() >= k + 1,
{
    let t = s.map_values(|x: u64| x as int);
    assert(t.no_duplicates()) by {
        assert forall|i: int, j: int|
            0 <= i < t.len() && 0 <= j < t.len() && i != j implies t[i] != t[j] by {
            assert(s[i] != s[j]);
        }
    }
    assert forall|m: int| set_int_range(0, k + 1).contains(m) implies t.to_set().contains(m) by {
        assert(s.contains(m as u64));
        let w = choose|w: int| 0 <= w < s.len() && s[w] == m as u64;
        assert(t[w] == m);
        assert(t.contains(m));
    }
    lemma_int_range(0, k + 1);
    t.unique_seq_to_set();
    lemma_len_subset(set_int_range(0, k + 1), t.to_set());
}

/// Whether a vector of identifiers contains `x`.
pub fn contains_id(ids: &Vec<u64>, x: u64) -> (r: bool)
    ensures
        r == ids@.contains(x),
{
    let mut i: usize = 0;
    while i < ids.len()
        invariant
            i <= ids@.len(),
            forall|j: int| 0 <= j < i ==> ids@[j] != x,
        decreases ids@.len() - i,
    {
        if ids[i] == x {
            return true;
        }
        i = i + 1;
    }
    false
}

/// The smallest identifier that does not occur in `ids`; used to model
/// the allocation of a fresh host node or component instance.
pub fn lowest_absent(ids: &Vec<u64>) -> (n: u64)
    requires
        ids@.no_duplicates(),
    ensures
        !ids@.contains(n),
{
    let len = ids.len();
    let mut cand: u64 = 0;
    loop
        invariant
            ids@.no_duplicates(),
            len == ids@.len(),
            cand <= len,
            forall|m: u64| m < cand ==> ids@.contains(m),
        decreases len - cand,
    {
        if !contains_id(ids, cand) {
            return cand;
        }
        proof {
            assert(forall|m: u64| m <= cand ==> ids@.contains(m));
            lemma_pigeonhole(ids@, cand);
        }
        cand = cand + 1;
    }
}

/// The parent element of the host tree, holding its ordered children.
pub struct HostTree {
    /// The ordered child list of the parent, as node identifiers.
    pub children: Vec<u64>,
}

impl HostTree {
    /// The ordered child identifiers.
    pub open spec fn order(self) -> Seq<u64> {
        self.children@
    }

    /// Children are distinct host nodes.
    pub open spec fn wf(self) -> bool {
        self.children@.no_duplicates()
    }

    /// A parent with no children yet.
    pub fn new() -> (t: Self)
        ensures
            t.wf(),
            t.order() == Seq::<u64>::empty(),
    {
        HostTree { children: Vec::new() }
    }

    /// Whether `node` is attached under this parent.
    pub fn contains(&self, node: u64) -> (r: bool)
        ensures
            r == self.order().contains(node),
    {
        contains_id(&self.children, node)
    }

    /// The index of an attached node in the child list.
    fn index_of(&self, node: u64) -> (i: usize)
        requires
            self.order().contains(node),
        ensures
            i < self.order().len(),
            self.order()[i as int] == node,
    {
        let mut i: usize = 0;
        while i < self.children.len()
            invariant
                i <= self.order().len(),
                self.order().contains(node),
                forall|j: int| 0 <= j < i ==> self.order()[j] != node,
            decreases self.order().len() - i,
        {
            if self.children[i] == node {
                return i;
            }
            i = i + 1;
        }
        proof {
            let w = choose|w: int| 0 <= w < self.order().len() && self.order()[w] == node;
            assert(false);
        }
        0
    }

    /// Models `createEmptyTextNode`: a fresh, detached host node.
    pub fn create_text_node(&self) -> (n: u64)
        requires
            self.wf(),
        ensures
            !self.order().contains(n),
    {
        lowest_absent(&self.children)
    }

    /// Models `insertBefore`: attach `node` directly before `sibling`.
    pub fn insert_before(&mut self, node: u64, sibling: u64)
        requires
            old(self).wf(),
            !old(self).order().contains(node),
            old(self).order().contains(sibling),
        ensures
            final(self).wf(),
            exists|i: int|
                0 <= i < old(self).order().len() && old(self).order()[i] == sibling
                    && final(self).order() == old(self).order().insert(i, node),
            final(self).order().len() == old(self).order().len() + 1,
            final(self).order().contains(node),
            forall|x: u64| old(self).order().contains(x) ==> final(self).order().contains(x),
            forall|x: u64|
                final(self).order().contains(x) ==> x == node || old(self).order().contains(x),
    {
        let i = self.index_of(sibling);
        let ghost pre = self.children@;
        self.children.insert(i, node);
        proof {
            assert(self.order() == pre.insert(i as int, node));
            assert(self.order()[i as int] == node);
            assert(self.order().contains(node));
            lemma_insert_keeps_distinct(pre, i as int, node);
            assert forall|x: u64| self.order().contains(x) implies x == node || pre.contains(x) by {
                let w = choose|w: int| 0 <= w < self.order().len() && self.order()[w] == x;
                if w < i {
                    assert(pre[w] == x);
                } else if w > i {
                    assert(pre[w - 1] == x);
                }
            }
            assert forall|x: u64| pre.contains(x) implies self.order().contains(x) by {
                let w = choose|w: int| 0 <= w < pre.len() && pre[w] == x;
                if w < i {
                    assert(self.order()[w] == x);
                } else {
                    assert(self.order()[w + 1] == x);
                }
            }
        }
    }

    /// Models `appendChild`: attach `node` as the last child.
    pub fn append_child(&mut self, node: u64)
        requires
            old(self).wf(),
            !old(self).order().contains(node),
        ensures
            final(self).wf(),
            final(self).order() == old(self).order().push(node),
            final(self).order().contains(node),
            forall|x: u64| old(self).order().contains(x) ==> final(self).order().contains(x),
            forall|x: u64|
                final(self).order().contains(x) ==> x == node || old(self).order().contains(x),
    {
        let ghost pre = self.children@;
        self.children.push(node);
        proof {
            assert(self.order() == pre.push(node));
            assert(self.order()[pre.len() as int] == node);
            assert(self.order().contains(node));
            assert forall|x: u64| self.order().contains(x) implies x == node || pre.contains(x) by {
                let w = choose|w: int| 0 <= w < self.order().len() && self.order()[w] == x;
                if w < pre.len() {
                    assert(pre[w] == x);
                }
            }
            assert forall|x: u64| pre.contains(x) implies self.order().contains(x) by {
                let w = choose|w: int| 0 <= w < pre.len() && pre[w] == x;
                assert(self.order()[w] == x);
            }
            assert(self.order().no_duplicates());
        }
    }

    /// Models `removeChild`: detach an attached node.  Removing a node
    /// that is not attached is a programming error and is excluded by the
    /// precondition.
    pub fn remove_child(&mut self, node: u64)
        requires
            old(self).wf(),
            old(self).order().contains(node),
        ensures
            final(self).wf(),
            exists|i: int|
                0 <= i < old(self).order().len() && old(self).order()[i] == node
                    && final(self).order() == old(self).order().remove(i),
            final(self).order().len() == old(self).order().len() - 1,
            !final(self).order().contains(node),
            forall|x: u64|
                old(self).order().contains(x) && x != node ==> final(self).order().contains(x),
            forall|x: u64| final(self).order().contains(x) ==> old(self).order().contains(x),
    {
        let i = self.index_of(node);
        let ghost pre = self.children@;
        self.children.remove(i);
        proof {
            assert(self.order() == pre.remove(i as int));
            lemma_remove_keeps_distinct(pre, i as int);
            assert forall|x: u64| self.order().contains(x) implies pre.contains(x) by {
                let w = choose|w: int| 0 <= w < self.order().len() && self.order()[w] == x;
                if w < i {
                    assert(pre[w] == x);
                } else {
                    assert(pre[w + 1] == x);
                }
            }
            assert(!self.order().contains(node)) by {
                if self.order().contains(node) {
                    let w = choose|w: int|
                        0 <= w < self.order().len() && self.order()[w] == node;
                    if w < i {
                        assert(pre[w] == node && pre[i as int] == node);
                    } else {
                        assert(pre[w + 1] == node && pre[i as int] == node);
                    }
                }
            }
            assert forall|x: u64| pre.contains(x) && x != node implies self.order().contains(
                x,
            ) by {
                let w = choose|w: int| 0 <= w < pre.len() && pre[w] == x;
                if w < i {
                    assert(self.order()[w] == x);
                } else {
                    assert(self.order()[w - 1] == x);
                }
            }
        }
    }

    /// Models `nextSibling`: the child directly after an attached node,
    /// if any.
    pub fn next_sibling(&self, node: u64) -> (r: Option<u64>)
        requires
            self.wf(),
            self.order().contains(node),
        ensures
            exists|i: int|
                0 <= i < self.order().len() && #[trigger] self.order()[i] == node && r == (if i + 1
                    < self.order().len() {
                    Some(self.order()[i + 1])
                } else {
                    None
                }),
            r matches Some(k) ==> self.order().contains(k),
    {
        let i = self.index_of(node);
        let len = self.children.len();
        if i < len - 1 {
            Some(self.children[i + 1])
        } else {
            None
        }
    }
}

/// Inserting a fresh element keeps a distinct sequence distinct.
proof fn lemma_insert_keeps_distinct(s: Seq<u64>, i: int, x: u64)
    requires
        s.no_duplicates(),
        !s.contains(x),
        0 <= i <= s.len(),
    ensures
        s.insert(i, x).no_duplicates(),
{
    let t = s.insert(i, x);
    assert forall|p: int, q: int|
        0 <= p < t.len() && 0 <= q < t.len() && p != q implies t[p] != t[q] by {
        if t[p] == x && p != i {
            assert(s[if p < i { p } else { p - 1 }] == x);
        }
        if t[q] == x && q != i {
            assert(s[if q < i { q } else { q - 1 }] == x);
        }
        if p != i && q != i {
            let sp = if p < i { p } else { p - 1 };
            let sq = if q < i { q } else { q - 1 };
            assert(t[p] == s[sp] && t[q] == s[sq]);
        }
    }
}

/// Removing an element keeps a distinct sequence distinct.
pub proof fn lemma_remove_keeps_distinct(s: Seq<u64>, i: int)
    requires
        s.no_duplicates(),
        0 <= i < s.len(),
    ensures
        s.remove(i).no_duplicates(),
{
    let t = s.remove(i);
    assert forall|p: int, q: int|
        0 <= p < t.len() && 0 <= q < t.len() && p != q implies t[p] != t[q] by {
        let sp = if p < i { p } else { p + 1 };
        let sq = if q < i { q } else { q + 1 };
        assert(t[p] == s[sp] && t[q] == s[sq]);
    }
}

} // verus!
