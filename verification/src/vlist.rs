//! The list node: an ordered fragment of virtual nodes, reconciled purely
//! by position.
//!
//! Matching is index-for-index; there is no keyed path, so reordering
//! logically identical children is indistinguishable from replacing them
//! all and repaints every shifted position.  That is an inherited,
//! documented limitation, not a bug.

use vstd::prelude::*;
use crate::host::HostTree;
use crate::runtime::{Instance, Runtime};
use crate::scope::Scope;
use crate::vcomp::{anc_payload, comp_apply_spec, reuses, MountState, VComp};
use crate::vnode::{
    anc_children, anc_insts, anc_len, anc_nodes, apply_post, apply_pre, detach_post, detach_pre,
    fresh_node, fresh_seq, has_list,
    insts_of, insts_of_seq, lemma_concat_mem, lemma_concat_no_dup, lemma_insts_seq_mem,
    lemma_insts_seq_push, lemma_nodes_seq_mem, lemma_nodes_seq_push, lemma_wf_seq_push, node_wf,
    node_wf_seq, nodes_of, nodes_of_seq, same_kind, unapplied, VNode, VText,
};

verus! {

/// This struct represents a fragment of the virtual tree.
pub struct VList {
    /// Whether the fragment can never stand next to siblings (in which
    /// case an empty fragment needs no stabilizing placeholder).
    pub no_siblings: bool,
    /// The list of children nodes, which may have children of their own.
    pub children: Vec<VNode>,
}

/// How many children the fragment has once the empty-and-siblings case has
/// materialized its stabilizing placeholder.
pub open spec fn effective_len(l: VList) -> nat {
    if l.children@.len() == 0 && !l.no_siblings {
        1nat
    } else {
        l.children@.len()
    }
}

/// The children the fragment diffs, once the empty-and-siblings case has
/// materialized its stabilizing placeholder.
pub open spec fn effective_children(l: VList) -> Seq<VNode> {
    if l.children@.len() == 0 && !l.no_siblings {
        seq![VNode::Text(VText { node: None })]
    } else {
        l.children@
    }
}

/// What a list node's `apply` guarantees beyond the common contract:
/// position-for-position, each new child is applied (a text child ends
/// holding one host node; a component child of a fresh list ends mounted
/// with its holder populated; a component child standing over a same-kind
/// mounted old child reuses that child's payload); the returned splice
/// point is the last applied child's node (or the incoming anchor when
/// there is nothing to apply); and, when no new child is itself a list,
/// the per-position delegation counts and lifecycle bounds are exact.
pub open spec fn list_apply_spec(
    l: VList,
    ancestor: Option<VNode>,
    prev: Option<u64>,
    rt0: Runtime,
    rt1: Runtime,
    res: VList,
    ret: Option<u64>,
) -> bool {
    &&& res.no_siblings == l.no_siblings
    &&& res.children@.len() == effective_len(l)
    &&& (l.children@.len() == 0 && !l.no_siblings) ==> res.children@[0] is Text && nodes_of(
        VNode::List(res),
    ).len() == 1
    &&& forall|i: int|
        0 <= i < res.children@.len() ==> same_kind(
            #[trigger] res.children@[i],
            effective_children(l)[i],
        )
    &&& forall|i: int|
        0 <= i < res.children@.len() && effective_children(l)[i] is Text ==> nodes_of(
            #[trigger] res.children@[i],
        ).len() == 1
    &&& fresh_node(VNode::List(l)) ==> forall|i: int|
        0 <= i < res.children@.len() && effective_children(l)[i] is Comp ==> ((
        #[trigger] res.children@[i]) matches VNode::Comp(c2) && c2.state is Mounted
            && c2.scope_holder.populated())
    &&& fresh_node(VNode::List(l)) ==> forall|i: int|
        0 <= i < res.children@.len() && i < anc_children(ancestor).len() && (match (
        effective_children(l)[i],
        res.children@[i],
    ) {
            (VNode::Comp(c), _) => reuses(c, Some(anc_children(ancestor)[i])),
            _ => false,
        }) ==> ((#[trigger] res.children@[i]) matches VNode::Comp(c2)
            && c2.state matches MountState::Mounted(m2) && m2.instance == anc_payload(
            Some(anc_children(ancestor)[i]),
        ).instance && m2.node_ref == anc_payload(Some(anc_children(ancestor)[i])).node_ref)
    &&& effective_len(l) == 0 ==> ret == prev
    &&& (fresh_node(VNode::List(l)) && !has_list(l.children@) && effective_len(l) > 0) ==> (
    ret is Some && nodes_of(res.children@[res.children@.len() - 1]) == seq![ret.unwrap()])
    &&& !has_list(l.children@) ==> {
        let m = effective_len(l) as int;
        let n = anc_len(ancestor) as int;
        let c = vstd::math::min(m, n);
        &&& rt1.paired_applies@ == rt0.paired_applies@ + c
        &&& rt1.insert_applies@ == rt0.insert_applies@ + (m - c)
        &&& rt1.surplus_detaches@ == rt0.surplus_detaches@ + (n - c)
    }
    &&& !has_list(l.children@) ==> rt1.destroyed@ <= rt0.destroyed@ + anc_insts(ancestor).len()
        && rt1.created@ <= rt0.created@ + effective_len(l)
}

impl VList {
    /// Creates a new empty `VList` instance.
    pub fn new(no_siblings: bool) -> (l: Self)
        ensures
            l.no_siblings == no_siblings,
            l.children@ == Seq::<VNode>::empty(),
    {
        VList { no_siblings, children: Vec::new() }
    }

    /// Add a `VNode` child.
    pub fn add_child(&mut self, child: VNode)
        ensures
            final(self).children@ == old(self).children@.push(child),
            final(self).no_siblings == old(self).no_siblings,
    {
        self.children.push(child);
    }

    /// Apply the fragment over its ancestor: diff the new children against
    /// the ancestor's children pairwise by position, applying, inserting
    /// or detaching per position, and return the last splice point.
    ///
    /// An empty fragment that may have siblings first materializes one
    /// empty text node, so that a later non-empty render cannot shift
    /// position relative to siblings.
    #[verifier::loop_isolation(false)]
    #[verifier::rlimit(100)]
    pub fn apply(
        self,
        tree: &mut HostTree,
        rt: &mut Runtime,
        previous_sibling: Option<u64>,
        ancestor: Option<VNode>,
        parent_scope: &Scope,
    ) -> (r: (VList, Option<u64>))
        requires
            apply_pre(VNode::List(self), *old(tree), *old(rt), previous_sibling, ancestor),
        ensures
            apply_post(
                VNode::List(self),
                ancestor,
                previous_sibling,
                *old(tree),
                *old(rt),
                *final(tree),
                *final(rt),
                VNode::List(r.0),
                r.1,
            ),
            list_apply_spec(
                self,
                ancestor,
                previous_sibling,
                *old(rt),
                *final(rt),
                r.0,
                r.1,
            ),
        decreases self, 1int,
    {
        let ghost g_self = self;
        let ghost fresh = fresh_node(VNode::List(self));
        let ghost t0 = *tree;
        let ghost r0 = *rt;
        let ghost g_anc = ancestor;
        let VList { no_siblings, children } = self;
        let mut lefts = children;
        if lefts.len() == 0 && !no_siblings {
            lefts.push(VNode::Text(VText::new()));
        }
        let ghost orig_l = lefts@;
        let mut rights: Vec<VNode> = Vec::new();
        match ancestor {
            Some(VNode::List(vl)) => {
                let VList { no_siblings: _, children: rc } = vl;
                rights = rc;
            },
            Some(other) => {
                rights.push(other);
            },
            None => {},
        }
        let ghost orig_r = rights@;
        proof {
            // The ancestor's occupied nodes and instances are exactly those
            // of the old child sequence.
            match g_anc {
                Some(VNode::List(vl)) => {
                    assert(anc_nodes(g_anc) == nodes_of_seq(orig_r, 0));
                    assert(anc_insts(g_anc) == insts_of_seq(orig_r, 0));
                },
                Some(other) => {
                    assert(orig_r.len() == 1 && orig_r[0] == other);
                    assert(nodes_of_seq(orig_r, 1) == Seq::<u64>::empty());
                    assert(nodes_of_seq(orig_r, 0) == nodes_of(orig_r[0]) + nodes_of_seq(
                        orig_r,
                        1,
                    ));
                    assert(nodes_of_seq(orig_r, 0) =~= nodes_of(other));
                    assert(insts_of_seq(orig_r, 1) == Seq::<u64>::empty());
                    assert(insts_of_seq(orig_r, 0) == insts_of(orig_r[0]) + insts_of_seq(
                        orig_r,
                        1,
                    ));
                    assert(insts_of_seq(orig_r, 0) =~= insts_of(other));
                },
                None => {
                    assert(nodes_of_seq(orig_r, 0) =~= Seq::<u64>::empty());
                    assert(insts_of_seq(orig_r, 0) =~= Seq::<u64>::empty());
                },
            }
            match g_anc {
                Some(VNode::List(vl)) => {
                    assert(node_wf(VNode::List(vl)));
                    assert(node_wf_seq(orig_r, 0));
                },
                Some(other) => {
                    assert(node_wf(other));
                    assert(node_wf_seq(orig_r, 1));
                    assert(node_wf_seq(orig_r, 0));
                },
                None => {
                    assert(node_wf_seq(orig_r, 0));
                },
            }
            assert(anc_nodes(g_anc) =~= nodes_of_seq(orig_r, 0));
            assert(anc_insts(g_anc) =~= insts_of_seq(orig_r, 0));
            assert(orig_r.len() == anc_len(g_anc));
            // The new children are unapplied and well formed, placeholder
            // included.
            if g_self.children@.len() == 0 && !g_self.no_siblings {
                assert(orig_l.len() == 1 && orig_l[0] is Text);
                assert(nodes_of_seq(orig_l, 1) == Seq::<u64>::empty());
                assert(nodes_of_seq(orig_l, 0) =~= nodes_of(orig_l[0]));
                assert(insts_of_seq(orig_l, 1) == Seq::<u64>::empty());
                assert(insts_of_seq(orig_l, 0) =~= insts_of(orig_l[0]));
                assert(node_wf(orig_l[0]));
                assert(node_wf_seq(orig_l, 1));
                assert(node_wf_seq(orig_l, 0));
            } else {
                assert(orig_l == g_self.children@);
            }
            assert(nodes_of_seq(orig_l, 0).len() == 0);
            assert(insts_of_seq(orig_l, 0).len() == 0);
            if fresh {
                if g_self.children@.len() == 0 && !g_self.no_siblings {
                    assert(fresh_node(orig_l[0]));
                    assert(fresh_seq(orig_l, 1));
                    assert(fresh_seq(orig_l, 0));
                } else {
                    assert(fresh_seq(orig_l, 0));
                }
            }
            assert(orig_l =~= effective_children(g_self));
            assert(orig_r =~= anc_children(g_anc));
            assert(!has_list(g_self.children@) ==> !has_list(orig_l)) by {
                if !has_list(g_self.children@) && has_list(orig_l) {
                    let w = choose|w: int| 0 <= w < orig_l.len() && orig_l[w] is List;
                    if g_self.children@.len() == 0 && !g_self.no_siblings {
                        assert(orig_l[w] is Text);
                    } else {
                        assert(g_self.children@[w] is List);
                    }
                }
            }
        }
        let mut new_children: Vec<VNode> = Vec::new();
        let mut prev = previous_sibling;
        while lefts.len() > 0 || rights.len() > 0
            invariant
                tree.wf(),
                rt.wf(),
                // consumption fronts
                lefts@ == orig_l.subrange(orig_l.len() - lefts@.len(), orig_l.len() as int),
                rights@ == orig_r.subrange(orig_r.len() - rights@.len(), orig_r.len() as int),
                lefts@.len() <= orig_l.len(),
                rights@.len() <= orig_r.len(),
                new_children@.len() == orig_l.len() - lefts@.len(),
                // the new suffix is still unapplied and well formed
                node_wf_seq(orig_l, orig_l.len() - lefts@.len()),
                nodes_of_seq(orig_l, orig_l.len() - lefts@.len()).len() == 0,
                insts_of_seq(orig_l, orig_l.len() - lefts@.len()).len() == 0,
                // the old suffix is still well formed, distinct and attached
                node_wf_seq(orig_r, orig_r.len() - rights@.len()),
                nodes_of_seq(orig_r, orig_r.len() - rights@.len()).no_duplicates(),
                insts_of_seq(orig_r, orig_r.len() - rights@.len()).no_duplicates(),
                forall|x: u64|
                    nodes_of_seq(orig_r, orig_r.len() - rights@.len()).contains(x)
                        ==> tree.order().contains(x),
                forall|x: u64|
                    insts_of_seq(orig_r, orig_r.len() - rights@.len()).contains(x)
                        ==> rt.live_ids().contains(x),
                // the applied prefix is well formed, distinct and attached
                node_wf_seq(new_children@, 0),
                nodes_of_seq(new_children@, 0).no_duplicates(),
                insts_of_seq(new_children@, 0).no_duplicates(),
                forall|x: u64| nodes_of_seq(new_children@, 0).contains(x) ==> tree.order().contains(x),
                forall|x: u64| insts_of_seq(new_children@, 0).contains(x) ==> rt.live_ids().contains(x),
                // prefix and old suffix are disjoint
                forall|x: u64|
                    nodes_of_seq(new_children@, 0).contains(x) ==> !nodes_of_seq(
                        orig_r,
                        orig_r.len() - rights@.len(),
                    ).contains(x),
                forall|x: u64|
                    insts_of_seq(new_children@, 0).contains(x) ==> !insts_of_seq(
                        orig_r,
                        orig_r.len() - rights@.len(),
                    ).contains(x),
                // the prefix occupies only fresh or claimed resources
                forall|x: u64|
                    nodes_of_seq(new_children@, 0).contains(x) ==> !t0.order().contains(x)
                        || anc_nodes(g_anc).contains(x),
                forall|x: u64|
                    insts_of_seq(new_children@, 0).contains(x) ==> !r0.live_ids().contains(x)
                        || anc_insts(g_anc).contains(x),
                // frame on the host tree
                forall|x: u64|
                    t0.order().contains(x) && !anc_nodes(g_anc).contains(x) ==> tree.order().contains(
                        x,
                    ),
                forall|x: u64|
                    tree.order().contains(x) ==> t0.order().contains(x) || nodes_of_seq(
                        new_children@,
                        0,
                    ).contains(x),
                // frame on the live instances
                forall|x: Instance|
                    r0.live().contains(x) && !anc_insts(g_anc).contains(x.id) ==> rt.live().contains(
                        x,
                    ),
                forall|x: u64|
                    rt.live_ids().contains(x) ==> r0.live_ids().contains(x) || insts_of_seq(
                        new_children@,
                        0,
                    ).contains(x),
                forall|x: u64|
                    r0.live_ids().contains(x) && !anc_insts(g_anc).contains(x)
                        ==> rt.live_ids().contains(x),
                // a fresh list claims or removes the consumed old children
                fresh ==> fresh_seq(orig_l, orig_l.len() - lefts@.len()),
                fresh ==> forall|x: u64|
                    nodes_of_seq(orig_r, 0).contains(x) && !nodes_of_seq(
                        orig_r,
                        orig_r.len() - rights@.len(),
                    ).contains(x) && !nodes_of_seq(new_children@, 0).contains(x)
                        ==> !tree.order().contains(x),
                fresh ==> forall|x: u64|
                    insts_of_seq(orig_r, 0).contains(x) && !insts_of_seq(
                        orig_r,
                        orig_r.len() - rights@.len(),
                    ).contains(x) && !insts_of_seq(new_children@, 0).contains(x)
                        ==> !rt.live_ids().contains(x),
                // the moving splice point
                prev matches Some(p) ==> tree.order().contains(p) && !nodes_of_seq(
                    orig_r,
                    orig_r.len() - rights@.len(),
                ).contains(p),
                prev matches Some(p) ==> nodes_of_seq(new_children@, 0).contains(p)
                    || previous_sibling == Some(p),
                // positional bookkeeping for the delegation counts
                lefts@.len() > 0 && rights@.len() > 0 ==> orig_l.len() - lefts@.len() == orig_r.len()
                    - rights@.len(),
                rights@.len() == 0 && lefts@.len() > 0 ==> orig_l.len() - lefts@.len()
                    >= orig_r.len(),
                lefts@.len() == 0 && rights@.len() > 0 ==> orig_r.len() - rights@.len()
                    >= orig_l.len(),
                !has_list(orig_l) ==> {
                    let k = orig_l.len() - lefts@.len();
                    let j = orig_r.len() - rights@.len();
                    let c = vstd::math::min(k as int, j as int);
                    &&& rt.paired_applies@ == r0.paired_applies@ + c
                    &&& rt.insert_applies@ == r0.insert_applies@ + (k - c)
                    &&& rt.surplus_detaches@ == r0.surplus_detaches@ + (j - c)
                },
                // per-position outcomes of the applied prefix
                fresh ==> forall|i: int|
                    0 <= i < new_children@.len() && orig_l[i] is Comp ==> ((
                    #[trigger] new_children@[i]) matches VNode::Comp(c2) && c2.state is Mounted
                        && c2.scope_holder.populated()),
                fresh ==> forall|i: int|
                    0 <= i < new_children@.len() && i < orig_r.len() && (match orig_l[i] {
                        VNode::Comp(c) => reuses(c, Some(orig_r[i])),
                        _ => false,
                    }) ==> ((#[trigger] new_children@[i]) matches VNode::Comp(c2)
                        && c2.state matches MountState::Mounted(m2) && m2.instance == anc_payload(
                        Some(orig_r[i]),
                    ).instance && m2.node_ref == anc_payload(Some(orig_r[i])).node_ref),
                // the splice point is the last applied child's node
                orig_l.len() == 0 ==> prev == previous_sibling,
                fresh && !has_list(orig_l) && new_children@.len() > 0 ==> prev is Some
                    && nodes_of(new_children@[new_children@.len() - 1]) == seq![prev.unwrap()],
                // lifecycle bounds for flat lists
                insts_of_seq(orig_r, orig_r.len() - rights@.len()).len() <= insts_of_seq(
                    orig_r,
                    0,
                ).len(),
                !has_list(orig_l) ==> rt.destroyed@ <= r0.destroyed@ + (insts_of_seq(
                    orig_r,
                    0,
                ).len() - insts_of_seq(orig_r, orig_r.len() - rights@.len()).len()),
                !has_list(orig_l) ==> rt.created@ <= r0.created@ + (orig_l.len() - lefts@.len()),
                // the shapes of the applied prefix mirror the new children
                forall|i: int|
                    0 <= i < new_children@.len() ==> same_kind(
                        #[trigger] new_children@[i],
                        orig_l[i],
                    ),
                forall|i: int|
                    0 <= i < new_children@.len() && orig_l[i] is Text ==> nodes_of(
                        #[trigger] new_children@[i],
                    ).len() == 1,
                // constants of the iteration
                orig_l == g_self.children@ || (g_self.children@.len() == 0 && !g_self.no_siblings
                    && orig_l.len() == 1 && orig_l[0] is Text),
                anc_nodes(g_anc) == nodes_of_seq(orig_r, 0),
                anc_insts(g_anc) == insts_of_seq(orig_r, 0),
                orig_r.len() == anc_len(g_anc),
                previous_sibling matches Some(p) ==> t0.order().contains(p) && !anc_nodes(
                    g_anc,
                ).contains(p),
                t0.wf(),
                r0.wf(),
            decreases lefts@.len() + rights@.len(),
        {
            let ghost k = orig_l.len() - lefts@.len();
            let ghost j = orig_r.len() - rights@.len();
            proof {
                lemma_nodes_seq_mem(orig_r, 0);
                lemma_insts_seq_mem(orig_r, 0);
                lemma_nodes_seq_mem(orig_r, j as int);
                lemma_insts_seq_mem(orig_r, j as int);
                lemma_nodes_seq_mem(new_children@, 0);
                lemma_insts_seq_mem(new_children@, 0);
                lemma_nodes_seq_mem(orig_l, k as int);
                lemma_insts_seq_mem(orig_l, k as int);
            }
            if lefts.len() > 0 {
                let left = lefts.remove(0);
                proof {
                    assert(left == orig_l[k as int]);
                    assert(lefts@ =~= orig_l.subrange(k + 1, orig_l.len() as int));
                    // the suffix decomposes into this child and the rest
                    assert(nodes_of_seq(orig_l, k as int) == nodes_of(orig_l[k as int])
                        + nodes_of_seq(orig_l, k + 1));
                    assert(insts_of_seq(orig_l, k as int) == insts_of(orig_l[k as int])
                        + insts_of_seq(orig_l, k + 1));
                    assert(nodes_of(left).len() == 0 && insts_of(left).len() == 0);
                    assert(unapplied(left));
                    assert(node_wf(left));
                }
                let anc_i: Option<VNode> = if rights.len() > 0 {
                    let right = rights.remove(0);
                    proof {
                        assert(right == orig_r[j as int]);
                        assert(rights@ =~= orig_r.subrange(j + 1, orig_r.len() as int));
                        assert(nodes_of_seq(orig_r, j as int) == nodes_of(orig_r[j as int])
                            + nodes_of_seq(orig_r, j + 1));
                        assert(insts_of_seq(orig_r, j as int) == insts_of(orig_r[j as int])
                            + insts_of_seq(orig_r, j + 1));
                        lemma_concat_no_dup(nodes_of(right), nodes_of_seq(orig_r, j + 1));
                        lemma_concat_no_dup(insts_of(right), insts_of_seq(orig_r, j + 1));
                        assert forall|x: u64| nodes_of(right).contains(x) implies tree.order()
                            .contains(x) by {
                            assert(nodes_of_seq(orig_r, j as int).contains(x)) by {
                                let w = choose|w: int|
                                    0 <= w < nodes_of(right).len() && nodes_of(right)[w] == x;
                                assert(nodes_of_seq(orig_r, j as int)[w] == x);
                            }
                        }
                        assert forall|x: u64| insts_of(right).contains(x) implies rt.live_ids()
                            .contains(x) by {
                            assert(insts_of_seq(orig_r, j as int).contains(x)) by {
                                let w = choose|w: int|
                                    0 <= w < insts_of(right).len() && insts_of(right)[w] == x;
                                assert(insts_of_seq(orig_r, j as int)[w] == x);
                            }
                        }
                        rt.paired_applies = Ghost(rt.paired_applies@ + 1);
                    }
                    Some(right)
                } else {
                    proof {
                        rt.insert_applies = Ghost(rt.insert_applies@ + 1);
                    }
                    None
                };
                let ghost tree_b = *tree;
                let ghost rt_b = *rt;
                let (applied, ret): (VNode, Option<u64>) = match left {
                    VNode::Text(t) => {
                        let (t2, rr) = t.apply(tree, rt, prev, anc_i);
                        (VNode::Text(t2), rr)
                    },
                    other => {
                        proof {
                            assert(orig_l == g_self.children@);
                            assert(decreases_to!(g_self => g_self.children));
                            assert(decreases_to!(g_self.children => g_self.children@));
                            assert(decreases_to!(g_self.children@ => g_self.children@[k as int]));
                        }
                        other.apply(tree, rt, prev, anc_i, parent_scope)
                    },
                };
                prev = ret;
                let ghost done_b = new_children@;
                new_children.push(applied);
                proof {
                    lemma_nodes_seq_push(done_b, applied, 0);
                    lemma_insts_seq_push(done_b, applied, 0);
                    lemma_wf_seq_push(done_b, applied, 0);
                    lemma_concat_mem(nodes_of_seq(done_b, 0), nodes_of(applied));
                    lemma_concat_mem(insts_of_seq(done_b, 0), insts_of(applied));
                    if anc_i is Some {
                        lemma_concat_mem(
                            anc_nodes(anc_i),
                            nodes_of_seq(orig_r, j + 1),
                        );
                        lemma_concat_mem(
                            anc_insts(anc_i),
                            insts_of_seq(orig_r, j + 1),
                        );
                    }
                    // already-applied children keep their nodes and instances
                    assert forall|x: u64| nodes_of_seq(done_b, 0).contains(x) implies tree.order()
                        .contains(x) by {
                        assert(tree_b.order().contains(x));
                        assert(!nodes_of_seq(orig_r, j as int).contains(x));
                        assert(!anc_nodes(anc_i).contains(x));
                    }
                    assert forall|x: u64| insts_of_seq(done_b, 0).contains(x) implies rt.live_ids()
                        .contains(x) by {
                        assert(rt_b.live_ids().contains(x));
                        assert(!insts_of_seq(orig_r, j as int).contains(x));
                        assert(!anc_insts(anc_i).contains(x));
                    }
                    lemma_concat_no_dup(nodes_of_seq(done_b, 0), nodes_of(applied));
                    lemma_concat_no_dup(insts_of_seq(done_b, 0), insts_of(applied));
                    lemma_nodes_seq_mem(orig_r, j + 1);
                    lemma_insts_seq_mem(orig_r, j + 1);
                    lemma_nodes_seq_mem(new_children@, 0);
                    lemma_insts_seq_mem(new_children@, 0);
                    // old-suffix membership is monotone in the front index
                    assert forall|x: u64| nodes_of_seq(orig_r, j + 1).contains(x) implies
                        nodes_of_seq(orig_r, j as int).contains(x) by {
                        lemma_nodes_seq_mem(orig_r, j as int);
                    }
                    assert forall|x: u64| insts_of_seq(orig_r, j + 1).contains(x) implies
                        insts_of_seq(orig_r, j as int).contains(x) by {
                        lemma_insts_seq_mem(orig_r, j as int);
                    }
                    // disjointness of the fresh child's resources from the
                    // remaining old suffix
                    assert forall|x: u64| nodes_of(applied).contains(x) implies !nodes_of_seq(
                        orig_r,
                        j + 1,
                    ).contains(x) by {
                        if nodes_of_seq(orig_r, j + 1).contains(x) {
                            assert(tree_b.order().contains(x));
                            assert(anc_nodes(anc_i).contains(x));
                            lemma_concat_no_dup(
                                anc_nodes(anc_i),
                                nodes_of_seq(orig_r, j + 1),
                            );
                        }
                    }
                    assert forall|x: u64| insts_of(applied).contains(x) implies !insts_of_seq(
                        orig_r,
                        j + 1,
                    ).contains(x) by {
                        if insts_of_seq(orig_r, j + 1).contains(x) {
                            assert(rt_b.live_ids().contains(x));
                            assert(anc_insts(anc_i).contains(x));
                            lemma_concat_no_dup(
                                anc_insts(anc_i),
                                insts_of_seq(orig_r, j + 1),
                            );
                        }
                    }
                    // provenance of the fresh child's resources
                    assert forall|x: u64| nodes_of(applied).contains(x) implies !t0.order()
                        .contains(x) || anc_nodes(g_anc).contains(x) by {
                        if t0.order().contains(x) && !anc_nodes(g_anc).contains(x) {
                            assert(tree_b.order().contains(x));
                            assert(anc_nodes(anc_i).contains(x));
                            lemma_nodes_seq_mem(orig_r, j as int);
                        }
                    }
                    assert forall|x: u64| insts_of(applied).contains(x) implies !r0.live_ids()
                        .contains(x) || anc_insts(g_anc).contains(x) by {
                        if r0.live_ids().contains(x) && !anc_insts(g_anc).contains(x) {
                            assert(rt_b.live_ids().contains(x));
                            assert(anc_insts(anc_i).contains(x));
                            lemma_insts_seq_mem(orig_r, j as int);
                        }
                    }
                    // a fresh list claims or removes each consumed old child
                    if fresh {
                        assert(fresh_seq(orig_l, k as int));
                        assert(fresh_node(left));
                        assert(fresh_seq(orig_l, k + 1));
                        let j2 = orig_r.len() - rights@.len();
                        assert forall|x: u64|
                            nodes_of_seq(orig_r, 0).contains(x) && !nodes_of_seq(
                                orig_r,
                                j2 as int,
                            ).contains(x) && !nodes_of_seq(new_children@, 0).contains(x) implies
                            !tree.order().contains(x) by {
                            assert(!nodes_of_seq(done_b, 0).contains(x));
                            assert(!nodes_of(applied).contains(x));
                            if !nodes_of_seq(orig_r, j as int).contains(x) {
                                assert(!tree_b.order().contains(x));
                            } else {
                                assert(anc_nodes(anc_i).contains(x));
                            }
                        }
                        assert forall|x: u64|
                            insts_of_seq(orig_r, 0).contains(x) && !insts_of_seq(
                                orig_r,
                                j2 as int,
                            ).contains(x) && !insts_of_seq(new_children@, 0).contains(x) implies
                            !rt.live_ids().contains(x) by {
                            assert(!insts_of_seq(done_b, 0).contains(x));
                            assert(!insts_of(applied).contains(x));
                            if !insts_of_seq(orig_r, j as int).contains(x) {
                                assert(!rt_b.live_ids().contains(x));
                            } else {
                                assert(anc_insts(anc_i).contains(x));
                            }
                        }
                    }
                }
            } else {
                let right = rights.remove(0);
                proof {
                    assert(right == orig_r[j as int]);
                    assert(rights@ =~= orig_r.subrange(j + 1, orig_r.len() as int));
                    assert(nodes_of_seq(orig_r, j as int) == nodes_of(orig_r[j as int])
                        + nodes_of_seq(orig_r, j + 1));
                    assert(insts_of_seq(orig_r, j as int) == insts_of(orig_r[j as int])
                        + insts_of_seq(orig_r, j + 1));
                    lemma_concat_no_dup(nodes_of(right), nodes_of_seq(orig_r, j + 1));
                    lemma_concat_no_dup(insts_of(right), insts_of_seq(orig_r, j + 1));
                    assert forall|x: u64| nodes_of(right).contains(x) implies tree.order().contains(
                        x,
                    ) by {
                        let w = choose|w: int|
                            0 <= w < nodes_of(right).len() && nodes_of(right)[w] == x;
                        assert(nodes_of_seq(orig_r, j as int)[w] == x);
                    }
                    assert forall|x: u64| insts_of(right).contains(x) implies rt.live_ids()
                        .contains(x) by {
                        let w = choose|w: int|
                            0 <= w < insts_of(right).len() && insts_of(right)[w] == x;
                        assert(insts_of_seq(orig_r, j as int)[w] == x);
                    }
                    rt.surplus_detaches = Ghost(rt.surplus_detaches@ + 1);
                }
                let ghost tree_b = *tree;
                let ghost rt_b = *rt;
                let _ = right.detach(tree, rt);
                proof {
                    lemma_nodes_seq_mem(orig_r, j + 1);
                    lemma_insts_seq_mem(orig_r, j + 1);
                    assert forall|x: u64| nodes_of_seq(orig_r, j + 1).contains(x) implies
                        nodes_of_seq(orig_r, j as int).contains(x) by {
                        lemma_nodes_seq_mem(orig_r, j as int);
                    }
                    assert forall|x: u64| insts_of_seq(orig_r, j + 1).contains(x) implies
                        insts_of_seq(orig_r, j as int).contains(x) by {
                        lemma_insts_seq_mem(orig_r, j as int);
                    }
                    if fresh {
                        lemma_concat_mem(nodes_of(right), nodes_of_seq(orig_r, j + 1));
                        lemma_concat_mem(insts_of(right), insts_of_seq(orig_r, j + 1));
                        assert forall|x: u64|
                            nodes_of_seq(orig_r, 0).contains(x) && !nodes_of_seq(
                                orig_r,
                                j + 1,
                            ).contains(x) && !nodes_of_seq(new_children@, 0).contains(x) implies
                            !tree.order().contains(x) by {
                            if nodes_of_seq(orig_r, j as int).contains(x) {
                                assert(nodes_of(right).contains(x));
                            } else {
                                assert(!tree_b.order().contains(x));
                            }
                        }
                        assert forall|x: u64|
                            insts_of_seq(orig_r, 0).contains(x) && !insts_of_seq(
                                orig_r,
                                j + 1,
                            ).contains(x) && !insts_of_seq(new_children@, 0).contains(x) implies
                            !rt.live_ids().contains(x) by {
                            if insts_of_seq(orig_r, j as int).contains(x) {
                                assert(insts_of(right).contains(x));
                            } else {
                                assert(!rt_b.live_ids().contains(x));
                            }
                        }
                    }
                }
            }
        }
        proof {
            assert(lefts@.len() == 0 && rights@.len() == 0);
            assert(new_children@.len() == orig_l.len());
            assert(nodes_of_seq(orig_r, orig_r.len() as int).len() == 0);
            if g_self.children@.len() == 0 && !g_self.no_siblings {
                assert(new_children@.len() == 1);
                assert(nodes_of_seq(new_children@, 1) == Seq::<u64>::empty());
                assert(nodes_of_seq(new_children@, 0) =~= nodes_of(new_children@[0]));
            }
        }
        (VList { no_siblings, children: new_children }, prev)
    }

    /// Detach every child in order, returning the last child's splice
    /// point.
    #[verifier::loop_isolation(false)]
    pub fn detach(self, tree: &mut HostTree, rt: &mut Runtime) -> (r: Option<u64>)
        requires
            detach_pre(VNode::List(self), *old(tree), *old(rt)),
        ensures
            detach_post(VNode::List(self), *old(tree), *old(rt), *final(tree), *final(rt), r),
            self.children@.len() == 0 ==> r == None::<u64> && *final(tree) == *old(tree) && *final(rt) == *old(rt),
        decreases self, 1int,
    {
        let ghost g_self = self;
        let ghost t0 = *tree;
        let ghost r0 = *rt;
        let VList { no_siblings: _, children } = self;
        let mut rest = children;
        let ghost orig = rest@;
        let mut last: Option<u64> = None;
        while rest.len() > 0
            invariant
                tree.wf(),
                rt.wf(),
                rest@ == orig.subrange(orig.len() - rest@.len(), orig.len() as int),
                rest@.len() <= orig.len(),
                node_wf_seq(orig, orig.len() - rest@.len()),
                nodes_of_seq(orig, orig.len() - rest@.len()).no_duplicates(),
                insts_of_seq(orig, orig.len() - rest@.len()).no_duplicates(),
                forall|x: u64|
                    nodes_of_seq(orig, orig.len() - rest@.len()).contains(x) ==> tree.order()
                        .contains(x),
                forall|x: u64|
                    insts_of_seq(orig, orig.len() - rest@.len()).contains(x) ==> rt.live_ids()
                        .contains(x),
                forall|x: u64|
                    nodes_of_seq(orig, 0).contains(x) && !nodes_of_seq(
                        orig,
                        orig.len() - rest@.len(),
                    ).contains(x) ==> !tree.order().contains(x),
                forall|x: u64|
                    t0.order().contains(x) && !nodes_of_seq(orig, 0).contains(x)
                        ==> tree.order().contains(x),
                forall|x: u64| tree.order().contains(x) ==> t0.order().contains(x),
                forall|x: Instance|
                    r0.live().contains(x) && !insts_of_seq(orig, 0).contains(x.id)
                        ==> rt.live().contains(x),
                forall|x: Instance| rt.live().contains(x) ==> r0.live().contains(x),
                forall|x: u64| rt.live_ids().contains(x) ==> r0.live_ids().contains(x),
                forall|x: u64|
                    insts_of_seq(orig, 0).contains(x) && !insts_of_seq(
                        orig,
                        orig.len() - rest@.len(),
                    ).contains(x) ==> !rt.live_ids().contains(x),
                forall|x: u64|
                    r0.live_ids().contains(x) && !insts_of_seq(orig, 0).contains(x)
                        ==> rt.live_ids().contains(x),
                rt.destroyed@ == r0.destroyed@ + insts_of_seq(orig, 0).len() - insts_of_seq(
                    orig,
                    orig.len() - rest@.len(),
                ).len(),
                rt.created@ == r0.created@,
                rt.delegations() == r0.delegations(),
                rest@.len() == 0 ==> (last matches Some(x) ==> tree.order().contains(x)),
                orig == g_self.children@,
                orig.len() == rest@.len() ==> *tree == t0 && *rt == r0 && last == None::<u64>,
                insts_of_seq(orig, orig.len() - rest@.len()).len() <= insts_of_seq(orig, 0).len(),
                t0.wf(),
                r0.wf(),
            decreases rest@.len(),
        {
            let ghost k = orig.len() - rest@.len();
            proof {
                lemma_nodes_seq_mem(orig, 0);
                lemma_insts_seq_mem(orig, 0);
                lemma_nodes_seq_mem(orig, k as int);
                lemma_insts_seq_mem(orig, k as int);
            }
            let child = rest.remove(0);
            proof {
                assert(child == orig[k as int]);
                assert(rest@ =~= orig.subrange(k + 1, orig.len() as int));
                assert(nodes_of_seq(orig, k as int) == nodes_of(orig[k as int]) + nodes_of_seq(
                    orig,
                    k + 1,
                ));
                assert(insts_of_seq(orig, k as int) == insts_of(orig[k as int]) + insts_of_seq(
                    orig,
                    k + 1,
                ));
                lemma_concat_no_dup(nodes_of(child), nodes_of_seq(orig, k + 1));
                lemma_concat_no_dup(insts_of(child), insts_of_seq(orig, k + 1));
                assert forall|x: u64| nodes_of(child).contains(x) implies tree.order().contains(
                    x,
                ) by {
                    let w = choose|w: int| 0 <= w < nodes_of(child).len() && nodes_of(child)[w] == x;
                    assert(nodes_of_seq(orig, k as int)[w] == x);
                }
                assert forall|x: u64| insts_of(child).contains(x) implies rt.live_ids().contains(
                    x,
                ) by {
                    let w = choose|w: int| 0 <= w < insts_of(child).len() && insts_of(child)[w] == x;
                    assert(insts_of_seq(orig, k as int)[w] == x);
                }
            }
            proof {
                assert(orig == g_self.children@);
                assert(decreases_to!(g_self => g_self.children));
                assert(decreases_to!(g_self.children => g_self.children@));
                assert(decreases_to!(g_self.children@ => g_self.children@[k as int]));
                assert(decreases_to!(g_self => g_self.children@[k as int]));
                assert(decreases_to!(g_self => child));
            }
            let ghost tree_b = *tree;
            last = child.detach(tree, rt);
            proof {
                lemma_nodes_seq_mem(orig, k + 1);
                lemma_insts_seq_mem(orig, k + 1);
                lemma_nodes_seq_mem(orig, k as int);
                lemma_insts_seq_mem(orig, k as int);
                lemma_nodes_seq_mem(orig, 0);
                lemma_insts_seq_mem(orig, 0);
            }
        }
        proof {
            assert(nodes_of_seq(orig, orig.len() as int).len() == 0);
            assert(insts_of_seq(orig, orig.len() as int).len() == 0);
        }
        last
    }
}

impl Default for VList {
    /// An empty fragment that may have siblings.
    fn default() -> (l: Self)
        ensures
            l.no_siblings == false,
            l.children@ == Seq::<VNode>::empty(),
    {
        VList::new(false)
    }
}

} // verus!
