//! The virtual node union and the common `apply`/`detach` contract that
//! every node kind implements.
//!
//! `apply(tree, runtime, previous_sibling, ancestor, parent_scope)` puts a
//! freshly built virtual node into the host tree, diffing it against the
//! ancestor node that previously occupied the position, and returns the
//! last host node the new node occupies.  `detach(tree, runtime)` is the
//! inverse: it removes the node's host nodes, tears down its component
//! instances, and returns the former next sibling as a splice point.

use vstd::prelude::*;
use crate::host::HostTree;
use crate::runtime::{Instance, Runtime};
use crate::scope::Scope;
use crate::vcomp::{MountState, VComp};
use crate::vlist::VList;

verus! {

/// A virtual text node; the list reconciler uses one as its stabilizing
/// placeholder, and tests use it as the simplest node kind.
pub struct VText {
    /// The host node this text currently occupies, if applied.
    pub node: Option<u64>,
}

/// A virtual node: the closed union of node kinds reconciled here.
pub enum VNode {
    /// A text node.
    Text(VText),
    /// An embedded stateful component.
    Comp(VComp),
    /// An ordered fragment of virtual nodes.
    List(VList),
}

/// The host nodes a virtual node currently occupies, in order.
pub open spec fn nodes_of(n: VNode) -> Seq<u64>
    decreases n, 0int,
{
    match n {
        VNode::Text(t) => match t.node {
            Some(k) => seq![k],
            None => Seq::empty(),
        },
        VNode::Comp(c) => match c.state {
            MountState::Mounted(m) => match m.node_ref.node {
                Some(k) => seq![k],
                None => Seq::empty(),
            },
            _ => Seq::empty(),
        },
        VNode::List(l) => nodes_of_seq(l.children@, 0),
    }
}

/// The host nodes occupied by the nodes of `s` from index `i` on.
pub open spec fn nodes_of_seq(s: Seq<VNode>, i: int) -> Seq<u64>
    decreases s, s.len() - i,
{
    if 0 <= i < s.len() {
        nodes_of(s[i]) + nodes_of_seq(s, i + 1)
    } else {
        Seq::empty()
    }
}

/// The component instances a virtual node currently holds mounted.
pub open spec fn insts_of(n: VNode) -> Seq<u64>
    decreases n, 0int,
{
    match n {
        VNode::Text(_) => Seq::empty(),
        VNode::Comp(c) => match c.state {
            MountState::Mounted(m) => seq![m.instance],
            _ => Seq::empty(),
        },
        VNode::List(l) => insts_of_seq(l.children@, 0),
    }
}

/// The instances held by the nodes of `s` from index `i` on.
pub open spec fn insts_of_seq(s: Seq<VNode>, i: int) -> Seq<u64>
    decreases s, s.len() - i,
{
    if 0 <= i < s.len() {
        insts_of(s[i]) + insts_of_seq(s, i + 1)
    } else {
        Seq::empty()
    }
}

/// Structural well-formedness: a component node's deferred generator can
/// only build the component kind the node itself declares, and a mounted
/// payload records the node it occupies.
pub open spec fn node_wf(n: VNode) -> bool
    decreases n, 0int,
{
    match n {
        VNode::Text(_) => true,
        VNode::Comp(c) => match c.state {
            MountState::Unmounted(u) => u.kind == c.type_id,
            MountState::Mounted(m) => m.node_ref.node is Some,
            _ => true,
        },
        VNode::List(l) => node_wf_seq(l.children@, 0),
    }
}

/// Well-formedness of the nodes of `s` from index `i` on.
pub open spec fn node_wf_seq(s: Seq<VNode>, i: int) -> bool
    decreases s, s.len() - i,
{
    if 0 <= i < s.len() {
        node_wf(s[i]) && node_wf_seq(s, i + 1)
    } else {
        true
    }
}

/// A freshly built node that occupies nothing yet.
pub open spec fn unapplied(n: VNode) -> bool {
    nodes_of(n).len() == 0 && insts_of(n).len() == 0
}

/// A freshly built tree all of whose component nodes still hold their
/// deferred constructors: applying such a tree resolves every position
/// (no child is a spent no-op node), so the ancestor it replaces is fully
/// claimed or removed.
pub open spec fn fresh_node(n: VNode) -> bool
    decreases n, 0int,
{
    match n {
        VNode::Text(t) => t.node is None,
        VNode::Comp(c) => c.state is Unmounted,
        VNode::List(l) => fresh_seq(l.children@, 0),
    }
}

/// Freshness of the nodes of `s` from index `i` on.
pub open spec fn fresh_seq(s: Seq<VNode>, i: int) -> bool
    decreases s, s.len() - i,
{
    if 0 <= i < s.len() {
        fresh_node(s[i]) && fresh_seq(s, i + 1)
    } else {
        true
    }
}

/// The old child sequence an ancestor contributes to list diffing.
pub open spec fn anc_children(a: Option<VNode>) -> Seq<VNode> {
    match a {
        Some(VNode::List(l)) => l.children@,
        Some(other) => seq![other],
        None => Seq::empty(),
    }
}

/// Whether some child is itself a list (nested fragments delegate further,
/// which the per-position delegation counts then include).
pub open spec fn has_list(s: Seq<VNode>) -> bool {
    exists|j: int| 0 <= j < s.len() && s[j] is List
}

/// A node's occupied host nodes and held instances are distinct and are
/// really present in the given tree and runtime.
pub open spec fn anchored(n: VNode, order: Seq<u64>, live_ids: Seq<u64>) -> bool {
    &&& nodes_of(n).no_duplicates()
    &&& insts_of(n).no_duplicates()
    &&& forall|x: u64| nodes_of(n).contains(x) ==> order.contains(x)
    &&& forall|x: u64| insts_of(n).contains(x) ==> live_ids.contains(x)
}

/// The host nodes of an optional ancestor.
pub open spec fn anc_nodes(a: Option<VNode>) -> Seq<u64> {
    match a {
        Some(n) => nodes_of(n),
        None => Seq::empty(),
    }
}

/// The instances of an optional ancestor.
pub open spec fn anc_insts(a: Option<VNode>) -> Seq<u64> {
    match a {
        Some(n) => insts_of(n),
        None => Seq::empty(),
    }
}

/// The length of the old sequence an ancestor contributes to list diffing.
pub open spec fn anc_len(a: Option<VNode>) -> nat {
    match a {
        Some(VNode::List(l)) => l.children@.len(),
        Some(_) => 1,
        None => 0,
    }
}

/// Whether two virtual nodes are the same kind of node.
pub open spec fn same_kind(a: VNode, b: VNode) -> bool {
    match (a, b) {
        (VNode::Text(_), VNode::Text(_)) => true,
        (VNode::Comp(_), VNode::Comp(_)) => true,
        (VNode::List(_), VNode::List(_)) => true,
        _ => false,
    }
}

/// What every `apply` may assume: sound tree and runtime, a well-formed,
/// not-yet-applied node, an ancestor really occupying the tree, and a
/// previous sibling that is attached and not about to be removed with the
/// ancestor.
pub open spec fn apply_pre(
    n: VNode,
    tree: HostTree,
    rt: Runtime,
    prev: Option<u64>,
    ancestor: Option<VNode>,
) -> bool {
    &&& tree.wf()
    &&& rt.wf()
    &&& node_wf(n)
    &&& unapplied(n)
    &&& match ancestor {
        Some(a) => anchored(a, tree.order(), rt.live_ids()) && node_wf(a),
        None => true,
    }
    &&& match prev {
        Some(p) => tree.order().contains(p) && !anc_nodes(ancestor).contains(p),
        None => true,
    }
}

/// What every `apply` guarantees: the result is well formed and anchored;
/// host nodes and instances not belonging to the ancestor survive; nothing
/// appears except what the result occupies; the result only occupies fresh
/// host nodes or nodes claimed from the ancestor; and the returned splice
/// point is attached.
pub open spec fn apply_post(
    n: VNode,
    ancestor: Option<VNode>,
    prev: Option<u64>,
    tree0: HostTree,
    rt0: Runtime,
    tree1: HostTree,
    rt1: Runtime,
    res: VNode,
    ret: Option<u64>,
) -> bool {
    &&& tree1.wf()
    &&& rt1.wf()
    &&& node_wf(res)
    &&& anchored(res, tree1.order(), rt1.live_ids())
    &&& same_kind(res, n)
    &&& forall|x: u64|
        tree0.order().contains(x) && !anc_nodes(ancestor).contains(x) ==> tree1.order().contains(x)
    &&& forall|x: u64|
        tree1.order().contains(x) ==> tree0.order().contains(x) || nodes_of(res).contains(x)
    &&& forall|x: u64|
        nodes_of(res).contains(x) ==> !tree0.order().contains(x) || anc_nodes(ancestor).contains(x)
    &&& forall|x: Instance|
        rt0.live().contains(x) && !anc_insts(ancestor).contains(x.id) ==> rt1.live().contains(x)
    &&& forall|x: u64|
        rt0.live_ids().contains(x) && !anc_insts(ancestor).contains(x) ==> rt1.live_ids().contains(
            x,
        )
    &&& forall|x: u64|
        rt1.live_ids().contains(x) ==> rt0.live_ids().contains(x) || insts_of(res).contains(x)
    &&& forall|x: u64|
        insts_of(res).contains(x) ==> !rt0.live_ids().contains(x) || anc_insts(ancestor).contains(
            x,
        )
    &&& fresh_node(n) ==> forall|x: u64|
        anc_nodes(ancestor).contains(x) && !nodes_of(res).contains(x) ==> !tree1.order().contains(
            x,
        )
    &&& fresh_node(n) ==> forall|x: u64|
        anc_insts(ancestor).contains(x) && !insts_of(res).contains(x) ==> !rt1.live_ids().contains(
            x,
        )
    &&& match ret {
        Some(k) => tree1.order().contains(k) && (nodes_of(res).contains(k) || prev == Some(k)),
        None => true,
    }
}

/// What a text node's `apply` returns: an applied text node occupying one
/// host node, which is also the returned splice point.
pub open spec fn text_apply_spec(res: VText, ret: Option<u64>) -> bool {
    &&& res.node is Some
    &&& ret == res.node
    &&& nodes_of(VNode::Text(res)) == seq![res.node.unwrap()]
    &&& insts_of(VNode::Text(res)) == Seq::<u64>::empty()
}

/// What every `detach` may assume.
pub open spec fn detach_pre(n: VNode, tree: HostTree, rt: Runtime) -> bool {
    &&& tree.wf()
    &&& rt.wf()
    &&& node_wf(n)
    &&& anchored(n, tree.order(), rt.live_ids())
}

/// What every `detach` guarantees: exactly the node's own host nodes leave
/// the tree, exactly its own instances are torn down (each teardown counted
/// once), and the returned splice point is still attached.
pub open spec fn detach_post(
    n: VNode,
    tree0: HostTree,
    rt0: Runtime,
    tree1: HostTree,
    rt1: Runtime,
    ret: Option<u64>,
) -> bool {
    &&& tree1.wf()
    &&& rt1.wf()
    &&& forall|x: u64| nodes_of(n).contains(x) ==> !tree1.order().contains(x)
    &&& forall|x: u64|
        tree0.order().contains(x) && !nodes_of(n).contains(x) ==> tree1.order().contains(x)
    &&& forall|x: u64| tree1.order().contains(x) ==> tree0.order().contains(x)
    &&& forall|x: Instance|
        rt0.live().contains(x) && !insts_of(n).contains(x.id) ==> rt1.live().contains(x)
    &&& forall|x: Instance| rt1.live().contains(x) ==> rt0.live().contains(x)
    &&& forall|x: u64|
        rt0.live_ids().contains(x) && !insts_of(n).contains(x) ==> rt1.live_ids().contains(x)
    &&& forall|x: u64| rt1.live_ids().contains(x) ==> rt0.live_ids().contains(x)
    &&& forall|x: u64| insts_of(n).contains(x) ==> !rt1.live_ids().contains(x)
    &&& rt1.destroyed@ == rt0.destroyed@ + insts_of(n).len()
    &&& rt1.created@ == rt0.created@
    &&& rt1.delegations() == rt0.delegations()
    &&& match ret {
        Some(k) => tree1.order().contains(k),
        None => true,
    }
}

/// Membership in the tail concatenation is membership in some tail element.
pub proof fn lemma_nodes_seq_mem(s: Seq<VNode>, i: int)
    requires
        0 <= i,
    ensures
        forall|x: u64|
            nodes_of_seq(s, i).contains(x) <==> exists|j: int|
                i <= j < s.len() && #[trigger] nodes_of(s[j]).contains(x),
    decreases s.len() - i,
{
    if 0 <= i < s.len() {
        lemma_nodes_seq_mem(s, i + 1);
        assert forall|x: u64| nodes_of_seq(s, i).contains(x) implies exists|j: int|
            i <= j < s.len() && #[trigger] nodes_of(s[j]).contains(x) by {
            let c = nodes_of(s[i]) + nodes_of_seq(s, i + 1);
            assert(nodes_of_seq(s, i) == c);
            let w = choose|w: int| 0 <= w < c.len() && #[trigger] c[w] == x;
            if w < nodes_of(s[i]).len() {
                assert(nodes_of(s[i])[w] == x);
                assert(nodes_of(s[i]).contains(x));
            } else {
                assert(nodes_of_seq(s, i + 1)[w - nodes_of(s[i]).len()] == x);
                assert(nodes_of_seq(s, i + 1).contains(x));
            }
        }
        assert forall|x: u64|
            (exists|j: int| i <= j < s.len() && #[trigger] nodes_of(s[j]).contains(x)) implies
            nodes_of_seq(s, i).contains(x) by {
            let j = choose|j: int| i <= j < s.len() && #[trigger] nodes_of(s[j]).contains(x);
            let c = nodes_of(s[i]) + nodes_of_seq(s, i + 1);
            assert(nodes_of_seq(s, i) == c);
            if j == i {
                let w = choose|w: int|
                    0 <= w < nodes_of(s[i]).len() && #[trigger] nodes_of(s[i])[w] == x;
                assert(c[w] == x);
                assert(c.contains(x));
            } else {
                assert(nodes_of_seq(s, i + 1).contains(x));
                let w = choose|w: int|
                    0 <= w < nodes_of_seq(s, i + 1).len() && #[trigger] nodes_of_seq(s, i + 1)[w]
                        == x;
                assert(c[nodes_of(s[i]).len() + w] == x);
                assert(c.contains(x));
            }
        }
    } else {
        assert(nodes_of_seq(s, i) == Seq::<u64>::empty());
    }
}

/// Membership in the tail instance concatenation, likewise.
pub proof fn lemma_insts_seq_mem(s: Seq<VNode>, i: int)
    requires
        0 <= i,
    ensures
        forall|x: u64|
            insts_of_seq(s, i).contains(x) <==> exists|j: int|
                i <= j < s.len() && #[trigger] insts_of(s[j]).contains(x),
    decreases s.len() - i,
{
    if 0 <= i < s.len() {
        lemma_insts_seq_mem(s, i + 1);
        assert forall|x: u64| insts_of_seq(s, i).contains(x) implies exists|j: int|
            i <= j < s.len() && #[trigger] insts_of(s[j]).contains(x) by {
            let c = insts_of(s[i]) + insts_of_seq(s, i + 1);
            assert(insts_of_seq(s, i) == c);
            let w = choose|w: int| 0 <= w < c.len() && #[trigger] c[w] == x;
            if w < insts_of(s[i]).len() {
                assert(insts_of(s[i])[w] == x);
                assert(insts_of(s[i]).contains(x));
            } else {
                assert(insts_of_seq(s, i + 1)[w - insts_of(s[i]).len()] == x);
                assert(insts_of_seq(s, i + 1).contains(x));
            }
        }
        assert forall|x: u64|
            (exists|j: int| i <= j < s.len() && #[trigger] insts_of(s[j]).contains(x)) implies
            insts_of_seq(s, i).contains(x) by {
            let j = choose|j: int| i <= j < s.len() && #[trigger] insts_of(s[j]).contains(x);
            let c = insts_of(s[i]) + insts_of_seq(s, i + 1);
            assert(insts_of_seq(s, i) == c);
            if j == i {
                let w = choose|w: int|
                    0 <= w < insts_of(s[i]).len() && #[trigger] insts_of(s[i])[w] == x;
                assert(c[w] == x);
                assert(c.contains(x));
            } else {
                assert(insts_of_seq(s, i + 1).contains(x));
                let w = choose|w: int|
                    0 <= w < insts_of_seq(s, i + 1).len() && #[trigger] insts_of_seq(s, i + 1)[w]
                        == x;
                assert(c[insts_of(s[i]).len() + w] == x);
                assert(c.contains(x));
            }
        }
    } else {
        assert(insts_of_seq(s, i) == Seq::<u64>::empty());
    }
}

/// Appending a node appends its occupied nodes to the tail concatenation.
pub proof fn lemma_nodes_seq_push(s: Seq<VNode>, e: VNode, i: int)
    requires
        0 <= i <= s.len(),
    ensures
        nodes_of_seq(s.push(e), i) == nodes_of_seq(s, i) + nodes_of(e),
    decreases s.len() - i,
{
    let t = s.push(e);
    if i < s.len() {
        lemma_nodes_seq_push(s, e, i + 1);
        assert(t[i] == s[i]);
        assert((nodes_of(s[i]) + (nodes_of_seq(s, i + 1) + nodes_of(e))) =~= ((nodes_of(s[i])
            + nodes_of_seq(s, i + 1)) + nodes_of(e)));
    } else {
        assert(t[i] == e);
        assert(nodes_of_seq(t, i + 1) == Seq::<u64>::empty());
        assert(nodes_of_seq(s, i) == Seq::<u64>::empty());
        assert(nodes_of_seq(t, i) =~= nodes_of_seq(s, i) + nodes_of(e));
    }
}

/// Appending a node appends its held instances, likewise.
pub proof fn lemma_insts_seq_push(s: Seq<VNode>, e: VNode, i: int)
    requires
        0 <= i <= s.len(),
    ensures
        insts_of_seq(s.push(e), i) == insts_of_seq(s, i) + insts_of(e),
    decreases s.len() - i,
{
    let t = s.push(e);
    if i < s.len() {
        lemma_insts_seq_push(s, e, i + 1);
        assert(t[i] == s[i]);
        assert((insts_of(s[i]) + (insts_of_seq(s, i + 1) + insts_of(e))) =~= ((insts_of(s[i])
            + insts_of_seq(s, i + 1)) + insts_of(e)));
    } else {
        assert(t[i] == e);
        assert(insts_of_seq(t, i + 1) == Seq::<u64>::empty());
        assert(insts_of_seq(s, i) == Seq::<u64>::empty());
        assert(insts_of_seq(t, i) =~= insts_of_seq(s, i) + insts_of(e));
    }
}

/// Appending a well-formed node keeps the tail well-formed.
pub proof fn lemma_wf_seq_push(s: Seq<VNode>, e: VNode, i: int)
    requires
        0 <= i <= s.len(),
        node_wf_seq(s, i),
        node_wf(e),
    ensures
        node_wf_seq(s.push(e), i),
    decreases s.len() - i,
{
    let t = s.push(e);
    if i < s.len() {
        lemma_wf_seq_push(s, e, i + 1);
        assert(t[i] == s[i]);
        assert(node_wf(s[i]));
    } else {
        assert(t[i] == e);
        assert(node_wf_seq(t, i + 1));
    }
}

/// A concatenation is distinct exactly when both parts are distinct and
/// disjoint.
pub proof fn lemma_concat_no_dup(a: Seq<u64>, b: Seq<u64>)
    ensures
        (a + b).no_duplicates() <==> (a.no_duplicates() && b.no_duplicates() && forall|x: u64|
            a.contains(x) ==> !b.contains(x)),
{
    let c = a + b;
    if c.no_duplicates() {
        assert forall|p: int, q: int|
            0 <= p < a.len() && 0 <= q < a.len() && p != q implies a[p] != a[q] by {
            assert(c[p] == a[p] && c[q] == a[q]);
        }
        assert forall|p: int, q: int|
            0 <= p < b.len() && 0 <= q < b.len() && p != q implies b[p] != b[q] by {
            assert(c[a.len() + p] == b[p] && c[a.len() + q] == b[q]);
        }
        assert forall|x: u64| a.contains(x) implies !b.contains(x) by {
            let p = choose|p: int| 0 <= p < a.len() && a[p] == x;
            if b.contains(x) {
                let q = choose|q: int| 0 <= q < b.len() && b[q] == x;
                assert(c[p] == x && c[a.len() + q] == x);
            }
        }
    }
    if a.no_duplicates() && b.no_duplicates() && (forall|x: u64| a.contains(x) ==> !b.contains(x)) {
        assert forall|p: int, q: int|
            0 <= p < c.len() && 0 <= q < c.len() && p != q implies c[p] != c[q] by {
            if p < a.len() && q < a.len() {
                assert(c[p] == a[p] && c[q] == a[q]);
            } else if p < a.len() {
                assert(c[p] == a[p] && c[q] == b[q - a.len()]);
                assert(a.contains(c[p]) && b.contains(c[q]));
            } else if q < a.len() {
                assert(c[p] == b[p - a.len()] && c[q] == a[q]);
                assert(b.contains(c[p]) && a.contains(c[q]));
            } else {
                assert(c[p] == b[p - a.len()] && c[q] == b[q - a.len()]);
            }
        }
    }
}

/// Membership in a concatenation is membership in either part.
pub proof fn lemma_concat_mem(a: Seq<u64>, b: Seq<u64>)
    ensures
        forall|x: u64| #[trigger] (a + b).contains(x) <==> a.contains(x) || b.contains(x),
{
    let c = a + b;
    assert forall|x: u64| c.contains(x) implies a.contains(x) || b.contains(x) by {
        let w = choose|w: int| 0 <= w < c.len() && #[trigger] c[w] == x;
        if w < a.len() {
            assert(a[w] == x);
        } else {
            assert(b[w - a.len()] == x);
        }
    }
    assert forall|x: u64| a.contains(x) || b.contains(x) implies c.contains(x) by {
        if a.contains(x) {
            let w = choose|w: int| 0 <= w < a.len() && #[trigger] a[w] == x;
            assert(c[w] == x);
        } else {
            let w = choose|w: int| 0 <= w < b.len() && #[trigger] b[w] == x;
            assert(c[a.len() + w] == x);
        }
    }
}

/// Attach a fresh host node at the reconciler's insertion point: before
/// `before` if the ancestor's removal produced a splice point, otherwise
/// after `prev`, otherwise at the end of the parent.
pub fn attach_new(tree: &mut HostTree, node: u64, before: Option<u64>, prev: Option<u64>)
    requires
        old(tree).wf(),
        !old(tree).order().contains(node),
        before matches Some(b) ==> old(tree).order().contains(b),
        prev matches Some(p) ==> old(tree).order().contains(p),
    ensures
        final(tree).wf(),
        exists|i: int|
            0 <= i <= old(tree).order().len() && final(tree).order() == old(tree).order().insert(
                i,
                node,
            ),
        final(tree).order().contains(node),
        forall|x: u64| old(tree).order().contains(x) ==> final(tree).order().contains(x),
        forall|x: u64|
            final(tree).order().contains(x) ==> x == node || old(tree).order().contains(x),
        before matches Some(b) ==> exists|i: int|
            0 <= i < old(tree).order().len() && #[trigger] old(tree).order()[i] == b && final(tree).order() == old(tree).order().insert(i, node),
        before is None && prev is Some ==> exists|i: int|
            0 <= i < old(tree).order().len() && #[trigger] old(tree).order()[i] == prev.unwrap()
                && final(tree).order() == old(tree).order().insert(i + 1, node),
        before is None && prev is None ==> final(tree).order() == old(tree).order().push(node),
{
    let ghost pre = tree.order();
    match before {
        Some(b) => {
            tree.insert_before(node, b);
        },
        None => {
            match prev {
                Some(p) => {
                    let next = tree.next_sibling(p);
                    proof {
                        let i = choose|i: int|
                            0 <= i < pre.len() && #[trigger] pre[i] == p && next == (if i + 1
                                < pre.len() {
                                Some(pre[i + 1])
                            } else {
                                None
                            });
                    }
                    match next {
                        Some(ns) => {
                            tree.insert_before(node, ns);
                            proof {
                                let i = choose|i: int|
                                    0 <= i < pre.len() && #[trigger] pre[i] == p && Some(ns) == (
                                    if i + 1 < pre.len() {
                                        Some(pre[i + 1])
                                    } else {
                                        None
                                    });
                                let w = choose|w: int|
                                    0 <= w < pre.len() && #[trigger] pre[w] == ns && tree.order()
                                        == pre.insert(w, node);
                                assert(pre[i + 1] == ns);
                                assert(w == i + 1);
                            }
                        },
                        None => {
                            tree.append_child(node);
                            proof {
                                let i = choose|i: int|
                                    0 <= i < pre.len() && #[trigger] pre[i] == p && None::<u64> == (
                                    if i + 1 < pre.len() {
                                        Some(pre[i + 1])
                                    } else {
                                        None
                                    });
                                assert(i == pre.len() - 1);
                                assert(tree.order() =~= pre.insert(i + 1, node));
                            }
                        },
                    }
                },
                None => {
                    tree.append_child(node);
                    proof {
                        assert(tree.order() =~= pre.insert(pre.len() as int, node));
                    }
                },
            }
        },
    }
}

/// Shape facts of an applied text node's occupied-node sequence.
proof fn lemma_text_shape(t: VText)
    requires
        t.node is Some,
    ensures
        nodes_of(VNode::Text(t)) == seq![t.node.unwrap()],
        nodes_of(VNode::Text(t)).len() == 1,
        nodes_of(VNode::Text(t))[0] == t.node.unwrap(),
        nodes_of(VNode::Text(t)).contains(t.node.unwrap()),
        forall|x: u64| nodes_of(VNode::Text(t)).contains(x) ==> x == t.node.unwrap(),
        nodes_of(VNode::Text(t)).no_duplicates(),
        insts_of(VNode::Text(t)) == Seq::<u64>::empty(),
        node_wf(VNode::Text(t)),
{
    let k = t.node.unwrap();
    assert(nodes_of(VNode::Text(t)) == seq![k]);
    assert(seq![k][0] == k);
    assert forall|x: u64| nodes_of(VNode::Text(t)).contains(x) implies x == k by {
        let w = choose|w: int| 0 <= w < seq![k].len() && #[trigger] seq![k][w] == x;
    }
}

impl VText {
    /// A text node that is not in the host tree yet.
    pub fn new() -> (t: Self)
        ensures
            t.node is None,
            unapplied(VNode::Text(t)),
            node_wf(VNode::Text(t)),
    {
        VText { node: None }
    }

    /// Apply the text node: reuse an applied ancestor text node's host
    /// node, otherwise detach the ancestor and attach a fresh text node at
    /// the splice point.
    pub fn apply(
        self,
        tree: &mut HostTree,
        rt: &mut Runtime,
        previous_sibling: Option<u64>,
        ancestor: Option<VNode>,
    ) -> (r: (VText, Option<u64>))
        requires
            apply_pre(VNode::Text(self), *old(tree), *old(rt), previous_sibling, ancestor),
        ensures
            apply_post(
                VNode::Text(self),
                ancestor,
                previous_sibling,
                *old(tree),
                *old(rt),
                *final(tree),
                *final(rt),
                VNode::Text(r.0),
                r.1,
            ),
            text_apply_spec(r.0, r.1),
            final(rt).created@ == old(rt).created@,
            final(rt).destroyed@ == old(rt).destroyed@ + anc_insts(ancestor).len(),
            final(rt).delegations() == old(rt).delegations(),
        decreases 0int,
    {
        let ghost g = self;
        match ancestor {
            Some(VNode::Text(t)) => {
                match t.node {
                    Some(k) => {
                        // Same kind, already rendered: keep the host node.
                        let out = VText { node: Some(k) };
                        proof {
                            lemma_text_shape(out);
                            assert(nodes_of(VNode::Text(VText { node: Some(k) })) == seq![k]);
                            assert(anc_nodes(ancestor) == seq![k]);
                            assert(seq![k][0] == k);
                            assert(anc_nodes(ancestor).contains(k));
                            assert(tree.order().contains(k));
                            assert(anc_insts(ancestor) == Seq::<u64>::empty());
                        }
                        (out, Some(k))
                    },
                    None => {
                        let node = tree.create_text_node();
                        attach_new(tree, node, None, previous_sibling);
                        let out = VText { node: Some(node) };
                        proof {
                            lemma_text_shape(out);
                            assert(anc_nodes(ancestor) == Seq::<u64>::empty());
                            assert(anc_insts(ancestor) == Seq::<u64>::empty());
                        }
                        (out, Some(node))
                    },
                }
            },
            Some(other) => {
                let before = other.detach(tree, rt);
                let ghost mid = *tree;
                let node = tree.create_text_node();
                attach_new(tree, node, before, None);
                let out = VText { node: Some(node) };
                proof {
                    lemma_text_shape(out);
                    assert(anc_nodes(ancestor) == nodes_of(other));
                    assert(anc_insts(ancestor) == insts_of(other));
                    assert(!mid.order().contains(node));
                }
                (out, Some(node))
            },
            None => {
                let node = tree.create_text_node();
                attach_new(tree, node, None, previous_sibling);
                let out = VText { node: Some(node) };
                proof {
                    lemma_text_shape(out);
                    assert(anc_nodes(ancestor) == Seq::<u64>::empty());
                    assert(anc_insts(ancestor) == Seq::<u64>::empty());
                }
                (out, Some(node))
            },
        }
    }

    /// Detach the text node, returning its former next sibling.
    pub fn detach(self, tree: &mut HostTree, rt: &mut Runtime) -> (r: Option<u64>)
        requires
            detach_pre(VNode::Text(self), *old(tree), *old(rt)),
        ensures
            detach_post(
                VNode::Text(self),
                *old(tree),
                *old(rt),
                *final(tree),
                *final(rt),
                r,
            ),
        decreases 0int,
    {
        let ghost g = self;
        match self.node {
            Some(k) => {
                proof {
                    assert(nodes_of(VNode::Text(g)) == seq![k]);
                    assert(seq![k][0] == k);
                    assert(nodes_of(VNode::Text(g)).contains(k));
                    assert(tree.order().contains(k));
                    assert(insts_of(VNode::Text(g)) == Seq::<u64>::empty());
                }
                let sib = tree.next_sibling(k);
                let ghost mid = *tree;
                tree.remove_child(k);
                proof {
                    assert forall|x: u64| nodes_of(VNode::Text(g)).contains(x) implies !tree
                        .order().contains(x) by {
                        assert(x == k);
                    }
                    let i = choose|i: int|
                        0 <= i < mid.order().len() && #[trigger] mid.order()[i] == k && sib == (
                        if i + 1 < mid.order().len() {
                            Some(mid.order()[i + 1])
                        } else {
                            None
                        });
                    if i + 1 < mid.order().len() {
                        assert(mid.order()[i + 1] != k);
                        assert(tree.order().contains(mid.order()[i + 1]));
                    }
                }
                sib
            },
            None => {
                proof {
                    assert(nodes_of(VNode::Text(g)) == Seq::<u64>::empty());
                    assert(insts_of(VNode::Text(g)) == Seq::<u64>::empty());
                }
                None
            },
        }
    }
}

impl VNode {
    /// Apply this node over its ancestor; see the module description.
    pub fn apply(
        self,
        tree: &mut HostTree,
        rt: &mut Runtime,
        previous_sibling: Option<u64>,
        ancestor: Option<VNode>,
        parent_scope: &Scope,
    ) -> (r: (VNode, Option<u64>))
        requires
            apply_pre(self, *old(tree), *old(rt), previous_sibling, ancestor),
        ensures
            apply_post(
                self,
                ancestor,
                previous_sibling,
                *old(tree),
                *old(rt),
                *final(tree),
                *final(rt),
                r.0,
                r.1,
            ),
            !(self is List) ==> final(rt).delegations() == old(rt).delegations(),
            self matches VNode::Text(t) ==> (r.0 matches VNode::Text(t2) && text_apply_spec(
                t2,
                r.1,
            )),
            self matches VNode::Comp(c) ==> (r.0 matches VNode::Comp(c2)
                && crate::vcomp::comp_apply_spec(
                c,
                ancestor,
                previous_sibling,
                *old(tree),
                *old(rt),
                *final(tree),
                *final(rt),
                c2,
                r.1,
                *parent_scope,
            )),
            self matches VNode::List(l) ==> (r.0 matches VNode::List(l2)
                && crate::vlist::list_apply_spec(
                l,
                ancestor,
                previous_sibling,
                *old(rt),
                *final(rt),
                l2,
                r.1,
            )),
        decreases self, 2int,
    {
        match self {
            VNode::Text(t) => {
                let (t2, ret) = t.apply(tree, rt, previous_sibling, ancestor);
                (VNode::Text(t2), ret)
            },
            VNode::Comp(c) => {
                let (c2, ret) = c.apply(tree, rt, previous_sibling, ancestor, parent_scope);
                (VNode::Comp(c2), ret)
            },
            VNode::List(l) => {
                let (l2, ret) = l.apply(tree, rt, previous_sibling, ancestor, parent_scope);
                (VNode::List(l2), ret)
            },
        }
    }

    /// Detach this node from the host tree; see the module description.
    pub fn detach(self, tree: &mut HostTree, rt: &mut Runtime) -> (r: Option<u64>)
        requires
            detach_pre(self, *old(tree), *old(rt)),
        ensures
            detach_post(self, *old(tree), *old(rt), *final(tree), *final(rt), r),
        decreases self, 2int,
    {
        match self {
            VNode::Text(t) => t.detach(tree, rt),
            VNode::Comp(c) => c.detach(tree, rt).1,
            VNode::List(l) => l.detach(tree, rt),
        }
    }
}

} // verus!
