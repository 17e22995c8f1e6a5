//! The virtual component node and its mount state machine.
//!
//! A component node embeds one stateful component instance behind a
//! type-erased handle (an instance identifier), tagged with a kind token
//! that is consulted only for the reuse check during reconciliation.  Its
//! lifecycle walks `Unmounted -> Mounting -> Mounted`, and ends in
//! `Detached` (torn down) or `Overwritten` (its payload handed to a new
//! node of the same kind).

use vstd::prelude::*;
use crate::host::HostTree;
use crate::runtime::{Instance, Runtime};
use crate::scope::{Scope, ScopeHolder};
use crate::vnode::{
    anc_insts, anc_nodes, apply_post, apply_pre, attach_new, detach_post, detach_pre, insts_of,
    nodes_of, VNode,
};

verus! {

/// A reference cell for the host node a component comes to occupy.
#[derive(Clone, Copy, PartialEq, Eq, Structural, Debug)]
pub struct NodeRef {
    /// The occupied host node, once known.
    pub node: Option<u64>,
}

impl NodeRef {
    /// A reference that is not filled yet.
    pub fn new() -> (r: Self)
        ensures
            r.node is None,
    {
        NodeRef { node: None }
    }
}

/// The one-shot deferred constructor: captures the component kind and its
/// initial properties, to be consumed exactly once by `mount` or `replace`.
pub struct Unmounted {
    /// The kind token of the component this generator builds.
    pub kind: u64,
    /// The captured initial properties.
    pub props: u64,
    /// The cell to fill with the mounted host node.
    pub node_ref: NodeRef,
}

/// The payload of a mounted component: the type-erased handle of the live
/// instance and the host node it occupies.  Ownership is exclusive; on
/// reuse the payload is moved to the new node, never shared.
pub struct Mounted {
    /// The cell naming the occupied host node.
    pub node_ref: NodeRef,
    /// The handle of the live instance.
    pub instance: u64,
}

/// The mount state machine.  `Mounting` is the transient guard a node
/// holds while its own `apply` runs; with exclusive ownership no other
/// call can observe it, but the state is kept so that the five states stay
/// mutually exclusive and exhaustive.
pub enum MountState {
    /// Declared but not yet applied; holds the deferred constructor.
    Unmounted(Unmounted),
    /// Live; holds the instance handle and occupied node.
    Mounted(Mounted),
    /// Mid-apply guard.
    Mounting,
    /// Terminal: torn down by `detach`.
    Detached,
    /// Terminal: the payload was claimed by a newer node of the same kind.
    Overwritten,
}

/// How the ancestor was classified during `apply`.
enum Reform {
    /// Same-kind component ancestor: reuse its extracted payload.
    Keep(u64, Mounted),
    /// Anything else: the ancestor was detached; insert before this node.
    Before(Option<u64>),
}

/// A virtual component node.
pub struct VComp {
    /// The identity token of the component implementation.
    pub type_id: u64,
    /// The holder through which this node's callbacks reach the parent.
    pub scope_holder: ScopeHolder,
    /// The lifecycle state, exclusively owned by this node.
    pub state: MountState,
}

/// Whether applying `c` over this ancestor reuses the ancestor's payload:
/// the ancestor is a component of the same kind and is mounted.
pub open spec fn reuses(c: VComp, ancestor: Option<VNode>) -> bool {
    match ancestor {
        Some(VNode::Comp(a)) => a.type_id == c.type_id && a.state is Mounted,
        _ => false,
    }
}

/// The mounted payload of a component ancestor.
pub open spec fn anc_payload(ancestor: Option<VNode>) -> Mounted {
    match ancestor {
        Some(VNode::Comp(a)) => match a.state {
            MountState::Mounted(m) => m,
            _ => Mounted { node_ref: NodeRef { node: None }, instance: 0 },
        },
        _ => Mounted { node_ref: NodeRef { node: None }, instance: 0 },
    }
}

/// The properties a not-yet-applied component node will mount with.
pub open spec fn pending_props(c: VComp) -> u64 {
    match c.state {
        MountState::Unmounted(u) => u.props,
        _ => 0,
    }
}

/// What a component node's `apply` guarantees, branch by branch: the
/// no-op for an already-resolved node; otherwise a mounted result whose
/// holder is populated; payload reuse for a same-kind mounted ancestor;
/// one fresh construction (and the ancestor's teardowns) otherwise; and
/// the exact insertion position of the stand-in node.
pub open spec fn comp_apply_spec(
    c: VComp,
    ancestor: Option<VNode>,
    prev: Option<u64>,
    tree0: HostTree,
    rt0: Runtime,
    tree1: HostTree,
    rt1: Runtime,
    res: VComp,
    ret: Option<u64>,
    parent_scope: Scope,
) -> bool {
    &&& rt1.delegations() == rt0.delegations()
    &&& res.type_id == c.type_id
    &&& !(c.state is Unmounted) ==> res == c && ret == None::<u64> && tree1 == tree0 && rt1 == rt0
    &&& c.state is Unmounted ==> {
        &&& res.state matches MountState::Mounted(m2) && ret == Some(m2.node_ref.node.unwrap())
            && m2.node_ref.node is Some
        &&& res.scope_holder.populated() && res.scope_holder.sender_of() == parent_scope
    }
    &&& c.state is Unmounted && reuses(c, ancestor) ==> {
        &&& tree1 == tree0
        &&& rt1.lifecycle() == rt0.lifecycle()
        &&& rt1.live_ids() == rt0.live_ids()
        &&& res.state matches MountState::Mounted(m2) && m2.instance == anc_payload(
            ancestor,
        ).instance && m2.node_ref == anc_payload(ancestor).node_ref
        &&& exists|kk: u64|
            #[trigger] rt1.live().contains(
                Instance { id: anc_payload(ancestor).instance, kind: kk, props: pending_props(c) },
            )
    }
    &&& c.state is Unmounted && !reuses(c, ancestor) ==> {
        &&& rt1.created@ == rt0.created@ + 1
        &&& rt1.destroyed@ == rt0.destroyed@ + anc_insts(ancestor).len()
        &&& res.state matches MountState::Mounted(m2) && rt1.live().contains(
            Instance { id: m2.instance, kind: c.type_id, props: pending_props(c) },
        ) && (!rt0.is_live(m2.instance) || anc_insts(ancestor).contains(m2.instance))
    }
    &&& c.state is Unmounted && ancestor is None ==> {
        &&& !tree0.order().contains(ret.unwrap())
        &&& prev is Some ==> exists|i: int|
            0 <= i < tree0.order().len() && #[trigger] tree0.order()[i] == prev.unwrap()
                && tree1.order() == tree0.order().insert(i + 1, ret.unwrap())
        &&& prev is None ==> tree1.order() == tree0.order().push(ret.unwrap())
    }
    &&& c.state is Unmounted && (match ancestor {
        Some(VNode::Comp(a)) => a.type_id != c.type_id && a.state is Mounted,
        _ => false,
    }) ==> exists|i: int|
        0 <= i < tree0.order().len() && #[trigger] tree0.order()[i] == anc_payload(
            ancestor,
        ).node_ref.node.unwrap() && {
            ||| (i + 1 < tree0.order().len() && tree1.order() == tree0.order().remove(i).insert(
                i,
                ret.unwrap(),
            ))
            ||| (i + 1 == tree0.order().len() && prev is None && tree1.order() == tree0.order()
                .remove(i).push(ret.unwrap()))
            ||| (i + 1 == tree0.order().len() && prev is Some && exists|w: int|
                0 <= w < tree0.order().remove(i).len() && #[trigger] tree0.order().remove(i)[w]
                    == prev.unwrap() && tree1.order() == tree0.order().remove(i).insert(
                    w + 1,
                    ret.unwrap(),
                ))
        }
}

impl Unmounted {
    /// The generator in "mount" mode: publishes the parent's sender to the
    /// scope holder, constructs a fresh instance on the placeholder node.
    fn mount(
        self,
        holder: &mut ScopeHolder,
        rt: &mut Runtime,
        dummy_node: u64,
        parent_scope: Scope,
    ) -> (m: Mounted)
        requires
            old(rt).wf(),
        ensures
            final(rt).wf(),
            final(holder).populated() && final(holder).sender_of() == parent_scope,
            m.node_ref.node == Some(dummy_node),
            !old(rt).is_live(m.instance),
            final(rt).live() == old(rt).live().push(
                Instance { id: m.instance, kind: self.kind, props: self.props },
            ),
            final(rt).is_live(m.instance),
            forall|x: Instance| old(rt).live().contains(x) ==> final(rt).live().contains(x),
            final(rt).live_ids() == old(rt).live_ids().push(m.instance),
            forall|x: u64|
                old(rt).live_ids().contains(x) ==> final(rt).live_ids().contains(x),
            final(rt).created@ == old(rt).created@ + 1,
            final(rt).destroyed@ == old(rt).destroyed@,
            final(rt).delegations() == old(rt).delegations(),
    {
        holder.populate(parent_scope);
        let instance = rt.mount(self.kind, self.props);
        Mounted { node_ref: NodeRef { node: Some(dummy_node) }, instance }
    }

    /// The generator in "overwrite" mode: the supplied kind token must
    /// match this generator's own kind.  A mismatch would be an
    /// internal-consistency failure that correct tree construction never
    /// produces, so it is stated as a precondition, which the state machine
    /// invariant discharges at the one call site.  Pushes a properties
    /// update onto the live instance and returns a payload for the same
    /// instance.
    fn replace(
        self,
        holder: &mut ScopeHolder,
        rt: &mut Runtime,
        type_id: u64,
        old_payload: Mounted,
        parent_scope: Scope,
    ) -> (m: Mounted)
        requires
            old(rt).wf(),
            type_id == self.kind,
            old(rt).is_live(old_payload.instance),
        ensures
            final(rt).wf(),
            final(holder).populated() && final(holder).sender_of() == parent_scope,
            m.node_ref == old_payload.node_ref,
            m.instance == old_payload.instance,
            final(rt).live_ids() == old(rt).live_ids(),
            final(rt).is_live(m.instance),
            exists|kk: u64|
                #[trigger] final(rt).live().contains(
                    Instance { id: m.instance, kind: kk, props: self.props },
                ),
            forall|x: Instance|
                old(rt).live().contains(x) && x.id != old_payload.instance ==> final(rt).live().contains(x),
            forall|x: Instance|
                final(rt).live().contains(x) ==> x.id == old_payload.instance || old(rt).live().contains(x),
            final(rt).lifecycle() == old(rt).lifecycle(),
            final(rt).delegations() == old(rt).delegations(),
    {
        holder.populate(parent_scope);
        rt.update_properties(old_payload.instance, self.props);
        proof {
            let j = choose|j: int|
                0 <= j < old(rt).live().len() && #[trigger] old(rt).live()[j].id
                    == old_payload.instance && rt.live() == old(rt).live().update(
                    j,
                    Instance {
                        id: old_payload.instance,
                        kind: old(rt).live()[j].kind,
                        props: self.props,
                    },
                );
            assert(rt.live()[j] == Instance {
                id: old_payload.instance,
                kind: old(rt).live()[j].kind,
                props: self.props,
            });
            assert(rt.live().contains(rt.live()[j]));
        }
        Mounted { node_ref: old_payload.node_ref, instance: old_payload.instance }
    }
}

impl VComp {
    /// Prepare a component node of the given kind: capture the properties
    /// in a deferred generator, to be consumed on first `apply`.
    pub fn new(kind: u64, props: u64, scope_holder: ScopeHolder, node_ref: NodeRef) -> (c: Self)
        ensures
            c.type_id == kind,
            c.scope_holder == scope_holder,
            c.state matches MountState::Unmounted(u) && u.kind == kind && u.props == props
                && u.node_ref == node_ref,
            crate::vnode::node_wf(VNode::Comp(c)),
            crate::vnode::unapplied(VNode::Comp(c)),
    {
        VComp {
            type_id: kind,
            scope_holder,
            state: MountState::Unmounted(Unmounted { kind, props, node_ref }),
        }
    }

    /// Apply this component node over its ancestor.
    ///
    /// A node that is not `Unmounted` was already resolved (or is mid
    /// apply): the call is a no-op returning `None`.  Otherwise the
    /// ancestor is classified: a mounted component of the same kind is
    /// claimed and updated in place; anything else is detached and a fresh
    /// instance is mounted on a new placeholder node at the splice point.
    pub fn apply(
        self,
        tree: &mut HostTree,
        rt: &mut Runtime,
        previous_sibling: Option<u64>,
        ancestor: Option<VNode>,
        parent_scope: &Scope,
    ) -> (r: (VComp, Option<u64>))
        requires
            apply_pre(VNode::Comp(self), *old(tree), *old(rt), previous_sibling, ancestor),
        ensures
            apply_post(
                VNode::Comp(self),
                ancestor,
                previous_sibling,
                *old(tree),
                *old(rt),
                *final(tree),
                *final(rt),
                VNode::Comp(r.0),
                r.1,
            ),
            comp_apply_spec(
                self,
                ancestor,
                previous_sibling,
                *old(tree),
                *old(rt),
                *final(tree),
                *final(rt),
                r.0,
                r.1,
                *parent_scope,
            ),
    {
        let ghost g = self;
        let ghost t0 = *tree;
        let ghost r0 = *rt;
        let VComp { type_id, mut scope_holder, state } = self;
        match state {
            MountState::Unmounted(this) => {
                proof {
                    assert(this.kind == type_id);
                }
                // Transiently `Mounting` while the generator runs; with
                // exclusive ownership no re-entrant observer exists.
                let reform: Reform = match ancestor {
                    Some(VNode::Comp(vcomp)) => {
                        if type_id == vcomp.type_id {
                            let anc_kind = vcomp.type_id;
                            let VComp { type_id: _, scope_holder: _, state: anc_state } = vcomp;
                            match anc_state {
                                MountState::Mounted(m) => {
                                    // The ancestor is overwritten; its payload moves.
                                    proof {
                                        assert(anc_insts(ancestor) == seq![m.instance]);
                                        assert(seq![m.instance][0] == m.instance);
                                        assert(anc_insts(ancestor).contains(m.instance));
                                        assert(rt.live_ids().contains(m.instance));
                                        assert(anc_nodes(ancestor) == seq![
                                            m.node_ref.node.unwrap(),
                                        ]);
                                        assert(anc_nodes(ancestor)[0] == m.node_ref.node.unwrap());
                                        assert(anc_nodes(ancestor).contains(
                                            m.node_ref.node.unwrap(),
                                        ));
                                        assert(tree.order().contains(m.node_ref.node.unwrap()));
                                        assert(m.node_ref.node is Some);
                                    }
                                    Reform::Keep(anc_kind, m)
                                },
                                _ => {
                                    proof {
                                        assert(anc_nodes(ancestor) == Seq::<u64>::empty());
                                        assert(anc_insts(ancestor) == Seq::<u64>::empty());
                                    }
                                    Reform::Before(None)
                                },
                            }
                        } else {
                            let (_overwritten, node) = vcomp.detach(tree, rt);
                            Reform::Before(node)
                        }
                    },
                    Some(other) => {
                        let node = other.detach(tree, rt);
                        Reform::Before(node)
                    },
                    None => Reform::Before(None),
                };
                let ghost td = *tree;
                let ghost rd = *rt;
                let ghost g_reform = reform;
                let mounted: Mounted = match reform {
                    Reform::Keep(anc_kind, m) => {
                        this.replace(&mut scope_holder, rt, anc_kind, m, *parent_scope)
                    },
                    Reform::Before(before) => {
                        // Temporary stand-in node the host tree can anchor to.
                        let dummy = tree.create_text_node();
                        attach_new(tree, dummy, before, previous_sibling);
                        this.mount(&mut scope_holder, rt, dummy, *parent_scope)
                    },
                };
                let node = mounted.node_ref.node;
                let comp = VComp { type_id, scope_holder, state: MountState::Mounted(mounted) };
                proof {
                    let k = mounted.node_ref.node.unwrap();
                    assert(nodes_of(VNode::Comp(comp)) == seq![k]);
                    assert(nodes_of(VNode::Comp(comp))[0] == k);
                    assert(nodes_of(VNode::Comp(comp)).contains(k));
                    assert forall|x: u64| nodes_of(VNode::Comp(comp)).contains(x) implies x
                        == k by {
                        assert(seq![k][0] == k && seq![k].len() == 1);
                    }
                    assert(insts_of(VNode::Comp(comp)) == seq![mounted.instance]);
                    assert(insts_of(VNode::Comp(comp))[0] == mounted.instance);
                    assert(insts_of(VNode::Comp(comp)).contains(mounted.instance));
                    assert forall|x: u64| insts_of(VNode::Comp(comp)).contains(x) implies x
                        == mounted.instance by {
                        assert(seq![mounted.instance].len() == 1);
                    }
                    assert(nodes_of(VNode::Comp(comp)).no_duplicates());
                    assert(insts_of(VNode::Comp(comp)).no_duplicates());
                    if !(g_reform is Keep) {
                        assert(rt.live_ids() == rd.live_ids().push(mounted.instance));
                        assert forall|x: u64| rt.live_ids().contains(x) implies rd.live_ids()
                            .contains(x) || x == mounted.instance by {
                            let w = choose|w: int|
                                0 <= w < rt.live_ids().len() && #[trigger] rt.live_ids()[w] == x;
                            if w < rd.live_ids().len() {
                                assert(rd.live_ids()[w] == x);
                            }
                        }
                    }
                }
                (comp, node)
            },
            other_state => {
                let out = VComp { type_id, scope_holder, state: other_state };
                proof {
                    assert(!(g.state is Mounted)) by {
                        if g.state is Mounted {
                            assert(insts_of(VNode::Comp(g)).len() == 1);
                        }
                    }
                    assert(out == g);
                    assert(nodes_of(VNode::Comp(out)) == Seq::<u64>::empty());
                    assert(insts_of(VNode::Comp(out)) == Seq::<u64>::empty());
                }
                (out, None)
            },
        }
    }

    /// Detach this component node: the state becomes `Detached` whatever it
    /// was; if it was `Mounted`, the teardown action runs, the occupied
    /// node leaves the host tree, and its former next sibling is returned.
    pub fn detach(self, tree: &mut HostTree, rt: &mut Runtime) -> (r: (VComp, Option<u64>))
        requires
            detach_pre(VNode::Comp(self), *old(tree), *old(rt)),
        ensures
            detach_post(VNode::Comp(self), *old(tree), *old(rt), *final(tree), *final(rt), r.1),
            r.0.state is Detached,
            r.0.type_id == self.type_id,
            !(self.state is Mounted) ==> r.1 == None::<u64> && *final(tree) == *old(tree) && *final(rt) == *old(rt),
            self.state matches MountState::Mounted(m) ==> exists|i: int|
                0 <= i < old(tree).order().len() && #[trigger] old(tree).order()[i]
                    == m.node_ref.node.unwrap() && final(tree).order() == old(tree).order().remove(i) && r.1 == (if i + 1 < old(tree).order().len() {
                    Some(old(tree).order()[i + 1])
                } else {
                    None
                }),
    {
        let ghost g = self;
        let VComp { type_id, scope_holder, state } = self;
        match state {
            MountState::Mounted(m) => {
                proof {
                    assert(insts_of(VNode::Comp(g)) == seq![m.instance]);
                    assert(seq![m.instance][0] == m.instance);
                    assert(insts_of(VNode::Comp(g)).contains(m.instance));
                    assert(rt.live_ids().contains(m.instance));
                    assert(nodes_of(VNode::Comp(g)) == seq![m.node_ref.node.unwrap()]);
                    assert(seq![m.node_ref.node.unwrap()][0] == m.node_ref.node.unwrap());
                    assert(nodes_of(VNode::Comp(g)).contains(m.node_ref.node.unwrap()));
                    assert(tree.order().contains(m.node_ref.node.unwrap()));
                }
                rt.destroy(m.instance);
                let node = m.node_ref.node.unwrap();
                let sib = tree.next_sibling(node);
                let ghost mid = *tree;
                tree.remove_child(node);
                proof {
                    let i = choose|i: int|
                        0 <= i < old(tree).order().len() && #[trigger] old(tree).order()[i] == node
                            && sib == (if i + 1 < old(tree).order().len() {
                            Some(old(tree).order()[i + 1])
                        } else {
                            None
                        });
                    let i2 = choose|i2: int|
                        0 <= i2 < mid.order().len() && mid.order()[i2] == node && tree.order()
                            == mid.order().remove(i2);
                    assert(i2 == i);
                    if i + 1 < old(tree).order().len() {
                        assert(old(tree).order()[i + 1] != node);
                        assert(tree.order().contains(old(tree).order()[i + 1]));
                    }
                    assert forall|x: u64| nodes_of(VNode::Comp(g)).contains(x) implies !tree
                        .order().contains(x) by {
                        assert(x == node);
                    }
                    assert(insts_of(VNode::Comp(g)).len() == 1);
                    assert forall|x: u64| insts_of(VNode::Comp(g)).contains(x) implies !rt
                        .live_ids().contains(x) by {
                        assert(x == m.instance);
                    }
                }
                (VComp { type_id, scope_holder, state: MountState::Detached }, sib)
            },
            _ => {
                proof {
                    assert(!(g.state is Mounted));
                    assert(nodes_of(VNode::Comp(g)) == Seq::<u64>::empty());
                    assert(insts_of(VNode::Comp(g)) == Seq::<u64>::empty());
                }
                (VComp { type_id, scope_holder, state: MountState::Detached }, None)
            },
        }
    }
}

/// A virtual child component: the parent-facing declaration of a component
/// embedding, before it is erased into a `VComp`.
pub struct VChild {
    /// The kind token of the child component implementation.
    pub kind: u64,
    /// The component properties.
    pub props: u64,
    /// The parent component scope holder.
    pub scope: ScopeHolder,
    /// Reference to the mounted node.
    pub node_ref: NodeRef,
}

impl VChild {
    /// Creates a child component that can be accessed and modified by its
    /// parent.
    pub fn new(kind: u64, props: u64, scope: ScopeHolder, node_ref: NodeRef) -> (c: Self)
        ensures
            c.kind == kind && c.props == props && c.scope == scope && c.node_ref == node_ref,
    {
        VChild { kind, props, scope, node_ref }
    }

    /// Erase the child into a component node of its kind.
    pub fn into_vcomp(self) -> (c: VComp)
        ensures
            c.type_id == self.kind,
            c.scope_holder == self.scope,
            c.state matches MountState::Unmounted(u) && u.kind == self.kind && u.props
                == self.props && u.node_ref == self.node_ref,
            crate::vnode::node_wf(VNode::Comp(c)),
            crate::vnode::unapplied(VNode::Comp(c)),
    {
        VComp::new(self.kind, self.props, self.scope, self.node_ref)
    }
}

/// Two component nodes are equal when they embed the same component kind.
impl PartialEq for VComp {
    fn eq(&self, other: &VComp) -> (r: bool) {
        self.type_id == other.type_id
    }
}

impl vstd::std_specs::cmp::PartialEqSpecImpl for VComp {
    open spec fn obeys_eq_spec() -> bool {
        true
    }

    open spec fn eq_spec(&self, other: &VComp) -> bool {
        self.type_id == other.type_id
    }
}

/// A child declaration erases into a component node of its kind.
impl From<VChild> for VComp {
    fn from(vchild: VChild) -> (c: VComp) {
        VComp::new(vchild.kind, vchild.props, vchild.scope, vchild.node_ref)
    }
}

impl vstd::std_specs::convert::FromSpecImpl<VChild> for VComp {
    open spec fn obeys_from_spec() -> bool {
        true
    }

    open spec fn from_spec(vchild: VChild) -> VComp {
        VComp {
            type_id: vchild.kind,
            scope_holder: vchild.scope,
            state: MountState::Unmounted(
                Unmounted {
                    kind: vchild.kind,
                    props: vchild.props,
                    node_ref: vchild.node_ref,
                },
            ),
        }
    }
}

/// Transforms properties and attaches a parent scope holder to callbacks
/// for sending messages.  Each instance states what it returns through
/// `transform_spec`.
pub trait Transformer<FROM, TO> {
    /// What this instance's conversion returns.
    spec fn transform_spec(from: FROM, to: TO) -> bool;

    /// Transforms one type to another.
    fn transform(scope_holder: &ScopeHolder, from: FROM) -> (to: TO)
        ensures
            Self::transform_spec(from, to);
}

/// Identity: any value passes through unchanged.
impl<T> Transformer<T, T> for VComp {
    open spec fn transform_spec(from: T, to: T) -> bool {
        to == from
    }

    fn transform(_scope_holder: &ScopeHolder, from: T) -> (to: T) {
        from
    }
}

/// A borrowed value is cloned into an owned value.
impl<'a, T: Clone> Transformer<&'a T, T> for VComp {
    open spec fn transform_spec(from: &'a T, to: T) -> bool {
        vstd::pervasive::cloned(*from, to)
    }

    fn transform(_scope_holder: &ScopeHolder, from: &'a T) -> (to: T) {
        from.clone()
    }
}

/// Borrowed text is copied into an owned string.
impl<'a> Transformer<&'a str, String> for VComp {
    open spec fn transform_spec(from: &'a str, to: String) -> bool {
        to@ == from@
    }

    fn transform(_scope_holder: &ScopeHolder, from: &'a str) -> (to: String) {
        from.to_owned()
    }
}

/// A plain event-to-message function is wrapped into a deferred callback.
impl<F: Fn(u64) -> u64> Transformer<F, crate::scope::Callback<F>> for VComp {
    open spec fn transform_spec(from: F, to: crate::scope::Callback<F>) -> bool {
        to.wrap == from
    }

    fn transform(_scope_holder: &ScopeHolder, from: F) -> (to: crate::scope::Callback<F>) {
        crate::scope::Callback { wrap: from }
    }
}

/// Optional-wrapping variant of the callback transformer.
impl<F: Fn(u64) -> u64> Transformer<F, Option<crate::scope::Callback<F>>> for VComp {
    open spec fn transform_spec(from: F, to: Option<crate::scope::Callback<F>>) -> bool {
        to matches Some(cb) && cb.wrap == from
    }

    fn transform(_scope_holder: &ScopeHolder, from: F) -> (to: Option<crate::scope::Callback<F>>) {
        Some(crate::scope::Callback { wrap: from })
    }
}

} // verus!
