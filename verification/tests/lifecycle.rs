use vdom::host::HostTree;
use vdom::runtime::{Instance, Runtime};
use vdom::scope::{Scope, ScopeHolder};
use vdom::vcomp::{MountState, NodeRef, VComp};
use vdom::vnode::VNode;

fn mounted_parts(c: &VComp) -> (u64, u64) {
    match &c.state {
        MountState::Mounted(m) => (m.node_ref.node.unwrap(), m.instance),
        _ => panic!("component is not mounted"),
    }
}

#[test]
fn fresh_mount_appends_one_node_and_instance() {
    let mut tree = HostTree::new();
    let mut rt = Runtime::new();
    let scope = Scope { id: 1 };
    let comp = VComp::new(1, 10, ScopeHolder::new(), NodeRef::new());
    let (comp, ret) = comp.apply(&mut tree, &mut rt, None, None, &scope);
    let (node, inst) = mounted_parts(&comp);
    assert_eq!(ret, Some(node));
    assert_eq!(tree.children, vec![node]);
    assert_eq!(rt.instances, vec![Instance { id: inst, kind: 1, props: 10 }]);
    assert!(comp.scope_holder.sender.is_some());
}

#[test]
fn reuse_same_kind_keeps_instance_and_updates_props() {
    let mut tree = HostTree::new();
    let mut rt = Runtime::new();
    let scope = Scope { id: 1 };
    let old = VComp::new(4, 10, ScopeHolder::new(), NodeRef::new());
    let (old, _) = old.apply(&mut tree, &mut rt, None, None, &scope);
    let (old_node, old_inst) = mounted_parts(&old);

    let newer = VComp::new(4, 77, ScopeHolder::new(), NodeRef::new());
    let (newer, ret) = newer.apply(&mut tree, &mut rt, None, Some(VNode::Comp(old)), &scope);
    let (new_node, new_inst) = mounted_parts(&newer);

    // Same instance, same host node, no teardown: the payload moved.
    assert_eq!(new_inst, old_inst);
    assert_eq!(new_node, old_node);
    assert_eq!(ret, Some(old_node));
    assert_eq!(tree.children, vec![old_node]);
    assert_eq!(rt.instances, vec![Instance { id: old_inst, kind: 4, props: 77 }]);
}

#[test]
fn kind_change_tears_down_and_mounts_fresh() {
    let mut tree = HostTree::new();
    let mut rt = Runtime::new();
    let scope = Scope { id: 1 };
    let old = VComp::new(4, 10, ScopeHolder::new(), NodeRef::new());
    let (old, _) = old.apply(&mut tree, &mut rt, None, None, &scope);

    let newer = VComp::new(5, 50, ScopeHolder::new(), NodeRef::new());
    let (newer, _) = newer.apply(&mut tree, &mut rt, None, Some(VNode::Comp(old)), &scope);
    let (_, new_inst) = mounted_parts(&newer);

    // Exactly one instance of the new kind is live; the old one is gone.
    assert_eq!(rt.instances, vec![Instance { id: new_inst, kind: 5, props: 50 }]);
    assert_eq!(tree.children.len(), 1);
}

#[test]
fn detach_runs_teardown_and_removes_node() {
    let mut tree = HostTree::new();
    let mut rt = Runtime::new();
    let scope = Scope { id: 1 };
    let comp = VComp::new(2, 9, ScopeHolder::new(), NodeRef::new());
    let (comp, _) = comp.apply(&mut tree, &mut rt, None, None, &scope);
    let (detached, splice) = comp.detach(&mut tree, &mut rt);
    assert!(matches!(detached.state, MountState::Detached));
    assert_eq!(splice, None);
    assert!(tree.children.is_empty());
    assert!(rt.instances.is_empty());
}

#[test]
fn apply_then_detach_round_trips_and_reapplies_identically() {
    let mut tree = HostTree::new();
    let mut rt = Runtime::new();
    let scope = Scope { id: 1 };
    let anchor = tree.create_text_node();
    tree.append_child(anchor);
    let before = tree.children.clone();

    let comp = VComp::new(3, 30, ScopeHolder::new(), NodeRef::new());
    let (comp, _) = comp.apply(&mut tree, &mut rt, Some(anchor), None, &scope);
    let after_apply = tree.children.clone();
    let (_, _) = comp.detach(&mut tree, &mut rt);
    assert_eq!(tree.children, before);
    assert!(rt.instances.is_empty());

    // Applying an equal fresh node again succeeds identically.
    let again = VComp::new(3, 30, ScopeHolder::new(), NodeRef::new());
    let (again, _) = again.apply(&mut tree, &mut rt, Some(anchor), None, &scope);
    assert_eq!(tree.children, after_apply);
    let (_, inst) = mounted_parts(&again);
    assert_eq!(rt.instances, vec![Instance { id: inst, kind: 3, props: 30 }]);
}

#[test]
fn detached_node_applies_as_no_op() {
    let mut tree = HostTree::new();
    let mut rt = Runtime::new();
    let scope = Scope { id: 1 };
    let comp = VComp::new(2, 9, ScopeHolder::new(), NodeRef::new());
    let (comp, _) = comp.apply(&mut tree, &mut rt, None, None, &scope);
    let (detached, _) = comp.detach(&mut tree, &mut rt);
    let snapshot = tree.children.clone();
    let (resolved, ret) = detached.apply(&mut tree, &mut rt, None, None, &scope);
    assert_eq!(ret, None);
    assert!(matches!(resolved.state, MountState::Detached));
    assert_eq!(tree.children, snapshot);
}

#[test]
fn detach_of_unmounted_node_changes_nothing() {
    let mut tree = HostTree::new();
    let mut rt = Runtime::new();
    let comp = VComp::new(2, 9, ScopeHolder::new(), NodeRef::new());
    let (detached, splice) = comp.detach(&mut tree, &mut rt);
    assert!(matches!(detached.state, MountState::Detached));
    assert_eq!(splice, None);
    assert!(tree.children.is_empty());
    assert!(rt.instances.is_empty());
}

#[test]
fn detach_returns_next_sibling_as_splice_point() {
    let mut tree = HostTree::new();
    let mut rt = Runtime::new();
    let scope = Scope { id: 1 };
    let comp = VComp::new(2, 9, ScopeHolder::new(), NodeRef::new());
    let (comp, ret) = comp.apply(&mut tree, &mut rt, None, None, &scope);
    let sibling = tree.create_text_node();
    tree.append_child(sibling);
    assert_eq!(tree.children, vec![ret.unwrap(), sibling]);
    let (_, splice) = comp.detach(&mut tree, &mut rt);
    assert_eq!(splice, Some(sibling));
    assert_eq!(tree.children, vec![sibling]);
}
