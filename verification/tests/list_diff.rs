use vdom::host::HostTree;
use vdom::runtime::{Instance, Runtime};
use vdom::scope::{Scope, ScopeHolder};
use vdom::vcomp::{NodeRef, VComp};
use vdom::vlist::VList;
use vdom::vnode::{VNode, VText};

fn comp(kind: u64, props: u64) -> VNode {
    VNode::Comp(VComp::new(kind, props, ScopeHolder::new(), NodeRef::new()))
}

fn text() -> VNode {
    VNode::Text(VText::new())
}

#[test]
fn list_new_and_add_child() {
    let mut l = VList::new(true);
    assert!(l.no_siblings);
    assert_eq!(l.children.len(), 0);
    l.add_child(text());
    l.add_child(text());
    assert_eq!(l.children.len(), 2);
    let d = VList::default();
    assert!(!d.no_siblings);
    assert_eq!(d.children.len(), 0);
}

#[test]
fn longer_new_list_updates_prefix_and_inserts_rest() {
    let mut tree = HostTree::new();
    let mut rt = Runtime::new();
    let scope = Scope { id: 1 };
    let mut old = VList::new(false);
    old.add_child(text());
    let (old, _) = old.apply(&mut tree, &mut rt, None, None, &scope);
    assert_eq!(tree.children.len(), 1);

    let mut newer = VList::new(false);
    newer.add_child(text());
    newer.add_child(text());
    newer.add_child(text());
    let (newer, _) = newer.apply(&mut tree, &mut rt, None, Some(VNode::List(old)), &scope);
    // min(3, 1) = 1 update in place, 2 pure inserts, 0 removals.
    assert_eq!(newer.children.len(), 3);
    assert_eq!(tree.children.len(), 3);
}

#[test]
fn shorter_new_list_detaches_surplus() {
    let mut tree = HostTree::new();
    let mut rt = Runtime::new();
    let scope = Scope { id: 1 };
    let mut old = VList::new(false);
    old.add_child(text());
    old.add_child(text());
    old.add_child(text());
    let (old, _) = old.apply(&mut tree, &mut rt, None, None, &scope);
    assert_eq!(tree.children.len(), 3);

    let mut newer = VList::new(false);
    newer.add_child(text());
    let (newer, _) = newer.apply(&mut tree, &mut rt, None, Some(VNode::List(old)), &scope);
    // min(1, 3) = 1 update in place, 0 inserts, 2 removals.
    assert_eq!(newer.children.len(), 1);
    assert_eq!(tree.children.len(), 1);
}

#[test]
fn empty_list_with_siblings_keeps_one_placeholder() {
    let mut tree = HostTree::new();
    let mut rt = Runtime::new();
    let scope = Scope { id: 1 };
    let empty = VList::new(false);
    let (applied, ret) = empty.apply(&mut tree, &mut rt, None, None, &scope);
    // Exactly one stabilizing child, never zero.
    assert_eq!(applied.children.len(), 1);
    assert_eq!(tree.children.len(), 1);
    assert_eq!(ret, Some(tree.children[0]));

    // Old list `[]`, new list `[]`: the placeholder is present before and
    // after, and the host tree still holds exactly one node.
    let newer = VList::new(false);
    let (newer, _) = newer.apply(&mut tree, &mut rt, None, Some(VNode::List(applied)), &scope);
    assert_eq!(newer.children.len(), 1);
    assert_eq!(tree.children.len(), 1);
}

#[test]
fn empty_list_without_siblings_stays_empty() {
    let mut tree = HostTree::new();
    let mut rt = Runtime::new();
    let scope = Scope { id: 1 };
    let empty = VList::new(true);
    let (applied, ret) = empty.apply(&mut tree, &mut rt, None, None, &scope);
    assert_eq!(applied.children.len(), 0);
    assert_eq!(tree.children.len(), 0);
    assert_eq!(ret, None);
}

#[test]
fn positional_diff_reuses_matching_kind_and_replaces_changed_kind() {
    // Old list [A(kind 1), B(kind 2)], new list [A'(kind 1), C(kind 3)]:
    // position 0 is reused in place, position 1 is torn down and freshly
    // mounted; the final host order is [A, C].
    let mut tree = HostTree::new();
    let mut rt = Runtime::new();
    let scope = Scope { id: 1 };
    let mut old = VList::new(false);
    old.add_child(comp(1, 10));
    old.add_child(comp(2, 20));
    let (old, _) = old.apply(&mut tree, &mut rt, None, None, &scope);
    let a_node = tree.children[0];
    let a_inst = rt.instances[0].id;
    assert_eq!(rt.instances.len(), 2);

    let mut newer = VList::new(false);
    newer.add_child(comp(1, 11));
    newer.add_child(comp(3, 30));
    let (_, _) = newer.apply(&mut tree, &mut rt, None, Some(VNode::List(old)), &scope);

    assert_eq!(tree.children.len(), 2);
    assert_eq!(tree.children[0], a_node);
    assert_eq!(rt.instances.len(), 2);
    // A was reused: same instance, updated properties, no teardown of A.
    assert_eq!(rt.instances[0], Instance { id: a_inst, kind: 1, props: 11 });
    // B was torn down and C freshly mounted.
    assert_eq!(rt.instances[1].kind, 3);
    assert_eq!(rt.instances[1].props, 30);
}

#[test]
fn single_node_ancestor_is_treated_as_one_element_list() {
    let mut tree = HostTree::new();
    let mut rt = Runtime::new();
    let scope = Scope { id: 1 };
    let t = VText::new();
    let (t, _) = t.apply(&mut tree, &mut rt, None, None);
    let old_node = tree.children[0];

    let mut newer = VList::new(false);
    newer.add_child(text());
    newer.add_child(text());
    let (_, _) = newer.apply(&mut tree, &mut rt, None, Some(VNode::Text(t)), &scope);
    // The single ancestor is updated in place; one more node is inserted.
    assert_eq!(tree.children.len(), 2);
    assert_eq!(tree.children[0], old_node);
}

#[test]
fn list_detach_removes_every_child() {
    let mut tree = HostTree::new();
    let mut rt = Runtime::new();
    let scope = Scope { id: 1 };
    let mut l = VList::new(false);
    l.add_child(text());
    l.add_child(comp(1, 5));
    l.add_child(text());
    let (l, _) = l.apply(&mut tree, &mut rt, None, None, &scope);
    assert_eq!(tree.children.len(), 3);
    assert_eq!(rt.instances.len(), 1);
    let splice = l.detach(&mut tree, &mut rt);
    assert_eq!(splice, None);
    assert!(tree.children.is_empty());
    assert!(rt.instances.is_empty());
}

#[test]
fn nested_list_children_reconcile_recursively() {
    let mut tree = HostTree::new();
    let mut rt = Runtime::new();
    let scope = Scope { id: 1 };
    let mut inner = VList::new(false);
    inner.add_child(text());
    inner.add_child(text());
    let mut outer = VList::new(false);
    outer.add_child(VNode::List(inner));
    outer.add_child(text());
    let (outer, _) = outer.apply(&mut tree, &mut rt, None, None, &scope);
    assert_eq!(tree.children.len(), 3);
    let _ = outer.detach(&mut tree, &mut rt);
    assert!(tree.children.is_empty());
}
