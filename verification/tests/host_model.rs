use vdom::host::{lowest_absent, HostTree};
use vdom::runtime::{Instance, Runtime};
use vdom::vnode::VText;

#[test]
fn fresh_identifiers_avoid_attached_nodes() {
    assert_eq!(lowest_absent(&vec![]), 0);
    assert_eq!(lowest_absent(&vec![0, 1, 2]), 3);
    assert_eq!(lowest_absent(&vec![1, 2]), 0);
    assert_eq!(lowest_absent(&vec![0, 2, 3]), 1);
}

#[test]
fn insert_before_and_append_keep_order() {
    let mut tree = HostTree::new();
    let a = tree.create_text_node();
    tree.append_child(a);
    let b = tree.create_text_node();
    tree.append_child(b);
    let c = tree.create_text_node();
    tree.insert_before(c, b);
    assert_eq!(tree.children, vec![a, c, b]);
    assert_eq!(tree.next_sibling(a), Some(c));
    assert_eq!(tree.next_sibling(c), Some(b));
    assert_eq!(tree.next_sibling(b), None);
    assert!(tree.contains(c));
    tree.remove_child(c);
    assert_eq!(tree.children, vec![a, b]);
    assert!(!tree.contains(c));
}

#[test]
fn runtime_mounts_updates_and_destroys() {
    let mut rt = Runtime::new();
    let a = rt.mount(1, 10);
    let b = rt.mount(2, 20);
    assert_ne!(a, b);
    assert_eq!(rt.instances.len(), 2);
    rt.update_properties(a, 11);
    assert_eq!(rt.instances[0], Instance { id: a, kind: 1, props: 11 });
    rt.destroy(a);
    assert_eq!(rt.instances, vec![Instance { id: b, kind: 2, props: 20 }]);
}

#[test]
fn text_node_reuses_ancestor_host_node() {
    let mut tree = HostTree::new();
    let mut rt = Runtime::new();
    let t = VText::new();
    assert_eq!(t.node, None);
    let (t, ret) = t.apply(&mut tree, &mut rt, None, None);
    let node = t.node.unwrap();
    assert_eq!(ret, Some(node));
    assert_eq!(tree.children, vec![node]);

    let newer = VText::new();
    let (newer, ret2) = newer.apply(&mut tree, &mut rt, None, Some(vdom::vnode::VNode::Text(t)));
    assert_eq!(newer.node, Some(node));
    assert_eq!(ret2, Some(node));
    assert_eq!(tree.children, vec![node]);

    let splice = newer.detach(&mut tree, &mut rt);
    assert_eq!(splice, None);
    assert!(tree.children.is_empty());
}
