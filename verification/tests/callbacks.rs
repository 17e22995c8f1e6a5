use vdom::scope::{ActivationError, Callback, Mailbox, Scope, ScopeHolder};
use vdom::vcomp::{NodeRef, Transformer, VChild, VComp};
use vdom::vnode::VNode;
use vdom::host::HostTree;
use vdom::runtime::Runtime;

#[test]
fn identity_transform_passes_value_through() {
    let holder = ScopeHolder::new();
    let v: u64 = 42;
    let out: u64 = <VComp as Transformer<u64, u64>>::transform(&holder, v);
    assert_eq!(out, 42);
}

#[test]
fn reference_transform_clones_into_owned() {
    let holder = ScopeHolder::new();
    let v: Vec<u64> = vec![1, 2, 3];
    let out: Vec<u64> = <VComp as Transformer<&Vec<u64>, Vec<u64>>>::transform(&holder, &v);
    assert_eq!(out, v);
}

#[test]
fn str_transform_copies_into_owned_string() {
    let holder = ScopeHolder::new();
    let out: String = <VComp as Transformer<&str, String>>::transform(&holder, "hello");
    assert_eq!(out, "hello".to_string());
}

#[test]
fn callback_fires_only_after_activation() {
    // The transformer wraps a plain event-to-message function; invoking the
    // callback before the owning node's scope is populated surfaces the
    // fatal "not yet activated" condition instead of dropping the message.
    let mut holder = ScopeHolder::new();
    let clicked = |click: u64| click + 100;
    let cb: Callback<_> =
        <VComp as Transformer<_, Callback<_>>>::transform(&holder, clicked);
    let mut mailbox = Mailbox::new();

    let early = cb.emit(&holder, 5, &mut mailbox);
    assert_eq!(early, Err(ActivationError::NotYetActivated));
    assert_eq!(mailbox.messages.len(), 0);

    holder.populate(Scope { id: 9 });
    let late = cb.emit(&holder, 5, &mut mailbox);
    assert_eq!(late, Ok(()));
    assert_eq!(mailbox.messages, vec![(9, 105)]);
}

#[test]
fn optional_callback_transform_behaves_identically() {
    let mut holder = ScopeHolder::new();
    let clicked = |click: u64| click * 2;
    let cb: Option<Callback<_>> =
        <VComp as Transformer<_, Option<Callback<_>>>>::transform(&holder, clicked);
    let cb = cb.expect("the optional variant always wraps a callback");
    let mut mailbox = Mailbox::new();
    assert_eq!(cb.emit(&holder, 3, &mut mailbox), Err(ActivationError::NotYetActivated));
    holder.populate(Scope { id: 2 });
    assert_eq!(cb.emit(&holder, 3, &mut mailbox), Ok(()));
    assert_eq!(mailbox.messages, vec![(2, 6)]);
}

#[test]
fn scope_holder_is_populated_when_the_generator_runs() {
    let mut tree = HostTree::new();
    let mut rt = Runtime::new();
    let scope = Scope { id: 31 };
    let comp = VComp::new(1, 0, ScopeHolder::new(), NodeRef::new());
    assert!(comp.scope_holder.sender.is_none());
    let (comp, _) = comp.apply(&mut tree, &mut rt, None, None, &scope);
    assert_eq!(comp.scope_holder.sender, Some(Scope { id: 31 }));
}

#[test]
fn child_declaration_erases_into_component_node() {
    let child = VChild::new(8, 40, ScopeHolder::new(), NodeRef::new());
    assert_eq!(child.kind, 8);
    assert_eq!(child.props, 40);
    let comp = VComp::from(child);
    assert_eq!(comp.type_id, 8);

    let other = VChild::new(9, 41, ScopeHolder::new(), NodeRef::new());
    assert_eq!(other.into_vcomp().type_id, 9);

    let mut tree = HostTree::new();
    let mut rt = Runtime::new();
    let (_, ret) = comp.apply(&mut tree, &mut rt, None, None, &Scope { id: 1 });
    assert!(ret.is_some());
    assert_eq!(rt.instances[0].kind, 8);
    assert_eq!(rt.instances[0].props, 40);
    let _ = VNode::Comp(VComp::new(8, 40, ScopeHolder::new(), NodeRef::new()));
}

#[test]
fn component_nodes_compare_by_kind() {
    let a = VComp::new(8, 1, ScopeHolder::new(), NodeRef::new());
    let b = VComp::new(8, 2, ScopeHolder::new(), NodeRef::new());
    let c = VComp::new(9, 1, ScopeHolder::new(), NodeRef::new());
    assert!(a == b);
    assert!(a != c);
}
