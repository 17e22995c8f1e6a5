//! A virtual-node reconciliation engine.
//!
//! The crate keeps an in-memory tree of lightweight virtual nodes
//! synchronized with a host-rendered tree by computing minimal mutations
//! between an old tree and a new one.  The host tree and the component
//! runtime are external collaborators; they are modelled here as plain
//! values (node and instance identifiers) so that the reconciliation
//! logic itself can be verified.

pub mod host;
pub mod runtime;
pub mod scope;
pub mod vnode;
pub mod vcomp;
pub mod vlist;
pub mod laws;
