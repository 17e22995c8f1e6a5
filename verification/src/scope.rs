//! The scope holder and deferred callbacks.
//!
//! A child's callbacks must reach the parent's message sender, which does
//! not exist yet when the child node is declared.  The holder is therefore
//! a lazily populated single-assignment cell: created empty, written when
//! the child's generator runs, read on every callback invocation.  A
//! callback that fires before population is a fatal contract violation and
//! is surfaced as an error, never dropped silently.

use vstd::prelude::*;

verus! {

/// A handle on a parent component's message sender.
#[derive(Clone, Copy, PartialEq, Eq, Structural, Debug)]
pub struct Scope {
    /// The identity of the sender.
    pub id: u64,
}

/// The message queue of the embedding, keyed by sender identity: the
/// destination that a sender's `send` reaches.
pub struct Mailbox {
    /// The delivered messages, each tagged with the sender it went through.
    pub messages: Vec<(u64, u64)>,
}

impl Mailbox {
    /// The delivered messages.
    pub open spec fn delivered(self) -> Seq<(u64, u64)> {
        self.messages@
    }

    /// An empty mailbox.
    pub fn new() -> (m: Self)
        ensures
            m.delivered() == Seq::<(u64, u64)>::empty(),
    {
        Mailbox { messages: Vec::new() }
    }
}

/// The fatal conditions a callback invocation can surface.
#[derive(Clone, Copy, PartialEq, Eq, Structural, Debug)]
pub enum ActivationError {
    /// The callback fired before the owning component's scope holder was
    /// populated: the parent has not finished mounting the child.
    NotYetActivated,
}

/// A lazily populated, single-assignment reference to the parent's sender.
pub struct ScopeHolder {
    /// The held sender; `None` until the owning node's generator runs.
    pub sender: Option<Scope>,
}

impl ScopeHolder {
    /// Whether the holder has been populated.
    pub open spec fn populated(self) -> bool {
        self.sender is Some
    }

    /// The sender the holder was populated with.
    pub open spec fn sender_of(self) -> Scope
        recommends
            self.populated(),
    {
        self.sender.unwrap()
    }

    /// A holder that is still empty: the child is declared, not mounted.
    pub fn new() -> (h: Self)
        ensures
            !h.populated(),
    {
        ScopeHolder { sender: None }
    }

    /// Populate the holder; done exactly when the owning node's generator
    /// runs (on mount or on reuse).
    pub fn populate(&mut self, sender: Scope)
        ensures
            final(self).populated(),
            final(self).sender_of() == sender,
    {
        self.sender = Some(sender);
    }

    /// Route a message through the held sender, if any.
    pub fn send(&self, msg: u64, mailbox: &mut Mailbox) -> (r: Result<(), ActivationError>)
        ensures
            self.populated() ==> r == Ok::<(), ActivationError>(()) && final(mailbox).delivered()
                == old(mailbox).delivered().push((self.sender_of().id, msg)),
            !self.populated() ==> r == Err::<(), ActivationError>(
                ActivationError::NotYetActivated,
            ) && final(mailbox).delivered() == old(mailbox).delivered(),
    {
        match &self.sender {
            Some(s) => {
                mailbox.messages.push((s.id, msg));
                Ok(())
            },
            None => Err(ActivationError::NotYetActivated),
        }
    }
}

/// A deferred-binding callback: wraps a plain function from a child event
/// payload to a parent message, bound to the parent's sender only at
/// invocation time, through the scope holder.
pub struct Callback<F> {
    /// The wrapped event-to-message function.
    pub wrap: F,
}

impl<F: Fn(u64) -> u64> Callback<F> {
    /// Invoke the callback: produce the message, then enqueue it through
    /// the holder.  An empty holder is the fatal "not yet activated"
    /// condition.
    pub fn emit(&self, holder: &ScopeHolder, event: u64, mailbox: &mut Mailbox) -> (r: Result<
        (),
        ActivationError,
    >)
        requires
            call_requires(self.wrap, (event,)),
        ensures
            holder.populated() ==> r == Ok::<(), ActivationError>(()) && exists|m: u64|
                #[trigger] call_ensures(self.wrap, (event,), m) && final(mailbox).delivered()
                    == old(mailbox).delivered().push((holder.sender_of().id, m)),
            !holder.populated() ==> r == Err::<(), ActivationError>(
                ActivationError::NotYetActivated,
            ) && final(mailbox).delivered() == old(mailbox).delivered(),
    {
        let msg = (self.wrap)(event);
        holder.send(msg, mailbox)
    }
}

} // verus!
