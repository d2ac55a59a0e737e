use tokio::sync::mpsc::UnboundedSender;
use vstd::prelude::*;

verus! {

#[verifier::external_type_specification]
#[verifier::external_body]
#[verifier::reject_recursive_types(T)]
pub struct ExUnboundedSender<T>(tokio::sync::mpsc::UnboundedSender<T>);

/// One connection's outbound queue handle, with a record of every frame it
/// was offered and every frame its queue accepted. Only `new` and `send` set
/// that record.
pub struct Outbox {
    sender: UnboundedSender<String>,
    offered: Ghost<Seq<Seq<char>>>,
    accepted: Ghost<Seq<Seq<char>>>,
}

impl Outbox {
    /// The frames offered to this handle, oldest first.
    pub closed spec fn offered(self) -> Seq<Seq<char>> {
        self.offered@
    }

    /// The frames this handle's queue accepted, oldest first.
    pub closed spec fn accepted(self) -> Seq<Seq<char>> {
        self.accepted@
    }

    /// The queue this handle feeds.
    pub closed spec fn sender(self) -> UnboundedSender<String> {
        self.sender
    }

    /// A handle on `sender` that has been offered nothing yet.
    pub closed spec fn fresh(sender: UnboundedSender<String>) -> Outbox {
        Outbox { sender, offered: Ghost(Seq::empty()), accepted: Ghost(Seq::empty()) }
    }

    /// This handle after `frame` was offered to it, accepted exactly when `ok`.
    pub closed spec fn after_offer(self, frame: Seq<char>, ok: bool) -> Outbox {
        Outbox {
            sender: self.sender,
            offered: Ghost(self.offered@.push(frame)),
            accepted: Ghost(
                if ok {
                    self.accepted@.push(frame)
                } else {
                    self.accepted@
                },
            ),
        }
    }

    pub proof fn lemma_fresh(sender: UnboundedSender<String>)
        ensures
            Outbox::fresh(sender).offered() == Seq::<Seq<char>>::empty(),
            Outbox::fresh(sender).accepted() == Seq::<Seq<char>>::empty(),
            Outbox::fresh(sender).sender() == sender,
    {
    }

    pub proof fn lemma_after_offer(self, frame: Seq<char>, ok: bool)
        ensures
            self.after_offer(frame, ok).offered() == self.offered().push(frame),
            self.after_offer(frame, ok).accepted() == if ok {
                self.accepted().push(frame)
            } else {
                self.accepted()
            },
            self.after_offer(frame, ok).sender() == self.sender(),
    {
    }

    /// A handle on `sender`.
    pub fn new(sender: UnboundedSender<String>) -> (r: Outbox)
        ensures
            r == Outbox::fresh(sender),
    {
        Outbox { sender, offered: Ghost(Seq::empty()), accepted: Ghost(Seq::empty()) }
    }

    /// Relies on tokio's `UnboundedSender::send`: it puts the frame at the back
    /// of the receiver's FIFO queue without waiting, and fails only when the
    /// receiving half has been closed or dropped. `true` means it was queued.
    #[verifier::external_body]
    pub fn send(&mut self, frame: String) -> (ok: bool)
        ensures
            *final(self) == old(self).after_offer(frame@, ok),
    {
        self.sender.send(frame).is_ok()
    }
}

} // verus!
