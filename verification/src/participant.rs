//! The participant capability a room depends on.
//!
//! A room never owns participant state beyond what it needs for dispatch: a
//! participant is anything with a stable numeric identity, a reference
//! identity that tells two handles apart even when they wrap the same
//! underlying user, and a `receive` capability that accepts one message.
//!
//! Two distinct handles may carry the same `student_id`; the room removes
//! and addresses members by *reference* identity, so such handles are
//! distinct members. The reference identity is modeled as a plain number
//! (`rid`) that the transport layer hands out, one per live handle, playing
//! the role a pointer comparison plays for shared heap handles.

use vstd::prelude::*;

use crate::message::Message;

verus! {

/// The capability a concrete chat endpoint must satisfy to join a room.
pub trait Participant: Sized {
    /// The stable numeric identity (student id) of the underlying user.
    spec fn sid(&self) -> u64;

    /// The reference identity of this handle: two handles are the same
    /// member exactly when their `rid`s are equal, even if their `sid`s
    /// coincide.
    spec fn rid(&self) -> u64;

    /// The sequence of messages delivered to this handle so far, oldest
    /// first.
    spec fn inbox(&self) -> Seq<Message>;

    /// Report the stable numeric identity.
    fn student_id(&self) -> (r: u64)
        ensures
            r == self.sid(),
    ;

    /// Decide whether `other` is the same handle as `self`.
    fn same_ref(&self, other: &Self) -> (r: bool)
        ensures
            r == (self.rid() == other.rid()),
    ;

    /// Deliver one message to this participant. The delivery extends the
    /// inbox by exactly that message and changes neither identity.
    fn receive(&mut self, m: &Message)
        ensures
            final(self).inbox() == old(self).inbox().push(*m),
            final(self).sid() == old(self).sid(),
            final(self).rid() == old(self).rid(),
    ;
}

/// An in-process participant that keeps every delivered message in a
/// buffer, in delivery order. It serves as the crate's own concrete
/// endpoint; a transport-backed endpoint would implement [`Participant`]
/// the same way with its socket write in `receive`.
pub struct LocalParticipant {
    handle: u64,
    id: u64,
    received: Vec<Message>,
}

impl LocalParticipant {
    /// Create a fresh handle with the given reference identity and user
    /// identity and an empty inbox.
    pub fn new(handle: u64, id: u64) -> (p: LocalParticipant)
        ensures
            p.rid() == handle,
            p.sid() == id,
            p.inbox() == Seq::<Message>::empty(),
    {
        LocalParticipant { handle, id, received: Vec::new() }
    }

    /// The messages delivered so far, oldest first.
    pub fn received(&self) -> (r: &Vec<Message>)
        ensures
            r@ == self.inbox(),
    {
        &self.received
    }
}

impl Participant for LocalParticipant {
    closed spec fn sid(&self) -> u64 {
        self.id
    }

    closed spec fn rid(&self) -> u64 {
        self.handle
    }

    closed spec fn inbox(&self) -> Seq<Message> {
        self.received@
    }

    fn student_id(&self) -> u64 {
        self.id
    }

    fn same_ref(&self, other: &Self) -> bool {
        self.handle == other.handle
    }

    fn receive(&mut self, m: &Message) {
        self.received.push(*m);
    }
}

} // verus!
