//! Message values consumed by a room.
//!
//! A room never inspects a message: it only ferries the value to the
//! participants that should receive it. The `kind` discriminator exists for
//! the callers outside the room that classify traffic, and the payload is an
//! opaque datum the room does not interpret.

use vstd::prelude::*;

verus! {

/// The closed set of classifications a message can carry.
///
/// The room does not branch on the kind at all; it is carried for the
/// benefit of callers.
#[derive(Clone, Copy, PartialEq, Eq, Structural, Debug)]
pub enum MessageKind {
    Text,
    Image,
    Gif,
    Video,
    Emoji,
}

/// A message: a kind discriminator plus an opaque payload datum.
///
/// The payload is modeled as a plain number standing for whatever content a
/// transport layer attaches; the room's contracts only ever compare whole
/// messages for equality, so the model loses nothing the room can observe.
#[derive(Clone, Copy, PartialEq, Eq, Structural, Debug)]
pub struct Message {
    pub kind: MessageKind,
    pub payload: u64,
}

} // verus!
