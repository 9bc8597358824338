//! An in-process chat-room primitive: a named group of participants that can
//! receive broadcast or directed messages.
//!
//! The core is the room's membership registry and its dispatch logic. A
//! [`room::Room`] owns an ordered membership list and delivers messages to
//! one or to all current members; callers that run concurrently are expected
//! to serialize their access through exclusive borrows, which is what the
//! `&mut self` signatures of the mutating operations express. Participants
//! and messages are abstract capabilities the room consumes: see
//! [`participant::Participant`] and [`message::Message`].

pub mod membership;
pub mod message;
pub mod participant;
pub mod room;
