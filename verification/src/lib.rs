//! Core of a single-room chat client.
//!
//! The crate has two parts: [`codec`], the wire-format grammar with encoders
//! and a parser proved against it, and [`session`], the synchronizer that
//! owns the roster and the message history and reconciles them from the
//! inbound frame stream while producing outbound frames from user intents.
//! Connection handling and rendering are collaborators outside this crate:
//! they hand raw frame text in and carry encoded frame text out.

pub mod codec;
pub mod session;
