//! What each command of the chat decides, from plain values to the reply.

pub mod challenge;
pub mod event;
pub mod quest;
