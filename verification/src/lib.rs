//! Core of a chat-style side panel: an append-only transcript of messages,
//! a virtualized bottom-anchored window that maps the transcript onto a
//! bounded visible slice, and the submit pipeline that ties them together.

pub mod message;
pub mod transcript;
pub mod panel;
pub mod window;
