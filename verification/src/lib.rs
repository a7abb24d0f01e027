//! Decision core of a chat bot that counts the commands it runs and re-encodes
//! video attachments a client cannot preview.
//!
//! The crate performs no I/O. A host program receives the messages, performs
//! downloads, file writes, the encoder process and replies, and asks this
//! library what to do next.
//!
//! - [`router`] decides the path of a message, the hooks that run for it and
//!   what it does to the command counters.
//! - [`counter`] is the store of those counters.
//! - [`attachment`] holds the rule that selects attachments and the names of
//!   their staging files.
//! - [`pipeline`] is the life of one selected attachment, step by step.
//! - [`encoder`] fills the encoder's argument template and reads its exit.
//! - [`say`] is the built-in command.
//! - [`text`] holds helpers on text.

pub mod attachment;
pub mod counter;
pub mod encoder;
pub mod pipeline;
pub mod router;
pub mod say;
pub mod text;
