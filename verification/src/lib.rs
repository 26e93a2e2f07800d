//! Decoder of the messages that a PostgreSQL client sends to a server.
//!
//! [`MessageDecoder`] is a state machine that never does input or output itself.
//! It tells its caller how many bytes to read next, takes those bytes, and after the
//! tag, the length and the payload of a message hands the decoded
//! [`CommandMessage`] out.
//!
//! * `wire` says, on sequences of bytes, what each field and each message is.
//! * `cursor` reads the fields of a buffer.
//! * `message_decoder` holds the state machine and the reading of whole messages.
//! * `grammar` states which payloads are which messages, and which are refused for what.
//! * `stages` states what the state machine does at each of its stages.
//! * `models` states what the models of messages and statuses keep of them.
//! * `laws` states what holds of the protocol as a whole: what a decoder gives back of
//!   a frame, that a message cut short is refused, and that bytes behind a message do not
//!   matter.
pub mod catalogue;
mod cursor;
pub mod errors;
pub mod formats;
pub mod frontend;
pub mod grammar;
pub mod laws;
pub mod message_decoder;
pub mod models;
pub mod stages;
pub mod wire;

pub use crate::errors::{MessageFormatError, MessageFormatErrorKind};
pub use crate::formats::PgFormat;
pub use crate::frontend::CommandMessage;
pub use crate::message_decoder::{MessageDecoder, MessageDecoderStatus, Status};
