//! Errors of decoding.
use vstd::prelude::*;
use vstd::std_specs::convert::FromSpecImpl;

verus! {

/// What is wrong with the bytes of a message.
#[derive(Debug, Clone, Copy, PartialEq, Eq)]
pub enum MessageFormatErrorKind {
    /// No byte was given where the tag of a message was due.
    MissingMessageTag,
    /// The tag does not start any message that a client may send.
    UnsupportedFrontendMessage(char),
    /// The byte that tells portals from prepared statements is neither `P` nor `S`.
    InvalidTypeByte(char),
    /// The buffer ends before the field that is being read does.
    UnexpectedEndOfBuffer,
    /// A string has no zero byte behind it.
    MissingNullTerminator,
    /// The bytes of a string are not UTF-8.
    InvalidUtf8String,
    /// The code does not stand for any format of values.
    UnrecognizedFormat(i16),
    /// The object identifier does not stand for any supported type.
    UnsupportedOid(u32),
}

/// The error of decoding a message.
#[derive(Debug, Clone, Copy, PartialEq, Eq)]
pub struct MessageFormatError {
    /// What is wrong.
    pub kind: MessageFormatErrorKind,
}

impl From<MessageFormatErrorKind> for MessageFormatError {
    fn from(kind: MessageFormatErrorKind) -> (error: MessageFormatError) {
        MessageFormatError { kind }
    }
}

impl FromSpecImpl<MessageFormatErrorKind> for MessageFormatError {
    open spec fn obeys_from_spec() -> bool {
        true
    }

    open spec fn from_spec(kind: MessageFormatErrorKind) -> MessageFormatError {
        MessageFormatError { kind }
    }
}

} // verus!
