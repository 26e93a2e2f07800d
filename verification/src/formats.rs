//! Formats of the values that messages carry.
use crate::errors::{MessageFormatError, MessageFormatErrorKind};
use vstd::prelude::*;
use vstd::std_specs::convert::TryFromSpecImpl;

verus! {

/// How a value is written on the wire.
#[derive(Debug, Clone, Copy, PartialEq, Eq)]
pub enum PgFormat {
    /// As text.
    Text,
    /// As the binary representation of its type.
    Binary,
}

/// The format that a code stands for, if it stands for one.
pub open spec fn format_of(code: i16) -> Option<PgFormat> {
    if code == 0 {
        Some(PgFormat::Text)
    } else if code == 1 {
        Some(PgFormat::Binary)
    } else {
        None
    }
}

impl TryFrom<i16> for PgFormat {
    type Error = MessageFormatError;

    fn try_from(code: i16) -> (format: Result<PgFormat, MessageFormatError>) {
        match code {
            0 => Ok(PgFormat::Text),
            1 => Ok(PgFormat::Binary),
            other => Err(
                MessageFormatError::from(MessageFormatErrorKind::UnrecognizedFormat(other)),
            ),
        }
    }
}

impl TryFromSpecImpl<i16> for PgFormat {
    open spec fn obeys_try_from_spec() -> bool {
        true
    }

    open spec fn try_from_spec(code: i16) -> Result<PgFormat, MessageFormatError> {
        match format_of(code) {
            Some(format) => Ok(format),
            None => Err(
                MessageFormatError { kind: MessageFormatErrorKind::UnrecognizedFormat(code) },
            ),
        }
    }
}

} // verus!
