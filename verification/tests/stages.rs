use pg_wire::wire::QUERY;
use pg_wire::{
    MessageDecoder, MessageDecoderStatus, MessageFormatError, MessageFormatErrorKind, Status,
};

/// The types of this catalogue.
#[derive(Debug, PartialEq)]
enum PgType {
    Integer,
}

fn from_oid(oid: u32) -> Result<Option<PgType>, u32> {
    match oid {
        0 => Ok(None),
        23 => Ok(Some(PgType::Integer)),
        other => Err(other),
    }
}

/// A decoder that waits for the length of a query.
fn waiting_for_length() -> MessageDecoder {
    let mut decoder = MessageDecoder::new();
    assert_eq!(decoder.next_stage(None, from_oid), Ok(MessageDecoderStatus::Requesting(1)));
    assert_eq!(decoder.next_stage(Some(&[QUERY, 1, 2]), from_oid), Ok(Status::Requesting(4)));
    decoder
}

#[test]
fn no_payload_is_an_empty_payload() {
    let mut decoder = MessageDecoder::new();
    assert_eq!(decoder.next_stage(Some(&[1, 2, 3]), from_oid), Ok(Status::Requesting(1)));
    assert_eq!(
        decoder.next_stage(None, from_oid),
        Err(MessageFormatError::from(MessageFormatErrorKind::MissingMessageTag))
    );
    assert_eq!(decoder.next_stage(None, from_oid), Ok(Status::Requesting(1)));
}

#[test]
fn length_cut_short_leaves_the_payload_due() {
    let mut decoder = waiting_for_length();
    assert_eq!(
        decoder.next_stage(Some(&[0, 0, 0]), from_oid),
        Err(MessageFormatError::from(MessageFormatErrorKind::UnexpectedEndOfBuffer))
    );
    assert!(matches!(decoder.next_stage(Some(b"select 1\0"), from_oid), Ok(Status::Done(_))));
    assert_eq!(decoder.next_stage(None, from_oid), Ok(Status::Requesting(1)));
}

#[test]
fn length_counts_itself() {
    for (len, requested) in [
        (4i32, 0usize),
        (5, 1),
        (0x0102_0304, 0x0102_0300),
        (i32::MAX, i32::MAX as usize - 4),
        (3, usize::MAX),
        (0, usize::MAX - 3),
        (-1, -5i32 as usize),
        (i32::MIN + 4, i32::MIN as usize),
    ] {
        let mut decoder = waiting_for_length();
        assert!(decoder.accepts(Some(&len.to_be_bytes())));
        assert_eq!(decoder.next_stage(Some(&len.to_be_bytes()), from_oid), Ok(Status::Requesting(requested)));
    }
}

#[test]
fn lengths_that_cannot_be_reduced_are_not_accepted() {
    let lowest = (i32::MIN + 3).to_be_bytes();
    let decoder = waiting_for_length();
    assert!(!decoder.accepts(Some(&lowest)));
    assert!(!decoder.accepts(Some(&i32::MIN.to_be_bytes())));
    assert!(decoder.accepts(Some(&lowest[..3])));
    assert!(decoder.accepts(None));
    // Elsewhere these bytes are nothing special.
    let mut decoder = MessageDecoder::new();
    assert!(decoder.accepts(Some(&lowest)));
    decoder.next_stage(None, from_oid).unwrap();
    assert!(decoder.accepts(Some(&lowest)));
    decoder.next_stage(Some(&[QUERY]), from_oid).unwrap();
    decoder.next_stage(Some(&8i32.to_be_bytes()), from_oid).unwrap();
    assert!(decoder.accepts(Some(&lowest)));
    assert_eq!(
        decoder.next_stage(Some(&lowest), from_oid),
        Err(MessageFormatError::from(MessageFormatErrorKind::InvalidUtf8String))
    );
}
