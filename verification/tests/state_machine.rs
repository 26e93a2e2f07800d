use pg_wire::wire::QUERY;
use pg_wire::{CommandMessage, MessageDecoder, MessageFormatError, MessageFormatErrorKind, Status};

const QUERY_STRING: &str = "select * from t\0";
const QUERY_BYTES: &[u8] = QUERY_STRING.as_bytes();
const LEN: i32 = QUERY_STRING.len() as i32;

/// The types of this catalogue.
#[derive(Debug, PartialEq)]
enum PgType {
    Integer,
}

fn from_oid(oid: u32) -> Result<Option<PgType>, u32> {
    match oid {
        0 => Ok(None),
        23 => Ok(Some(PgType::Integer)),
        other => Err(other),
    }
}

#[test]
fn request_message_tag() {
    let mut decoder = MessageDecoder::default();

    assert_eq!(decoder.next_stage(None, from_oid), Ok(Status::Requesting(1)));
}

#[test]
fn no_message_tag() {
    let mut decoder = MessageDecoder::default();

    decoder.next_stage(None, from_oid).expect("proceed to the next stage");
    assert_eq!(
        decoder.next_stage(Some(&[]), from_oid),
        Err(MessageFormatError::from(MessageFormatErrorKind::MissingMessageTag))
    );
}

#[test]
fn request_message_len() {
    let mut decoder = MessageDecoder::default();

    decoder.next_stage(None, from_oid).expect("proceed to the next stage");
    assert_eq!(decoder.next_stage(Some(&[QUERY]), from_oid), Ok(Status::Requesting(4)));
}

#[test]
fn request_message_payload() {
    let mut decoder = MessageDecoder::default();

    decoder.next_stage(None, from_oid).expect("proceed to the next stage");
    decoder.next_stage(Some(&[QUERY]), from_oid).expect("proceed to the next stage");
    assert_eq!(
        decoder.next_stage(Some(&LEN.to_be_bytes()), from_oid),
        Ok(Status::Requesting((LEN - 4) as usize))
    );
}

#[test]
fn decoding_message() {
    let mut decoder = MessageDecoder::default();

    decoder.next_stage(None, from_oid).expect("proceed to the next stage");
    decoder.next_stage(Some(&[QUERY]), from_oid).expect("proceed to the next stage");
    decoder
        .next_stage(Some(&LEN.to_be_bytes()), from_oid)
        .expect("proceed to the next stage");

    assert_eq!(
        decoder.next_stage(Some(QUERY_BYTES), from_oid),
        Ok(Status::Done(CommandMessage::Query {
            sql: "select * from t".to_owned()
        }))
    );
}

#[test]
fn full_cycle() {
    let mut decoder = MessageDecoder::default();

    decoder.next_stage(None, from_oid).expect("proceed to the next stage");
    decoder.next_stage(Some(&[QUERY]), from_oid).expect("proceed to the next stage");
    decoder
        .next_stage(Some(&LEN.to_be_bytes()), from_oid)
        .expect("proceed to the next stage");

    decoder
        .next_stage(Some(QUERY_BYTES), from_oid)
        .expect("proceed to the next stage");

    assert_eq!(decoder.next_stage(None, from_oid), Ok(Status::Requesting(1)));
}
