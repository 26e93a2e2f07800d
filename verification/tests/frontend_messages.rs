use pg_wire::wire::{
    BIND, CLOSE, DESCRIBE, EXECUTE, FLUSH, PARSE, QUERY, SYNC, TERMINATE,
};
use pg_wire::{
    CommandMessage, MessageDecoder, MessageFormatError, MessageFormatErrorKind, PgFormat, Status,
};

const QUERY_STRING: &str = "select * from t\0";
const LEN: i32 = QUERY_STRING.len() as i32;

/// The types of this catalogue.
#[derive(Debug, PartialEq)]
enum PgType {
    Integer,
}

fn from_oid(oid: u32) -> Result<Option<PgType>, u32> {
    match oid {
        0 => Ok(None),
        23 => Ok(Some(PgType::Integer)),
        other => Err(other),
    }
}

#[test]
fn query() {
    let buffer = [
        99, 114, 101, 97, 116, 101, 32, 115, 99, 104, 101, 109, 97, 32, 115, 99, 104, 101, 109, 97, 95, 110,
        97, 109, 101, 59, 0,
    ];
    let mut decoder = MessageDecoder::default();

    decoder.next_stage(None, from_oid).expect("proceed to the next stage");
    decoder.next_stage(Some(&[QUERY]), from_oid).expect("proceed to the next stage");
    decoder
        .next_stage(Some(&LEN.to_be_bytes()), from_oid)
        .expect("proceed to the next stage");

    assert_eq!(
        decoder.next_stage(Some(&buffer), from_oid),
        Ok(Status::Done(CommandMessage::Query {
            sql: "create schema schema_name;".to_owned()
        }))
    );
}

#[test]
fn bind() {
    let buffer = [
        112, 111, 114, 116, 97, 108, 95, 110, 97, 109, 101, 0, 115, 116, 97, 116, 101, 109, 101, 110, 116, 95,
        110, 97, 109, 101, 0, 0, 3, 0, 1, 0, 1, 0, 1, 0, 3, 255, 255, 255, 255, 0, 0, 0, 4, 0, 0, 0, 1, 0, 0,
        0, 4, 0, 0, 0, 2, 0, 3, 0, 0, 0, 0, 0, 0,
    ];
    let mut decoder = MessageDecoder::default();

    decoder.next_stage(None, from_oid).expect("proceed to the next stage");
    decoder.next_stage(Some(&[BIND]), from_oid).expect("proceed to the next stage");
    decoder
        .next_stage(Some(&LEN.to_be_bytes()), from_oid)
        .expect("proceed to the next stage");

    assert_eq!(
        decoder.next_stage(Some(&buffer), from_oid),
        Ok(Status::Done(CommandMessage::Bind {
            portal_name: "portal_name".to_owned(),
            statement_name: "statement_name".to_owned(),
            param_formats: vec![PgFormat::Binary, PgFormat::Binary, PgFormat::Binary],
            raw_params: vec![None, Some(vec![0, 0, 0, 1]), Some(vec![0, 0, 0, 2])],
            result_formats: vec![PgFormat::Text, PgFormat::Text, PgFormat::Text],
        }))
    );
}

#[test]
fn close_portal() {
    let buffer = [80, 112, 111, 114, 116, 97, 108, 95, 110, 97, 109, 101, 0];
    let mut decoder = MessageDecoder::default();

    decoder.next_stage(None, from_oid).expect("proceed to the next stage");
    decoder.next_stage(Some(&[CLOSE]), from_oid).expect("proceed to the next stage");
    decoder
        .next_stage(Some(&LEN.to_be_bytes()), from_oid)
        .expect("proceed to the next stage");

    assert_eq!(
        decoder.next_stage(Some(&buffer), from_oid),
        Ok(Status::Done(CommandMessage::ClosePortal {
            name: "portal_name".to_owned(),
        }))
    );
}

#[test]
fn close_statement() {
    let buffer = [83, 115, 116, 97, 116, 101, 109, 101, 110, 116, 95, 110, 97, 109, 101, 0];
    let mut decoder = MessageDecoder::default();

    decoder.next_stage(None, from_oid).expect("proceed to the next stage");
    decoder.next_stage(Some(&[CLOSE]), from_oid).expect("proceed to the next stage");
    decoder
        .next_stage(Some(&LEN.to_be_bytes()), from_oid)
        .expect("proceed to the next stage");

    assert_eq!(
        decoder.next_stage(Some(&buffer), from_oid),
        Ok(Status::Done(CommandMessage::CloseStatement {
            name: "statement_name".to_owned(),
        }))
    );
}

#[test]
fn close_unknown_type() {
    let buffer = [82, 115, 116, 97, 116, 101, 109, 101, 110, 116, 95, 110, 97, 109, 101, 0];
    let mut decoder = MessageDecoder::default();

    decoder.next_stage(None, from_oid).expect("proceed to the next stage");
    decoder.next_stage(Some(&[CLOSE]), from_oid).expect("proceed to the next stage");
    decoder
        .next_stage(Some(&LEN.to_be_bytes()), from_oid)
        .expect("proceed to the next stage");

    assert_eq!(
        decoder.next_stage(Some(&buffer), from_oid),
        Err(MessageFormatError::from(MessageFormatErrorKind::InvalidTypeByte('R')))
    );
}

#[test]
fn describe_portal() {
    let buffer = [80, 112, 111, 114, 116, 97, 108, 95, 110, 97, 109, 101, 0];
    let mut decoder = MessageDecoder::default();

    decoder.next_stage(None, from_oid).expect("proceed to the next stage");
    decoder
        .next_stage(Some(&[DESCRIBE]), from_oid)
        .expect("proceed to the next stage");
    decoder
        .next_stage(Some(&LEN.to_be_bytes()), from_oid)
        .expect("proceed to the next stage");

    assert_eq!(
        decoder.next_stage(Some(&buffer), from_oid),
        Ok(Status::Done(CommandMessage::DescribePortal {
            name: "portal_name".to_owned()
        }))
    );
}

#[test]
fn describe_statement() {
    let buffer = [83, 115, 116, 97, 116, 101, 109, 101, 110, 116, 95, 110, 97, 109, 101, 0];
    let mut decoder = MessageDecoder::default();

    decoder.next_stage(None, from_oid).expect("proceed to the next stage");
    decoder
        .next_stage(Some(&[DESCRIBE]), from_oid)
        .expect("proceed to the next stage");
    decoder
        .next_stage(Some(&LEN.to_be_bytes()), from_oid)
        .expect("proceed to the next stage");

    assert_eq!(
        decoder.next_stage(Some(&buffer), from_oid),
        Ok(Status::Done(CommandMessage::DescribeStatement {
            name: "statement_name".to_owned()
        }))
    );
}

#[test]
fn describe_unknown_type() {
    let buffer = [82, 115, 116, 97, 116, 101, 109, 101, 110, 116, 95, 110, 97, 109, 101, 0];
    let mut decoder = MessageDecoder::default();

    decoder.next_stage(None, from_oid).expect("proceed to the next stage");
    decoder
        .next_stage(Some(&[DESCRIBE]), from_oid)
        .expect("proceed to the next stage");
    decoder
        .next_stage(Some(&LEN.to_be_bytes()), from_oid)
        .expect("proceed to the next stage");

    assert_eq!(
        decoder.next_stage(Some(&buffer), from_oid),
        Err(MessageFormatError::from(MessageFormatErrorKind::InvalidTypeByte('R')))
    );
}

#[test]
fn execute() {
    let buffer = [112, 111, 114, 116, 97, 108, 95, 110, 97, 109, 101, 0, 0, 0, 0, 0];
    let mut decoder = MessageDecoder::default();

    decoder.next_stage(None, from_oid).expect("proceed to the next stage");
    decoder.next_stage(Some(&[EXECUTE]), from_oid).expect("proceed to the next stage");
    decoder
        .next_stage(Some(&LEN.to_be_bytes()), from_oid)
        .expect("proceed to the next stage");

    assert_eq!(
        decoder.next_stage(Some(&buffer), from_oid),
        Ok(Status::Done(CommandMessage::Execute {
            portal_name: "portal_name".to_owned(),
            max_rows: 0,
        }))
    );
}

#[test]
fn flush() {
    let buffer = [];
    let mut decoder = MessageDecoder::default();

    decoder.next_stage(None, from_oid).expect("proceed to the next stage");
    decoder.next_stage(Some(&[FLUSH]), from_oid).expect("proceed to the next stage");
    decoder
        .next_stage(Some(&LEN.to_be_bytes()), from_oid)
        .expect("proceed to the next stage");

    assert_eq!(
        decoder.next_stage(Some(&buffer), from_oid),
        Ok(Status::Done(CommandMessage::Flush))
    );
}

#[test]
fn parse() {
    let buffer = [
        0, 115, 101, 108, 101, 99, 116, 32, 42, 32, 102, 114, 111, 109, 32, 115, 99, 104, 101, 109, 97, 95,
        110, 97, 109, 101, 46, 116, 97, 98, 108, 101, 95, 110, 97, 109, 101, 32, 119, 104, 101, 114, 101, 32,
        115, 105, 95, 99, 111, 108, 117, 109, 110, 32, 61, 32, 36, 49, 59, 0, 0, 1, 0, 0, 0, 23,
    ];
    let mut decoder = MessageDecoder::default();

    decoder.next_stage(None, from_oid).expect("proceed to the next stage");
    decoder.next_stage(Some(&[PARSE]), from_oid).expect("proceed to the next stage");
    decoder
        .next_stage(Some(&LEN.to_be_bytes()), from_oid)
        .expect("proceed to the next stage");

    assert_eq!(
        decoder.next_stage(Some(&buffer), from_oid),
        Ok(Status::Done(CommandMessage::Parse {
            statement_name: "".to_owned(),
            sql: "select * from schema_name.table_name where si_column = $1;".to_owned(),
            param_types: vec![Some(PgType::Integer)],
        }))
    );
}

#[test]
fn sync() {
    let buffer = [];
    let mut decoder = MessageDecoder::default();

    decoder.next_stage(None, from_oid).expect("proceed to the next stage");
    decoder.next_stage(Some(&[SYNC]), from_oid).expect("proceed to the next stage");
    decoder
        .next_stage(Some(&LEN.to_be_bytes()), from_oid)
        .expect("proceed to the next stage");

    assert_eq!(
        decoder.next_stage(Some(&buffer), from_oid),
        Ok(Status::Done(CommandMessage::Sync))
    );
}

#[test]
fn terminate() {
    let buffer = [];
    let mut decoder = MessageDecoder::default();

    decoder.next_stage(None, from_oid).expect("proceed to the next stage");
    decoder
        .next_stage(Some(&[TERMINATE]), from_oid)
        .expect("proceed to the next stage");
    decoder
        .next_stage(Some(&LEN.to_be_bytes()), from_oid)
        .expect("proceed to the next stage");

    assert_eq!(
        decoder.next_stage(Some(&buffer), from_oid),
        Ok(Status::Done(CommandMessage::Terminate))
    );
}

#[test]
fn unrecognized_message() {
    let buffer = [];
    let mut decoder = MessageDecoder::default();

    decoder.next_stage(None, from_oid).expect("proceed to the next stage");
    decoder.next_stage(Some(&[b'A']), from_oid).expect("proceed to the next stage");
    decoder
        .next_stage(Some(&LEN.to_be_bytes()), from_oid)
        .expect("proceed to the next stage");

    assert_eq!(
        decoder.next_stage(Some(&buffer), from_oid),
        Err(MessageFormatError::from(
            MessageFormatErrorKind::UnsupportedFrontendMessage('A')
        ))
    );
}
