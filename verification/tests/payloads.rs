use pg_wire::wire::{BIND, CLOSE, DESCRIBE, EXECUTE, FLUSH, PARSE, QUERY, SYNC, TERMINATE};
use pg_wire::{
    CommandMessage, MessageDecoder, MessageFormatError, MessageFormatErrorKind, PgFormat, Status,
};

/// The types of this catalogue.
#[derive(Debug, PartialEq)]
enum PgType {
    Integer,
    Other(u32),
}

fn from_oid(oid: u32) -> Result<Option<PgType>, u32> {
    match oid {
        0 => Ok(None),
        23 => Ok(Some(PgType::Integer)),
        24 | 25 => Err(oid),
        other => Ok(Some(PgType::Other(other))),
    }
}

type Decoded = Result<Status<PgType>, MessageFormatError>;

fn decode(tag: u8, payload: &[u8]) -> Decoded {
    let mut decoder = MessageDecoder::new();
    assert_eq!(decoder.next_stage(None, from_oid), Ok(Status::Requesting(1)));
    assert_eq!(decoder.next_stage(Some(&[tag]), from_oid), Ok(Status::Requesting(4)));
    let len = payload.len() as i32 + 4;
    assert_eq!(
        decoder.next_stage(Some(&len.to_be_bytes()), from_oid),
        Ok(Status::Requesting(payload.len()))
    );
    let status = decoder.next_stage(Some(payload), from_oid);
    assert_eq!(decoder.next_stage(None, from_oid), Ok(Status::Requesting(1)));
    status
}

fn failure(kind: MessageFormatErrorKind) -> Decoded {
    Err(MessageFormatError::from(kind))
}

fn query_of(sql: &str) -> Decoded {
    Ok(Status::Done(CommandMessage::Query {
        sql: sql.to_owned(),
    }))
}

#[test]
fn strings_are_utf8() {
    assert_eq!(decode(QUERY, "select 'žluťoučký 🐎'\0".as_bytes()), query_of("select 'žluťoučký 🐎'"));
    assert_eq!(decode(QUERY, &[0]), query_of(""));
    assert_eq!(
        decode(QUERY, &[b'a', 0xff, 0]),
        failure(MessageFormatErrorKind::InvalidUtf8String)
    );
    // An overlong encoding, half of a surrogate pair and half of a character.
    assert_eq!(decode(QUERY, &[0xc0, 0x80, 0]), failure(MessageFormatErrorKind::InvalidUtf8String));
    assert_eq!(decode(QUERY, &[0xed, 0xa0, 0x80, 0]), failure(MessageFormatErrorKind::InvalidUtf8String));
    assert_eq!(decode(QUERY, &[0xf0, 0x9f, 0]), failure(MessageFormatErrorKind::InvalidUtf8String));
}

#[test]
fn strings_need_a_terminator() {
    assert_eq!(decode(QUERY, b"select 1"), failure(MessageFormatErrorKind::MissingNullTerminator));
    assert_eq!(decode(QUERY, &[]), failure(MessageFormatErrorKind::MissingNullTerminator));
    // The terminator is looked for before the bytes in front of it are judged.
    assert_eq!(decode(QUERY, &[0xff]), failure(MessageFormatErrorKind::MissingNullTerminator));
    assert_eq!(decode(BIND, b"portal\0statement"), failure(MessageFormatErrorKind::MissingNullTerminator));
}

#[test]
fn bytes_behind_a_message_do_not_matter() {
    assert_eq!(decode(QUERY, b"select 1\0select 2\0"), query_of("select 1"));
    assert_eq!(decode(FLUSH, &[1, 2, 3]), Ok(Status::Done(CommandMessage::Flush)));
    assert_eq!(decode(SYNC, &[0xff]), Ok(Status::Done(CommandMessage::Sync)));
    assert_eq!(decode(TERMINATE, &[0]), Ok(Status::Done(CommandMessage::Terminate)));
    assert_eq!(
        decode(EXECUTE, b"p\0\xff\xff\xff\xfe\x07"),
        Ok(Status::Done(CommandMessage::Execute {
            portal_name: "p".to_owned(),
            max_rows: -2,
        }))
    );
}

#[test]
fn integers_have_the_highest_byte_first() {
    assert_eq!(
        decode(EXECUTE, &[0, 0x12, 0x34, 0x56, 0x78]),
        Ok(Status::Done(CommandMessage::Execute {
            portal_name: String::new(),
            max_rows: 0x1234_5678,
        }))
    );
    assert_eq!(
        decode(EXECUTE, &[0, 0x80, 0, 0, 0]),
        Ok(Status::Done(CommandMessage::Execute {
            portal_name: String::new(),
            max_rows: i32::MIN,
        }))
    );
    assert_eq!(
        decode(EXECUTE, &[0, 0, 0, 1]),
        failure(MessageFormatErrorKind::UnexpectedEndOfBuffer)
    );
}

#[test]
fn name_is_read_before_the_type_byte_is_judged() {
    for tag in [CLOSE, DESCRIBE] {
        assert_eq!(decode(tag, &[]), failure(MessageFormatErrorKind::UnexpectedEndOfBuffer));
        assert_eq!(decode(tag, b"R"), failure(MessageFormatErrorKind::MissingNullTerminator));
        assert_eq!(decode(tag, b"R\xff\0"), failure(MessageFormatErrorKind::InvalidUtf8String));
        assert_eq!(decode(tag, b"\xe9\0"), failure(MessageFormatErrorKind::InvalidTypeByte('é')));
    }
}

#[test]
fn tags_without_a_message_are_refused() {
    for tag in 0..=255u8 {
        let refused = decode(tag, &[])
            == failure(MessageFormatErrorKind::UnsupportedFrontendMessage(char::from(tag)));
        assert_eq!(refused, !b"QBCDEHPSX".contains(&tag));
    }
}

fn bind_of(
    param_formats: Vec<PgFormat>,
    raw_params: Vec<Option<Vec<u8>>>,
    result_formats: Vec<PgFormat>,
) -> Decoded {
    Ok(Status::Done(CommandMessage::Bind {
        portal_name: "p".to_owned(),
        statement_name: "s".to_owned(),
        param_formats,
        raw_params,
        result_formats,
    }))
}

#[test]
fn null_and_empty_values_differ() {
    assert_eq!(
        decode(
            BIND,
            b"p\0s\0\0\0\0\x03\xff\xff\xff\xff\0\0\0\0\0\0\0\x02\xab\xcd\0\x01\0\x01"
        ),
        bind_of(
            vec![],
            vec![None, Some(vec![]), Some(vec![0xab, 0xcd])],
            vec![PgFormat::Binary]
        )
    );
}

#[test]
fn negative_counts_and_lengths_announce_nothing() {
    assert_eq!(
        decode(BIND, b"p\0s\0\xff\xff\x80\0\xff\xfe"),
        bind_of(vec![], vec![], vec![])
    );
    assert_eq!(
        decode(BIND, b"p\0s\0\0\0\0\x01\xff\xff\xff\xfe\0\0"),
        bind_of(vec![], vec![Some(vec![])], vec![])
    );
    assert_eq!(
        decode(PARSE, b"s\0q\0\xff\xff\0\0\0\x17"),
        Ok(Status::Done(CommandMessage::Parse {
            statement_name: "s".to_owned(),
            sql: "q".to_owned(),
            param_types: vec![],
        }))
    );
}

#[test]
fn values_cut_short_are_refused() {
    assert_eq!(decode(BIND, b"p\0s\0"), failure(MessageFormatErrorKind::UnexpectedEndOfBuffer));
    assert_eq!(decode(BIND, b"p\0s\0\0\x02\0\0"), failure(MessageFormatErrorKind::UnexpectedEndOfBuffer));
    assert_eq!(
        decode(BIND, b"p\0s\0\0\0\0\x01\0\0\0\x03\x01\x02"),
        failure(MessageFormatErrorKind::UnexpectedEndOfBuffer)
    );
    assert_eq!(
        decode(BIND, b"p\0s\0\0\0\0\x01\x7f\xff\xff\xff"),
        failure(MessageFormatErrorKind::UnexpectedEndOfBuffer)
    );
    assert_eq!(decode(BIND, b"p\0s\0\0\0\0\0"), failure(MessageFormatErrorKind::UnexpectedEndOfBuffer));
}

#[test]
fn unrecognized_formats_are_refused() {
    assert_eq!(PgFormat::try_from(0), Ok(PgFormat::Text));
    assert_eq!(PgFormat::try_from(1), Ok(PgFormat::Binary));
    assert_eq!(
        PgFormat::try_from(-1),
        Err(MessageFormatError::from(MessageFormatErrorKind::UnrecognizedFormat(-1)))
    );
    // The first bad field is reported, even if the payload ends behind it.
    assert_eq!(
        decode(BIND, b"p\0s\0\0\x03\0\x01\0\x02"),
        failure(MessageFormatErrorKind::UnrecognizedFormat(2))
    );
}

fn parse_of(param_types: Vec<Option<PgType>>) -> Decoded {
    Ok(Status::Done(CommandMessage::Parse {
        statement_name: "s".to_owned(),
        sql: "q".to_owned(),
        param_types,
    }))
}

#[test]
fn types_are_looked_up() {
    assert_eq!(
        decode(PARSE, b"s\0q\0\0\x03\0\0\0\x17\0\0\0\0\x01\x02\x03\x04"),
        parse_of(vec![Some(PgType::Integer), None, Some(PgType::Other(0x0102_0304))])
    );
    assert_eq!(decode(PARSE, b"s\0q\0\0\0\xff"), parse_of(vec![]));
    assert_eq!(
        decode(PARSE, b"s\0q\0\0\x03\0\0\0\x17\0\0\0\x18\0\0\0\x19"),
        failure(MessageFormatErrorKind::UnsupportedOid(24))
    );
}

#[test]
fn unsupported_types_come_before_the_end_of_the_payload() {
    assert_eq!(
        decode(PARSE, b"s\0q\0\0\x03\0\0\0\x17\0\0\0\x18\0\0\0"),
        failure(MessageFormatErrorKind::UnsupportedOid(24))
    );
    assert_eq!(
        decode(PARSE, b"s\0q\0\0\x03\0\0\0\x17\0\0\0\0\0\0\0"),
        failure(MessageFormatErrorKind::UnexpectedEndOfBuffer)
    );
    assert_eq!(
        decode(PARSE, b"s\0q\0\0\x01\0\0\0"),
        failure(MessageFormatErrorKind::UnexpectedEndOfBuffer)
    );
}

#[test]
fn messages_cut_short_are_refused() {
    let messages: [(u8, &[u8]); 7] = [
        (QUERY, "select 'ž'\0".as_bytes()),
        (
            BIND,
            b"p\0s\0\0\x01\0\x01\0\x02\xff\xff\xff\xff\0\0\0\x02\xab\xcd\0\x01\0\x01",
        ),
        (CLOSE, b"Pname\0"),
        (DESCRIBE, b"Sname\0"),
        (EXECUTE, b"portal\0\0\0\0\x0a"),
        (PARSE, b"s\0q\0\0\x02\0\0\0\x17\0\0\0\0"),
        (PARSE, b"s\0q\0\0\0"),
    ];
    for (tag, payload) in messages {
        assert!(decode(tag, payload).is_ok());
        for k in 0..payload.len() {
            assert!(decode(tag, &payload[..k]).is_err());
        }
    }
}

/// Reads a message from the stream as a connection does.
fn receive(decoder: &mut MessageDecoder, stream: &mut &[u8]) -> Result<CommandMessage<PgType>, MessageFormatError> {
    let mut current: Option<Vec<u8>> = None;
    loop {
        match decoder.next_stage(current.take().as_deref(), from_oid) {
            Ok(Status::Requesting(len)) => {
                let (buffer, rest) = stream.split_at(len);
                current = Some(buffer.to_vec());
                *stream = rest;
            }
            Ok(Status::Done(message)) => return Ok(message),
            Err(error) => return Err(error),
        }
    }
}

#[test]
fn frames_are_received_one_after_the_other() {
    let frames: Vec<u8> = [
        &b"P\0\0\0\x11s\0q $1\0\0\x01\0\0\0\0"[..],
        &b"B\0\0\0\x0d\0s\0\0\0\0\0\0\0"[..],
        &b"Z\0\0\0\x04"[..],
        &b"S\0\0\0\x04rest"[..],
    ]
    .concat();
    let mut stream: &[u8] = &frames;
    let mut decoder = MessageDecoder::new();
    assert_eq!(
        receive(&mut decoder, &mut stream),
        Ok(CommandMessage::Parse {
            statement_name: "s".to_owned(),
            sql: "q $1".to_owned(),
            param_types: vec![None],
        })
    );
    assert_eq!(
        receive(&mut decoder, &mut stream),
        Ok(CommandMessage::Bind {
            portal_name: String::new(),
            statement_name: "s".to_owned(),
            param_formats: vec![],
            raw_params: vec![],
            result_formats: vec![],
        })
    );
    assert_eq!(
        receive(&mut decoder, &mut stream),
        Err(MessageFormatError::from(MessageFormatErrorKind::UnsupportedFrontendMessage('Z')))
    );
    assert_eq!(receive(&mut decoder, &mut stream), Ok(CommandMessage::Sync));
    assert_eq!(stream, &b"rest"[..]);
}
