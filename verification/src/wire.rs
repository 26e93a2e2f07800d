//! The layout of messages: what each field, and each message, is as a sequence of bytes.
//!
//! A reading function takes the bytes that are left of a payload. It gives the value of
//! the field at their start and the bytes behind that field, or what is wrong.
use crate::catalogue::Catalogue;
use crate::errors::MessageFormatErrorKind;
use crate::formats::{format_of, PgFormat};
use crate::frontend::MessageView;
use vstd::prelude::*;
use vstd::utf8::{decode_utf8, valid_utf8};

verus! {

/// Tag of a `Query` message, `Q`.
pub const QUERY: u8 = 0x51;

/// Tag of a `Bind` message, `B`.
pub const BIND: u8 = 0x42;

/// Tag of a `Close` message, `C`.
pub const CLOSE: u8 = 0x43;

/// Tag of a `Describe` message, `D`.
pub const DESCRIBE: u8 = 0x44;

/// Tag of an `Execute` message, `E`.
pub const EXECUTE: u8 = 0x45;

/// Tag of a `Flush` message, `H`.
pub const FLUSH: u8 = 0x48;

/// Tag of a `Parse` message, `P`.
pub const PARSE: u8 = 0x50;

/// Tag of a `Sync` message, `S`.
pub const SYNC: u8 = 0x53;

/// Tag of a `Terminate` message, `X`.
pub const TERMINATE: u8 = 0x58;

/// The byte that stands for a portal in `Close` and `Describe` messages, `P`.
pub const PORTAL: u8 = 0x50;

/// The byte that stands for a prepared statement in `Close` and `Describe` messages, `S`.
pub const STATEMENT: u8 = 0x53;

/// A value and the bytes behind it.
pub type Read<T> = Result<(T, Seq<u8>), MessageFormatErrorKind>;

/// The unsigned number whose two bytes, highest first, start `s`.
pub open spec fn be_u16(s: Seq<u8>) -> int {
    s[0] * 0x100 + s[1]
}

/// The unsigned number whose four bytes, highest first, start `s`.
pub open spec fn be_u32(s: Seq<u8>) -> int {
    s[0] * 0x100_0000 + s[1] * 0x1_0000 + s[2] * 0x100 + s[3]
}

/// The signed number whose two bytes, in two's complement, start `s`.
pub open spec fn be_i16(s: Seq<u8>) -> int {
    if be_u16(s) < 0x8000 {
        be_u16(s)
    } else {
        be_u16(s) - 0x1_0000
    }
}

/// The signed number whose four bytes, in two's complement, start `s`.
pub open spec fn be_i32(s: Seq<u8>) -> int {
    if be_u32(s) < 0x8000_0000 {
        be_u32(s)
    } else {
        be_u32(s) - 0x1_0000_0000
    }
}

pub open spec fn read_byte(s: Seq<u8>) -> Read<u8> {
    if s.len() < 1 {
        Err(MessageFormatErrorKind::UnexpectedEndOfBuffer)
    } else {
        Ok((s[0], s.skip(1)))
    }
}

pub open spec fn read_i16(s: Seq<u8>) -> Read<i16> {
    if s.len() < 2 {
        Err(MessageFormatErrorKind::UnexpectedEndOfBuffer)
    } else {
        Ok((be_i16(s) as i16, s.skip(2)))
    }
}

pub open spec fn read_i32(s: Seq<u8>) -> Read<i32> {
    if s.len() < 4 {
        Err(MessageFormatErrorKind::UnexpectedEndOfBuffer)
    } else {
        Ok((be_i32(s) as i32, s.skip(4)))
    }
}

pub open spec fn read_u32(s: Seq<u8>) -> Read<u32> {
    if s.len() < 4 {
        Err(MessageFormatErrorKind::UnexpectedEndOfBuffer)
    } else {
        Ok((be_u32(s) as u32, s.skip(4)))
    }
}

/// A string: UTF-8 up to the first zero byte, which is not part of it.
pub open spec fn read_cstr(s: Seq<u8>) -> Read<Seq<char>> {
    match s.index_of_first(0u8) {
        None => Err(MessageFormatErrorKind::MissingNullTerminator),
        Some(n) => if valid_utf8(s.take(n)) {
            Ok((decode_utf8(s.take(n)), s.skip(n + 1)))
        } else {
            Err(MessageFormatErrorKind::InvalidUtf8String)
        },
    }
}

/// How many items a count announces: none, if it is negative.
pub open spec fn announced(count: int) -> nat {
    if count < 0 {
        0
    } else {
        count as nat
    }
}

/// `n` items, one behind the other, each as `item` reads it.
pub open spec fn read_items<T>(
    s: Seq<u8>,
    n: nat,
    item: spec_fn(Seq<u8>) -> Read<T>,
) -> Read<Seq<T>>
    decreases n,
{
    if n == 0 {
        Ok((Seq::empty(), s))
    } else {
        match item(s) {
            Err(kind) => Err(kind),
            Ok((first, rest)) => match read_items(rest, (n - 1) as nat, item) {
                Err(kind) => Err(kind),
                Ok((others, rest)) => Ok((seq![first] + others, rest)),
            },
        }
    }
}

/// A list: a 16-bit count and as many items as it announces.
pub open spec fn read_list<T>(s: Seq<u8>, item: spec_fn(Seq<u8>) -> Read<T>) -> Read<Seq<T>> {
    match read_i16(s) {
        Err(kind) => Err(kind),
        Ok((count, rest)) => read_items(rest, announced(count as int), item),
    }
}

/// A format: its 16-bit code.
pub open spec fn read_format(s: Seq<u8>) -> Read<PgFormat> {
    match read_i16(s) {
        Err(kind) => Err(kind),
        Ok((code, rest)) => match format_of(code) {
            Some(format) => Ok((format, rest)),
            None => Err(MessageFormatErrorKind::UnrecognizedFormat(code)),
        },
    }
}

/// The value of a parameter: a 32-bit length and as many bytes as it announces. The
/// length -1 stands for NULL, which has no bytes.
pub open spec fn read_param(s: Seq<u8>) -> Read<Option<Seq<u8>>> {
    match read_i32(s) {
        Err(kind) => Err(kind),
        Ok((len, rest)) => if len == -1 {
            Ok((None, rest))
        } else if rest.len() < announced(len as int) {
            Err(MessageFormatErrorKind::UnexpectedEndOfBuffer)
        } else {
            Ok((Some(rest.take(announced(len as int) as int)), rest.skip(
                announced(len as int) as int,
            )))
        },
    }
}

/// The type of a parameter: its object identifier, about which `catalogue` answers.
pub open spec fn read_type<T>(s: Seq<u8>, catalogue: Catalogue<T>) -> Read<Option<T>> {
    match read_u32(s) {
        Err(kind) => Err(kind),
        Ok((oid, rest)) => match catalogue(oid) {
            Some(found) => Ok((found, rest)),
            None => Err(MessageFormatErrorKind::UnsupportedOid(oid)),
        },
    }
}

/// [`read_format`] as an item of a list.
pub open spec fn format_item() -> spec_fn(Seq<u8>) -> Read<PgFormat> {
    |s: Seq<u8>| read_format(s)
}

/// [`read_param`] as an item of a list.
pub open spec fn param_item() -> spec_fn(Seq<u8>) -> Read<Option<Seq<u8>>> {
    |s: Seq<u8>| read_param(s)
}

/// [`read_type`] as an item of a list.
pub open spec fn type_item<T>(catalogue: Catalogue<T>) -> spec_fn(Seq<u8>) -> Read<Option<T>> {
    |s: Seq<u8>| read_type(s, catalogue)
}

/// The payload of a `Query` message: the text of the query.
pub open spec fn decode_query<T>(s: Seq<u8>) -> Result<MessageView<T>, MessageFormatErrorKind> {
    match read_cstr(s) {
        Err(kind) => Err(kind),
        Ok((sql, _)) => Ok(MessageView::Query { sql }),
    }
}

/// The payload of a `Bind` message: the names of the portal and of the statement, the
/// formats of the parameters, their values, and the formats of the results.
pub open spec fn decode_bind<T>(s: Seq<u8>) -> Result<MessageView<T>, MessageFormatErrorKind> {
    match read_cstr(s) {
        Err(kind) => Err(kind),
        Ok((portal_name, s)) => match read_cstr(s) {
            Err(kind) => Err(kind),
            Ok((statement_name, s)) => match read_list(s, format_item()) {
                Err(kind) => Err(kind),
                Ok((param_formats, s)) => match read_list(s, param_item()) {
                    Err(kind) => Err(kind),
                    Ok((raw_params, s)) => match read_list(s, format_item()) {
                        Err(kind) => Err(kind),
                        Ok((result_formats, _)) => Ok(
                            MessageView::Bind {
                                portal_name,
                                statement_name,
                                param_formats,
                                raw_params,
                                result_formats,
                            },
                        ),
                    },
                },
            },
        },
    }
}

/// The payload of a `Close` or `Describe` message: a byte that tells what is named, and
/// the name. The name is read before the byte is judged.
pub open spec fn read_target(s: Seq<u8>) -> Result<(u8, Seq<char>), MessageFormatErrorKind> {
    match read_byte(s) {
        Err(kind) => Err(kind),
        Ok((target, s)) => match read_cstr(s) {
            Err(kind) => Err(kind),
            Ok((name, _)) => if target == PORTAL || target == STATEMENT {
                Ok((target, name))
            } else {
                Err(MessageFormatErrorKind::InvalidTypeByte(target as char))
            },
        },
    }
}

/// The payload of a `Close` message.
pub open spec fn decode_close<T>(s: Seq<u8>) -> Result<MessageView<T>, MessageFormatErrorKind> {
    match read_target(s) {
        Err(kind) => Err(kind),
        Ok((target, name)) => if target == PORTAL {
            Ok(MessageView::ClosePortal { name })
        } else {
            Ok(MessageView::CloseStatement { name })
        },
    }
}

/// The payload of a `Describe` message.
pub open spec fn decode_describe<T>(s: Seq<u8>) -> Result<MessageView<T>, MessageFormatErrorKind> {
    match read_target(s) {
        Err(kind) => Err(kind),
        Ok((target, name)) => if target == PORTAL {
            Ok(MessageView::DescribePortal { name })
        } else {
            Ok(MessageView::DescribeStatement { name })
        },
    }
}

/// The payload of an `Execute` message: the name of the portal and the number of rows.
pub open spec fn decode_execute<T>(s: Seq<u8>) -> Result<MessageView<T>, MessageFormatErrorKind> {
    match read_cstr(s) {
        Err(kind) => Err(kind),
        Ok((portal_name, s)) => match read_i32(s) {
            Err(kind) => Err(kind),
            Ok((max_rows, _)) => Ok(MessageView::Execute { portal_name, max_rows }),
        },
    }
}

/// The payload of a `Parse` message: the name of the statement, its text, and the types
/// of its parameters.
pub open spec fn decode_parse<T>(s: Seq<u8>, catalogue: Catalogue<T>) -> Result<
    MessageView<T>,
    MessageFormatErrorKind,
> {
    match read_cstr(s) {
        Err(kind) => Err(kind),
        Ok((statement_name, s)) => match read_cstr(s) {
            Err(kind) => Err(kind),
            Ok((sql, s)) => match read_list(s, type_item(catalogue)) {
                Err(kind) => Err(kind),
                Ok((param_types, _)) => Ok(MessageView::Parse { statement_name, sql, param_types }),
            },
        },
    }
}

/// The message with this tag and this payload, on a server with this catalogue of types.
/// Bytes behind the last field do not matter.
pub open spec fn decode<T>(tag: u8, s: Seq<u8>, catalogue: Catalogue<T>) -> Result<
    MessageView<T>,
    MessageFormatErrorKind,
> {
    if tag == PARSE {
        decode_parse(s, catalogue)
    } else {
        decode_untyped(tag, s)
    }
}

/// The message with this tag, other than that of `Parse`, and this payload.
pub open spec fn decode_untyped<T>(tag: u8, s: Seq<u8>) -> Result<
    MessageView<T>,
    MessageFormatErrorKind,
> {
    if tag == QUERY {
        decode_query(s)
    } else if tag == BIND {
        decode_bind(s)
    } else if tag == CLOSE {
        decode_close(s)
    } else if tag == DESCRIBE {
        decode_describe(s)
    } else if tag == EXECUTE {
        decode_execute(s)
    } else if tag == FLUSH {
        Ok(MessageView::Flush)
    } else if tag == SYNC {
        Ok(MessageView::Sync)
    } else if tag == TERMINATE {
        Ok(MessageView::Terminate)
    } else {
        Err(MessageFormatErrorKind::UnsupportedFrontendMessage(tag as char))
    }
}

/// The 32-bit numbers that stand whole at the start of `s`, `n` at most.
pub open spec fn words(s: Seq<u8>, n: nat) -> Seq<u32> {
    Seq::new(
        if s.len() / 4 < n {
            s.len() / 4
        } else {
            n
        },
        |i: int| be_u32(s.skip(4 * i)) as u32,
    )
}

/// The fields of a `Parse` message as they stand in its payload.
pub struct ParseFields {
    pub statement_name: Seq<char>,
    pub sql: Seq<char>,
    /// The identifiers of the types that stand in the payload.
    pub oids: Seq<u32>,
    /// There is an identifier for each parameter that the count announces.
    pub complete: bool,
}

/// The fields of a `Parse` message, before any type is looked up.
pub open spec fn read_parse(s: Seq<u8>) -> Result<ParseFields, MessageFormatErrorKind> {
    match read_cstr(s) {
        Err(kind) => Err(kind),
        Ok((statement_name, s)) => match read_cstr(s) {
            Err(kind) => Err(kind),
            Ok((sql, s)) => match read_i16(s) {
                Err(kind) => Err(kind),
                Ok((count, s)) => Ok(
                    ParseFields {
                        statement_name,
                        sql,
                        oids: words(s, announced(count as int)),
                        complete: announced(count as int) * 4 <= s.len(),
                    },
                ),
            },
        },
    }
}

/// The identifiers to look up for the message with this tag and this payload.
pub open spec fn requested_oids(tag: u8, s: Seq<u8>) -> Seq<u32> {
    if tag == PARSE {
        match read_parse(s) {
            Ok(fields) => fields.oids,
            Err(_) => Seq::empty(),
        }
    } else {
        Seq::empty()
    }
}

/// The message with this tag and this payload, where `types` are the answers about
/// [`requested_oids`]. An identifier without an answer is the error, even of a payload
/// that ends too early.
pub open spec fn decode_with<T>(tag: u8, s: Seq<u8>, types: Seq<Option<T>>) -> Result<
    MessageView<T>,
    MessageFormatErrorKind,
> {
    if tag == PARSE {
        match read_parse(s) {
            Err(kind) => Err(kind),
            Ok(fields) => if types.len() < fields.oids.len() {
                Err(MessageFormatErrorKind::UnsupportedOid(fields.oids[types.len() as int]))
            } else if fields.complete {
                Ok(
                    MessageView::Parse {
                        statement_name: fields.statement_name,
                        sql: fields.sql,
                        param_types: types,
                    },
                )
            } else {
                Err(MessageFormatErrorKind::UnexpectedEndOfBuffer)
            },
        }
    } else {
        decode_untyped(tag, s)
    }
}

} // verus!
