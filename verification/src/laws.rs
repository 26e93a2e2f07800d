//! What holds of the protocol as a whole.
use crate::catalogue::{computes, looked_up, Catalogue};
use crate::errors::MessageFormatErrorKind;
use crate::formats::PgFormat;
use crate::frontend::MessageView;
use crate::message_decoder::{acceptable, payload_len, step, Stage, StatusView};
use crate::wire::{
    announced, be_i32, be_u32, decode, decode_with, format_item, param_item, read_byte, read_cstr,
    read_i16, read_i32, read_items, read_list, read_param, read_u32, requested_oids, type_item,
    words, Read, BIND, CLOSE, DESCRIBE, EXECUTE, FLUSH, PARSE, PORTAL, QUERY, STATEMENT, SYNC,
    TERMINATE,
};
use vstd::prelude::*;
use vstd::utf8::{encode_scalar, encode_utf8};

verus! {

/// The two bytes, highest first, of a number from 0 to 65535.
pub open spec fn u16_bytes(n: int) -> Seq<u8> {
    seq![(n / 0x100) as u8, (n % 0x100) as u8]
}

/// The two bytes, in two's complement, of a signed number.
pub open spec fn i16_bytes(n: int) -> Seq<u8> {
    if n < 0 {
        u16_bytes(n + 0x1_0000)
    } else {
        u16_bytes(n)
    }
}

/// The four bytes, highest first, of a number from 0 to 4294967295.
pub open spec fn u32_bytes(n: int) -> Seq<u8> {
    seq![
        (n / 0x100_0000) as u8,
        (n / 0x1_0000 % 0x100) as u8,
        (n / 0x100 % 0x100) as u8,
        (n % 0x100) as u8,
    ]
}

/// The four bytes, in two's complement, of a signed number.
pub open spec fn i32_bytes(n: int) -> Seq<u8> {
    if n < 0 {
        u32_bytes(n + 0x1_0000_0000)
    } else {
        u32_bytes(n)
    }
}

/// A string and its terminating zero byte.
pub open spec fn cstr_bytes(chars: Seq<char>) -> Seq<u8> {
    encode_utf8(chars).push(0)
}

/// Items one behind the other, each as `item` writes it.
pub open spec fn items_bytes<T>(items: Seq<T>, item: spec_fn(T) -> Seq<u8>) -> Seq<u8>
    decreases items.len(),
{
    if items.len() == 0 {
        Seq::empty()
    } else {
        item(items[0]) + items_bytes(items.drop_first(), item)
    }
}

/// The count of the items, and the items.
pub open spec fn list_bytes<T>(items: Seq<T>, item: spec_fn(T) -> Seq<u8>) -> Seq<u8> {
    u16_bytes(items.len() as int) + items_bytes(items, item)
}

/// The code of a format.
pub open spec fn format_bytes() -> spec_fn(PgFormat) -> Seq<u8> {
    |format: PgFormat|
        match format {
            PgFormat::Text => u16_bytes(0),
            PgFormat::Binary => u16_bytes(1),
        }
}

/// The length of a value and the value; the length -1 alone for NULL.
pub open spec fn param_bytes() -> spec_fn(Option<Seq<u8>>) -> Seq<u8> {
    |param: Option<Seq<u8>>|
        match param {
            None => i32_bytes(-1),
            Some(value) => i32_bytes(value.len() as int) + value,
        }
}

/// The object identifier of a type, as `oid_of` gives it.
pub open spec fn type_bytes<T>(oid_of: spec_fn(Option<T>) -> u32) -> spec_fn(Option<T>) -> Seq<u8> {
    |param_type: Option<T>| u32_bytes(oid_of(param_type) as int)
}

/// The tag with which a client sends a message.
pub open spec fn tag_of<T>(message: MessageView<T>) -> u8 {
    match message {
        MessageView::Query { .. } => QUERY,
        MessageView::Bind { .. } => BIND,
        MessageView::ClosePortal { .. } | MessageView::CloseStatement { .. } => CLOSE,
        MessageView::DescribePortal { .. } | MessageView::DescribeStatement { .. } => DESCRIBE,
        MessageView::Execute { .. } => EXECUTE,
        MessageView::Flush => FLUSH,
        MessageView::Parse { .. } => PARSE,
        MessageView::Sync => SYNC,
        MessageView::Terminate => TERMINATE,
    }
}

/// The payload with which a client sends a message. `oid_of` gives the identifiers that the
/// client has for types, and the one with which it leaves a type open.
pub open spec fn payload_of<T>(message: MessageView<T>, oid_of: spec_fn(Option<T>) -> u32) -> Seq<
    u8,
> {
    match message {
        MessageView::Query { sql } => cstr_bytes(sql),
        MessageView::Bind {
            portal_name,
            statement_name,
            param_formats,
            raw_params,
            result_formats,
        } => cstr_bytes(portal_name) + (cstr_bytes(statement_name) + (list_bytes(
            param_formats,
            format_bytes(),
        ) + (list_bytes(raw_params, param_bytes()) + list_bytes(result_formats, format_bytes())))),
        MessageView::ClosePortal { name } | MessageView::DescribePortal { name } => seq![PORTAL]
            + cstr_bytes(name),
        MessageView::CloseStatement { name } | MessageView::DescribeStatement { name } => seq![
            STATEMENT,
        ] + cstr_bytes(name),
        MessageView::Execute { portal_name, max_rows } => cstr_bytes(portal_name) + i32_bytes(
            max_rows as int,
        ),
        MessageView::Parse { statement_name, sql, param_types } => cstr_bytes(statement_name) + (
        cstr_bytes(sql) + list_bytes(param_types, type_bytes(oid_of))),
        MessageView::Flush | MessageView::Sync | MessageView::Terminate => Seq::empty(),
    }
}

/// The bytes of a message on a connection: its tag, its length, which counts itself, and
/// its payload.
pub open spec fn frame_of<T>(message: MessageView<T>, oid_of: spec_fn(Option<T>) -> u32) -> Seq<u8> {
    let payload = payload_of(message, oid_of);
    seq![tag_of(message)] + (i32_bytes(payload.len() as int + 4) + payload)
}

/// No character is the one that ends a string on the wire.
pub open spec fn sendable_string(chars: Seq<char>) -> bool {
    !chars.contains('\0')
}

/// The count of a list can announce this many items.
pub open spec fn sendable_len(len: nat) -> bool {
    len <= i16::MAX
}

/// The value of a parameter is NULL or has a length that 32 bits can announce.
pub open spec fn sendable_param(param: Option<Seq<u8>>) -> bool {
    param matches Some(value) ==> value.len() <= i32::MAX
}

/// The protocol can express this message, and the server's catalogue has for the
/// identifiers that the client sends the types that the client means.
pub open spec fn sendable<T>(
    message: MessageView<T>,
    oid_of: spec_fn(Option<T>) -> u32,
    catalogue: Catalogue<T>,
) -> bool {
    match message {
        MessageView::Query { sql } => sendable_string(sql),
        MessageView::Bind {
            portal_name,
            statement_name,
            param_formats,
            raw_params,
            result_formats,
        } => {
            &&& sendable_string(portal_name)
            &&& sendable_string(statement_name)
            &&& sendable_len(param_formats.len())
            &&& sendable_len(raw_params.len())
            &&& sendable_len(result_formats.len())
            &&& forall|i: int| 0 <= i < raw_params.len() ==> sendable_param(#[trigger] raw_params[i])
        },
        MessageView::ClosePortal { name }
        | MessageView::CloseStatement { name }
        | MessageView::DescribePortal { name }
        | MessageView::DescribeStatement { name } => sendable_string(name),
        MessageView::Execute { portal_name, .. } => sendable_string(portal_name),
        MessageView::Parse { statement_name, sql, param_types } => {
            &&& sendable_string(statement_name)
            &&& sendable_string(sql)
            &&& sendable_len(param_types.len())
            &&& forall|i: int|
                0 <= i < param_types.len() ==> catalogue(oid_of(#[trigger] param_types[i])) == Some(
                    param_types[i],
                )
        },
        MessageView::Flush | MessageView::Sync | MessageView::Terminate => true,
    }
}

proof fn lemma_read_i16_of_bytes(n: int, rest: Seq<u8>)
    requires
        0 <= n <= i16::MAX,
    ensures
        read_i16(u16_bytes(n) + rest) == Ok::<(i16, Seq<u8>), MessageFormatErrorKind>(
            (n as i16, rest),
        ),
{
    let s = u16_bytes(n) + rest;
    assert(s[0] == n / 0x100 && s[1] == n % 0x100);
    assert(s.skip(2) =~= rest);
}

pub(crate) proof fn lemma_be_u32_of_bytes(n: int, rest: Seq<u8>)
    requires
        0 <= n < 0x1_0000_0000,
    ensures
        be_u32(u32_bytes(n) + rest) == n,
        (u32_bytes(n) + rest).skip(4) == rest,
{
    let s = u32_bytes(n) + rest;
    assert(s[0] == n / 0x100_0000 && s[1] == n / 0x1_0000 % 0x100 && s[2] == n / 0x100 % 0x100
        && s[3] == n % 0x100);
    assert(s.skip(4) =~= rest);
}

pub(crate) proof fn lemma_read_i32_of_bytes(n: int, rest: Seq<u8>)
    requires
        i32::MIN <= n <= i32::MAX,
    ensures
        read_i32(i32_bytes(n) + rest) == Ok::<(i32, Seq<u8>), MessageFormatErrorKind>(
            (n as i32, rest),
        ),
{
    lemma_be_u32_of_bytes(
        if n < 0 {
            n + 0x1_0000_0000
        } else {
            n
        },
        rest,
    );
}

/// The UTF-8 bytes of a character other than the zero character are not zero.
proof fn lemma_scalar_bytes(scalar: u32)
    requires
        0 < scalar <= 0x10FFFF,
    ensures
        forall|i: int| 0 <= i < encode_scalar(scalar).len() ==> encode_scalar(scalar)[i] != 0,
{
    assert(0 < scalar <= 0x7F ==> (scalar & 0x7F) as u8 != 0) by (bit_vector);
    assert(0xC0u8 | ((scalar >> 6) & 0x1F) as u8 != 0) by (bit_vector);
    assert(0xE0u8 | ((scalar >> 12) & 0x0F) as u8 != 0) by (bit_vector);
    assert(0xF0u8 | ((scalar >> 18) & 0x7) as u8 != 0) by (bit_vector);
    assert(0x80u8 | (scalar & 0x3F) as u8 != 0) by (bit_vector);
    assert(0x80u8 | ((scalar >> 6) & 0x3F) as u8 != 0) by (bit_vector);
    assert(0x80u8 | ((scalar >> 12) & 0x3F) as u8 != 0) by (bit_vector);
}

pub(crate) proof fn lemma_string_bytes(chars: Seq<char>)
    requires
        sendable_string(chars),
    ensures
        !encode_utf8(chars).contains(0),
    decreases chars.len(),
{
    if chars.len() > 0 {
        assert(chars.contains(chars[0]));
        let first: char = chars[0];
        vstd::utf8::char_is_scalar(first);
        assert(first as u32 != 0) by {
            vstd::utf8::char_u32_cast(first, first as u32);
        }
        lemma_scalar_bytes(chars[0] as u32);
        let rest = chars.drop_first();
        assert(sendable_string(rest)) by {
            assert forall|i: int| 0 <= i < rest.len() implies rest[i] != '\0' by {
                assert(rest[i] == chars[i + 1]);
            }
        }
        lemma_string_bytes(rest);
        assert forall|i: int| 0 <= i < encode_utf8(chars).len() implies encode_utf8(chars)[i]
            != 0 by {
            let first = encode_scalar(chars[0] as u32);
            if i < first.len() {
                assert(encode_utf8(chars)[i] == first[i]);
            } else {
                assert(encode_utf8(chars)[i] == encode_utf8(rest)[i - first.len()]);
                assert(encode_utf8(rest).contains(encode_utf8(rest)[i - first.len()]));
            }
        }
    }
}

pub(crate) proof fn lemma_read_cstr_of_bytes(chars: Seq<char>, rest: Seq<u8>)
    requires
        sendable_string(chars),
    ensures
        read_cstr(cstr_bytes(chars) + rest) == Ok::<(Seq<char>, Seq<u8>), MessageFormatErrorKind>(
            (chars, rest),
        ),
{
    let bytes = encode_utf8(chars);
    let s = cstr_bytes(chars) + rest;
    lemma_string_bytes(chars);
    assert forall|i: int| 0 <= i < bytes.len() implies s[i] != 0 by {
        assert(bytes.contains(bytes[i]));
        assert(s[i] == bytes[i]);
    }
    assert(s[bytes.len() as int] == 0);
    s.index_of_first_ensures(0u8);
    assert(s.index_of_first(0u8) == Some(bytes.len() as int));
    assert(s.take(bytes.len() as int) =~= bytes);
    assert(s.skip(bytes.len() as int + 1) =~= rest);
    vstd::utf8::encode_utf8_valid_utf8(chars);
    vstd::utf8::encode_utf8_decode_utf8(chars);
}

/// A reader of items reads what a writer of items wrote, if it does so of each item.
proof fn lemma_read_items_of_bytes<T>(
    items: Seq<T>,
    write: spec_fn(T) -> Seq<u8>,
    read: spec_fn(Seq<u8>) -> Read<T>,
    rest: Seq<u8>,
)
    requires
        forall|i: int, s: Seq<u8>|
            0 <= i < items.len() ==> #[trigger] read(write(items[i]) + s) == Ok::<
                (T, Seq<u8>),
                MessageFormatErrorKind,
            >((items[i], s)),
    ensures
        read_items(items_bytes(items, write) + rest, items.len(), read) == Ok::<
            (Seq<T>, Seq<u8>),
            MessageFormatErrorKind,
        >((items, rest)),
    decreases items.len(),
{
    if items.len() == 0 {
        assert(items_bytes(items, write) + rest =~= rest);
        assert(items =~= Seq::empty());
    } else {
        let others = items.drop_first();
        assert forall|i: int, s: Seq<u8>| 0 <= i < others.len() implies #[trigger] read(
            write(others[i]) + s,
        ) == Ok::<(T, Seq<u8>), MessageFormatErrorKind>((others[i], s)) by {
            assert(others[i] == items[i + 1]);
            assert(read(write(items[i + 1]) + s) == Ok::<(T, Seq<u8>), MessageFormatErrorKind>(
                (items[i + 1], s),
            ));
        }
        lemma_read_items_of_bytes(others, write, read, rest);
        let tail = items_bytes(others, write) + rest;
        assert(items_bytes(items, write) + rest =~= write(items[0]) + tail);
        assert(read(write(items[0]) + tail) == Ok::<(T, Seq<u8>), MessageFormatErrorKind>(
            (items[0], tail),
        ));
        assert(seq![items[0]] + others =~= items);
    }
}

proof fn lemma_read_list_of_bytes<T>(
    items: Seq<T>,
    write: spec_fn(T) -> Seq<u8>,
    read: spec_fn(Seq<u8>) -> Read<T>,
    rest: Seq<u8>,
)
    requires
        sendable_len(items.len()),
        forall|i: int, s: Seq<u8>|
            0 <= i < items.len() ==> #[trigger] read(write(items[i]) + s) == Ok::<
                (T, Seq<u8>),
                MessageFormatErrorKind,
            >((items[i], s)),
    ensures
        read_list(list_bytes(items, write) + rest, read) == Ok::<
            (Seq<T>, Seq<u8>),
            MessageFormatErrorKind,
        >((items, rest)),
{
    let tail = items_bytes(items, write) + rest;
    assert(list_bytes(items, write) + rest =~= u16_bytes(items.len() as int) + tail);
    lemma_read_i16_of_bytes(items.len() as int, tail);
    lemma_read_items_of_bytes(items, write, read, rest);
}

proof fn lemma_read_formats_of_bytes(formats: Seq<PgFormat>, rest: Seq<u8>)
    requires
        sendable_len(formats.len()),
    ensures
        read_list(list_bytes(formats, format_bytes()) + rest, format_item()) == Ok::<
            (Seq<PgFormat>, Seq<u8>),
            MessageFormatErrorKind,
        >((formats, rest)),
{
    assert forall|i: int, s: Seq<u8>| 0 <= i < formats.len() implies #[trigger] format_item()(
        format_bytes()(formats[i]) + s,
    ) == Ok::<(PgFormat, Seq<u8>), MessageFormatErrorKind>((formats[i], s)) by {
        lemma_read_i16_of_bytes(0, s);
        lemma_read_i16_of_bytes(1, s);
    }
    lemma_read_list_of_bytes(formats, format_bytes(), format_item(), rest);
}

proof fn lemma_read_param_of_bytes(param: Option<Seq<u8>>, rest: Seq<u8>)
    requires
        sendable_param(param),
    ensures
        read_param(param_bytes()(param) + rest) == Ok::<
            (Option<Seq<u8>>, Seq<u8>),
            MessageFormatErrorKind,
        >((param, rest)),
{
    match param {
        None => {
            lemma_read_i32_of_bytes(-1, rest);
        },
        Some(value) => {
            let len = value.len() as int;
            assert((i32_bytes(len) + value) + rest =~= i32_bytes(len) + (value + rest));
            lemma_read_i32_of_bytes(len, value + rest);
            assert((value + rest).take(len) =~= value);
            assert((value + rest).skip(len) =~= rest);
        },
    }
}

proof fn lemma_read_params_of_bytes(params: Seq<Option<Seq<u8>>>, rest: Seq<u8>)
    requires
        sendable_len(params.len()),
        forall|i: int| 0 <= i < params.len() ==> sendable_param(#[trigger] params[i]),
    ensures
        read_list(list_bytes(params, param_bytes()) + rest, param_item()) == Ok::<
            (Seq<Option<Seq<u8>>>, Seq<u8>),
            MessageFormatErrorKind,
        >((params, rest)),
{
    assert forall|i: int, s: Seq<u8>| 0 <= i < params.len() implies #[trigger] param_item()(
        param_bytes()(params[i]) + s,
    ) == Ok::<(Option<Seq<u8>>, Seq<u8>), MessageFormatErrorKind>((params[i], s)) by {
        lemma_read_param_of_bytes(params[i], s);
    }
    lemma_read_list_of_bytes(params, param_bytes(), param_item(), rest);
}

proof fn lemma_read_types_of_bytes<T>(
    types: Seq<Option<T>>,
    oid_of: spec_fn(Option<T>) -> u32,
    catalogue: Catalogue<T>,
    rest: Seq<u8>,
)
    requires
        sendable_len(types.len()),
        forall|i: int|
            0 <= i < types.len() ==> catalogue(oid_of(#[trigger] types[i])) == Some(types[i]),
    ensures
        read_list(list_bytes(types, type_bytes(oid_of)) + rest, type_item(catalogue)) == Ok::<
            (Seq<Option<T>>, Seq<u8>),
            MessageFormatErrorKind,
        >((types, rest)),
{
    assert forall|i: int, s: Seq<u8>| 0 <= i < types.len() implies #[trigger] type_item(catalogue)(
        type_bytes(oid_of)(types[i]) + s,
    ) == Ok::<(Option<T>, Seq<u8>), MessageFormatErrorKind>((types[i], s)) by {
        lemma_be_u32_of_bytes(oid_of(types[i]) as int, s);
        assert(catalogue(oid_of(types[i])) == Some(types[i]));
    }
    lemma_read_list_of_bytes(types, type_bytes(oid_of), type_item(catalogue), rest);
}

/// A server decodes the message that the client sent. Bytes behind it do not matter.
pub proof fn theorem_decode_gives_back_what_was_sent<T>(
    message: MessageView<T>,
    oid_of: spec_fn(Option<T>) -> u32,
    catalogue: Catalogue<T>,
    rest: Seq<u8>,
)
    requires
        sendable(message, oid_of, catalogue),
    ensures
        decode(tag_of(message), payload_of(message, oid_of) + rest, catalogue) == Ok::<
            MessageView<T>,
            MessageFormatErrorKind,
        >(message),
{
    let s = payload_of(message, oid_of) + rest;
    match message {
        MessageView::Query { sql } => {
            lemma_read_cstr_of_bytes(sql, rest);
        },
        MessageView::Bind {
            portal_name,
            statement_name,
            param_formats,
            raw_params,
            result_formats,
        } => {
            let s4 = list_bytes(result_formats, format_bytes()) + rest;
            let s3 = list_bytes(raw_params, param_bytes()) + s4;
            let s2 = list_bytes(param_formats, format_bytes()) + s3;
            let s1 = cstr_bytes(statement_name) + s2;
            assert(s =~= cstr_bytes(portal_name) + s1);
            lemma_read_cstr_of_bytes(portal_name, s1);
            lemma_read_cstr_of_bytes(statement_name, s2);
            lemma_read_formats_of_bytes(param_formats, s3);
            lemma_read_params_of_bytes(raw_params, s4);
            lemma_read_formats_of_bytes(result_formats, rest);
        },
        MessageView::ClosePortal { name }
        | MessageView::CloseStatement { name }
        | MessageView::DescribePortal { name }
        | MessageView::DescribeStatement { name } => {
            assert(s.skip(1) =~= cstr_bytes(name) + rest);
            lemma_read_cstr_of_bytes(name, rest);
        },
        MessageView::Execute { portal_name, max_rows } => {
            let s1 = i32_bytes(max_rows as int) + rest;
            assert(s =~= cstr_bytes(portal_name) + s1);
            lemma_read_cstr_of_bytes(portal_name, s1);
            lemma_read_i32_of_bytes(max_rows as int, rest);
        },
        MessageView::Parse { statement_name, sql, param_types } => {
            let s2 = list_bytes(param_types, type_bytes(oid_of)) + rest;
            let s1 = cstr_bytes(sql) + s2;
            assert(s =~= cstr_bytes(statement_name) + s1);
            lemma_read_cstr_of_bytes(statement_name, s1);
            lemma_read_cstr_of_bytes(sql, s2);
            lemma_read_types_of_bytes(param_types, oid_of, catalogue, rest);
        },
        MessageView::Flush | MessageView::Sync | MessageView::Terminate => {},
    }
}

/// What reading the types of parameters comes to, said of all the identifiers at once.
pub(crate) proof fn lemma_types_by_words<T>(
    s: Seq<u8>,
    n: nat,
    catalogue: Catalogue<T>,
    types: Seq<Option<T>>,
)
    requires
        types.len() <= words(s, n).len(),
        forall|i: int|
            0 <= i < types.len() ==> catalogue(words(s, n)[i]) == Some(#[trigger] types[i]),
        types.len() < words(s, n).len() ==> catalogue(words(s, n)[types.len() as int]) is None,
    ensures
        read_items(s, n, type_item(catalogue)) == if types.len() < words(s, n).len() {
            Err(MessageFormatErrorKind::UnsupportedOid(words(s, n)[types.len() as int]))
        } else if n * 4 <= s.len() {
            Ok((types, s.skip((n * 4) as int)))
        } else {
            Err(MessageFormatErrorKind::UnexpectedEndOfBuffer)
        },
    decreases n,
{
    let oids = words(s, n);
    if n == 0 {
        assert(s.skip(0) =~= s);
        assert(types =~= Seq::empty());
    } else if s.len() >= 4 {
        assert(s.skip(0) =~= s);
        assert(oids[0] == be_u32(s) as u32);
        if types.len() > 0 {
            let rest = s.skip(4);
            let others = words(rest, (n - 1) as nat);
            let other_types = types.drop_first();
            assert(catalogue(oids[0]) == Some(types[0]));
            assert forall|i: int| 0 <= i < others.len() implies others[i] == oids[i + 1] by {
                assert(rest.skip(4 * i) =~= s.skip(4 * (i + 1)));
            }
            assert forall|i: int| 0 <= i < other_types.len() implies catalogue(others[i]) == Some(
                #[trigger] other_types[i],
            ) by {
                assert(other_types[i] == types[i + 1]);
            }
            lemma_types_by_words(rest, (n - 1) as nat, catalogue, other_types);
            assert(seq![types[0]] + other_types =~= types);
            if n * 4 <= s.len() {
                assert(rest.skip((n - 1) * 4) =~= s.skip((n * 4) as int));
            }
        }
    }
}

/// With the answers of a catalogue about its identifiers, in the order in which they stand
/// and up to the first one that is not supported, a payload comes to the message or the
/// error that it is on a server with that catalogue.
pub proof fn theorem_answers_of_a_catalogue<T, E, F: Fn(u32) -> Result<Option<T>, E>>(
    tag: u8,
    payload: Seq<u8>,
    lookup: F,
    catalogue: Catalogue<T>,
    types: Seq<Option<T>>,
)
    requires
        computes(lookup, catalogue),
        looked_up(lookup, requested_oids(tag, payload), types),
    ensures
        decode_with(tag, payload, types) == decode(tag, payload, catalogue),
{
    if tag == PARSE {
        if let Ok((_, s1)) = read_cstr(payload) {
            if let Ok((_, s2)) = read_cstr(s1) {
                if let Ok((count, s3)) = read_i16(s2) {
                    lemma_types_by_words(s3, announced(count as int), catalogue, types);
                }
            }
        }
    }
}

/// The error says that the bytes ended before the message did.
pub open spec fn cut_short(kind: MessageFormatErrorKind) -> bool {
    kind is UnexpectedEndOfBuffer || kind is MissingNullTerminator
}

/// Reading did not fail, or it failed on bytes that are there.
pub open spec fn conclusive<T>(result: Result<T, MessageFormatErrorKind>) -> bool {
    result matches Err(kind) ==> !cut_short(kind)
}

/// What was read, with `more` behind the bytes that are left.
pub open spec fn extended<T>(read: Read<T>, more: Seq<u8>) -> Read<T> {
    match read {
        Ok((value, rest)) => Ok((value, rest + more)),
        Err(kind) => Err(kind),
    }
}

proof fn lemma_more_for_integers(s: Seq<u8>, more: Seq<u8>)
    ensures
        conclusive(read_byte(s)) ==> read_byte(s + more) == extended(read_byte(s), more),
        conclusive(read_i16(s)) ==> read_i16(s + more) == extended(read_i16(s), more),
        conclusive(read_i32(s)) ==> read_i32(s + more) == extended(read_i32(s), more),
        conclusive(read_u32(s)) ==> read_u32(s + more) == extended(read_u32(s), more),
{
    if s.len() >= 1 {
        assert((s + more).skip(1) =~= s.skip(1) + more);
    }
    if s.len() >= 2 {
        assert((s + more).skip(2) =~= s.skip(2) + more);
    }
    if s.len() >= 4 {
        assert((s + more).skip(4) =~= s.skip(4) + more);
    }
}

proof fn lemma_more_for_strings(s: Seq<u8>, more: Seq<u8>)
    requires
        conclusive(read_cstr(s)),
    ensures
        read_cstr(s + more) == extended(read_cstr(s), more),
{
    s.index_of_first_ensures(0u8);
    (s + more).index_of_first_ensures(0u8);
    if let Some(n) = s.index_of_first(0u8) {
        assert((s + more)[n] == 0);
        let first = (s + more).index_of_first(0u8)->0;
        assert(first == n) by {
            if first < n {
                assert(s[first] == 0);
            }
        }
        assert((s + more).take(n) =~= s.take(n));
        assert((s + more).skip(n + 1) =~= s.skip(n + 1) + more);
    }
}

proof fn lemma_more_for_items<T>(
    s: Seq<u8>,
    more: Seq<u8>,
    n: nat,
    item: spec_fn(Seq<u8>) -> Read<T>,
)
    requires
        forall|s: Seq<u8>| conclusive(#[trigger] item(s)) ==> item(s + more) == extended(item(s), more),
        conclusive(read_items(s, n, item)),
    ensures
        read_items(s + more, n, item) == extended(read_items(s, n, item), more),
    decreases n,
{
    if n > 0 {
        assert(conclusive(item(s)));
        if let Ok((_, rest)) = item(s) {
            lemma_more_for_items(rest, more, (n - 1) as nat, item);
        }
    }
}

proof fn lemma_more_for_lists<T>(s: Seq<u8>, more: Seq<u8>, item: spec_fn(Seq<u8>) -> Read<T>)
    requires
        forall|s: Seq<u8>| conclusive(#[trigger] item(s)) ==> item(s + more) == extended(item(s), more),
        conclusive(read_list(s, item)),
    ensures
        read_list(s + more, item) == extended(read_list(s, item), more),
{
    lemma_more_for_integers(s, more);
    if let Ok((count, rest)) = read_i16(s) {
        lemma_more_for_items(rest, more, announced(count as int), item);
    }
}

proof fn lemma_more_for_formats(s: Seq<u8>, more: Seq<u8>)
    requires
        conclusive(read_list(s, format_item())),
    ensures
        read_list(s + more, format_item()) == extended(read_list(s, format_item()), more),
{
    assert forall|s: Seq<u8>| conclusive(#[trigger] format_item()(s)) implies format_item()(s + more)
        == extended(format_item()(s), more) by {
        lemma_more_for_integers(s, more);
    }
    lemma_more_for_lists(s, more, format_item());
}

proof fn lemma_more_for_params(s: Seq<u8>, more: Seq<u8>)
    requires
        conclusive(read_list(s, param_item())),
    ensures
        read_list(s + more, param_item()) == extended(read_list(s, param_item()), more),
{
    assert forall|s: Seq<u8>| conclusive(#[trigger] param_item()(s)) implies param_item()(s + more)
        == extended(param_item()(s), more) by {
        lemma_more_for_integers(s, more);
        if let Ok((len, rest)) = read_i32(s) {
            let n = announced(len as int) as int;
            if n <= rest.len() {
                assert((rest + more).take(n) =~= rest.take(n));
                assert((rest + more).skip(n) =~= rest.skip(n) + more);
            }
        }
    }
    lemma_more_for_lists(s, more, param_item());
}

proof fn lemma_more_for_types<T>(s: Seq<u8>, more: Seq<u8>, catalogue: Catalogue<T>)
    requires
        conclusive(read_list(s, type_item(catalogue))),
    ensures
        read_list(s + more, type_item(catalogue)) == extended(read_list(s, type_item(catalogue)), more),
{
    assert forall|s: Seq<u8>| conclusive(#[trigger] type_item(catalogue)(s)) implies type_item(catalogue)(
        s + more,
    ) == extended(type_item(catalogue)(s), more) by {
        lemma_more_for_integers(s, more);
    }
    lemma_more_for_lists(s, more, type_item(catalogue));
}

/// Bytes behind a payload change nothing, neither of the message nor of the error, unless
/// the error was that the payload had ended too early.
pub proof fn theorem_bytes_behind_a_message_do_not_matter<T>(
    tag: u8,
    payload: Seq<u8>,
    more: Seq<u8>,
    catalogue: Catalogue<T>,
)
    requires
        conclusive(decode(tag, payload, catalogue)),
    ensures
        decode(tag, payload + more, catalogue) == decode(tag, payload, catalogue),
{
    let s = payload;
    if tag == CLOSE || tag == DESCRIBE {
        lemma_more_for_integers(s, more);
        if let Ok((_, s)) = read_byte(s) {
            lemma_more_for_strings(s, more);
        }
    } else if tag == QUERY {
        lemma_more_for_strings(s, more);
    } else if tag == EXECUTE {
        lemma_more_for_strings(s, more);
        if let Ok((_, s)) = read_cstr(s) {
            lemma_more_for_integers(s, more);
        }
    } else if tag == BIND {
        lemma_more_for_strings(s, more);
        if let Ok((_, s)) = read_cstr(s) {
            lemma_more_for_strings(s, more);
            if let Ok((_, s)) = read_cstr(s) {
                lemma_more_for_formats(s, more);
                if let Ok((_, s)) = read_list(s, format_item()) {
                    lemma_more_for_params(s, more);
                    if let Ok((_, s)) = read_list(s, param_item()) {
                        lemma_more_for_formats(s, more);
                    }
                }
            }
        }
    } else if tag == PARSE {
        lemma_more_for_strings(s, more);
        if let Ok((_, s)) = read_cstr(s) {
            lemma_more_for_strings(s, more);
            if let Ok((_, s)) = read_cstr(s) {
                lemma_more_for_types(s, more, catalogue);
            }
        }
    }
}

/// A payload that is cut off anywhere before its end is refused.
pub proof fn theorem_a_message_cut_short_is_refused<T>(
    message: MessageView<T>,
    oid_of: spec_fn(Option<T>) -> u32,
    catalogue: Catalogue<T>,
    k: int,
)
    requires
        sendable(message, oid_of, catalogue),
        0 <= k < payload_of(message, oid_of).len(),
    ensures
        decode(tag_of(message), payload_of(message, oid_of).take(k), catalogue) is Err,
{
    let payload = payload_of(message, oid_of);
    let s = payload.take(k);
    let more = payload.skip(k);
    let end = Seq::<u8>::empty();
    assert(s + more =~= payload);
    match message {
        MessageView::Query { sql } => {
            assert(cstr_bytes(sql) + end =~= payload);
            lemma_read_cstr_of_bytes(sql, end);
            if let Ok((_, r)) = read_cstr(s) {
                lemma_more_for_strings(s, more);
                assert((r + more).len() > 0);
            }
        },
        MessageView::Bind {
            portal_name,
            statement_name,
            param_formats,
            raw_params,
            result_formats,
        } => {
            let s4 = list_bytes(result_formats, format_bytes());
            let s3 = list_bytes(raw_params, param_bytes()) + s4;
            let s2 = list_bytes(param_formats, format_bytes()) + s3;
            let s1 = cstr_bytes(statement_name) + s2;
            assert(s4 + end =~= s4);
            lemma_read_cstr_of_bytes(portal_name, s1);
            lemma_read_cstr_of_bytes(statement_name, s2);
            lemma_read_formats_of_bytes(param_formats, s3);
            lemma_read_params_of_bytes(raw_params, s4);
            lemma_read_formats_of_bytes(result_formats, end);
            if let Ok((_, r1)) = read_cstr(s) {
                lemma_more_for_strings(s, more);
                if let Ok((_, r2)) = read_cstr(r1) {
                    lemma_more_for_strings(r1, more);
                    if let Ok((_, r3)) = read_list(r2, format_item()) {
                        lemma_more_for_formats(r2, more);
                        if let Ok((_, r4)) = read_list(r3, param_item()) {
                            lemma_more_for_params(r3, more);
                            if let Ok((_, r5)) = read_list(r4, format_item()) {
                                lemma_more_for_formats(r4, more);
                                assert((r5 + more).len() > 0);
                            }
                        }
                    }
                }
            }
        },
        MessageView::ClosePortal { name }
        | MessageView::CloseStatement { name }
        | MessageView::DescribePortal { name }
        | MessageView::DescribeStatement { name } => {
            assert(payload.skip(1) =~= cstr_bytes(name) + end);
            lemma_read_cstr_of_bytes(name, end);
            lemma_more_for_integers(s, more);
            if let Ok((_, r1)) = read_byte(s) {
                if let Ok((_, r2)) = read_cstr(r1) {
                    lemma_more_for_strings(r1, more);
                    assert((r2 + more).len() > 0);
                }
            }
        },
        MessageView::Execute { portal_name, max_rows } => {
            let s1 = i32_bytes(max_rows as int);
            assert(s1 + end =~= s1);
            lemma_read_cstr_of_bytes(portal_name, s1);
            lemma_read_i32_of_bytes(max_rows as int, end);
            if let Ok((_, r1)) = read_cstr(s) {
                lemma_more_for_strings(s, more);
                lemma_more_for_integers(r1, more);
                if let Ok((_, r2)) = read_i32(r1) {
                    assert((r2 + more).len() > 0);
                }
            }
        },
        MessageView::Parse { statement_name, sql, param_types } => {
            let s2 = list_bytes(param_types, type_bytes(oid_of));
            let s1 = cstr_bytes(sql) + s2;
            assert(s2 + end =~= s2);
            lemma_read_cstr_of_bytes(statement_name, s1);
            lemma_read_cstr_of_bytes(sql, s2);
            lemma_read_types_of_bytes(param_types, oid_of, catalogue, end);
            if let Ok((_, r1)) = read_cstr(s) {
                lemma_more_for_strings(s, more);
                if let Ok((_, r2)) = read_cstr(r1) {
                    lemma_more_for_strings(r1, more);
                    if let Ok((_, r3)) = read_list(r2, type_item(catalogue)) {
                        lemma_more_for_types(r2, more, catalogue);
                        assert((r3 + more).len() > 0);
                    }
                }
            }
        },
        MessageView::Flush | MessageView::Sync | MessageView::Terminate => {},
    }
}

/// What a decoder comes to when its caller reads from `stream` exactly the bytes that it
/// requests: the message or the error, and the bytes of the stream that were not read;
/// nothing, if the stream ends before a request is met.
pub open spec fn received<T>(
    stage: Stage,
    bytes: Seq<u8>,
    stream: Seq<u8>,
    catalogue: Catalogue<T>,
) -> Option<(Result<MessageView<T>, MessageFormatErrorKind>, Seq<u8>)>
    decreases
            match stage {
                Stage::Idle => 3nat,
                Stage::Tag => 2nat,
                Stage::Length(_) => 1nat,
                Stage::Payload(_) => 0nat,
            },
{
    let (next, status) = step(stage, bytes, catalogue);
    match status {
        Ok(StatusView::Requesting(len)) => if stream.len() < len {
            None
        } else {
            received(next, stream.take(len as int), stream.skip(len as int), catalogue)
        },
        Ok(StatusView::Done(message)) => Some((Ok(message), stream)),
        Err(kind) => Some((Err(kind), stream)),
    }
}

/// A decoder that has not started a message receives the message at the start of a
/// stream, whatever it was called with, reads no byte behind that message, and is then
/// ready for the next one. What it is given in each of the four calls is acceptable.
pub proof fn theorem_a_frame_is_received<T>(
    message: MessageView<T>,
    oid_of: spec_fn(Option<T>) -> u32,
    catalogue: Catalogue<T>,
    bytes: Seq<u8>,
    rest: Seq<u8>,
)
    requires
        sendable(message, oid_of, catalogue),
        payload_of(message, oid_of).len() + 4 <= i32::MAX,
    ensures
        received(Stage::Idle, bytes, frame_of(message, oid_of) + rest, catalogue) == Some(
            (Ok::<MessageView<T>, MessageFormatErrorKind>(message), rest),
        ),
        acceptable(Stage::Idle, bytes),
        acceptable(Stage::Tag, frame_of(message, oid_of).take(1)),
        acceptable(Stage::Length(tag_of(message)), frame_of(message, oid_of).subrange(1, 5)),
        acceptable(Stage::Payload(tag_of(message)), frame_of(message, oid_of).skip(5)),
        frame_of(message, oid_of).skip(5) == payload_of(message, oid_of),
        step(Stage::Payload(tag_of(message)), payload_of(message, oid_of), catalogue).0
            == Stage::Idle,
{
    let tag = tag_of(message);
    let payload = payload_of(message, oid_of);
    let len = i32_bytes(payload.len() as int + 4);
    let stream = frame_of(message, oid_of) + rest;
    let s1 = len + (payload + rest);
    let s2 = payload + rest;
    assert(stream.take(1) =~= seq![tag]);
    assert(stream.skip(1) =~= s1);
    assert(s1.take(4) =~= len);
    assert(s1.skip(4) =~= s2);
    assert(s2.take(payload.len() as int) =~= payload);
    assert(s2.skip(payload.len() as int) =~= rest);
    assert(frame_of(message, oid_of).subrange(1, 5) =~= len);
    assert(frame_of(message, oid_of).skip(5) =~= payload);
    assert(len + Seq::empty() =~= len);
    lemma_read_i32_of_bytes(payload.len() as int + 4, Seq::empty());
    theorem_decode_gives_back_what_was_sent(message, oid_of, catalogue, Seq::empty());
    assert(payload + Seq::empty() =~= payload);
    reveal_with_fuel(received, 4);
}

/// A message takes four calls, in which a decoder waits for nothing, a tag, a length and
/// a payload. Whatever the payload was, it is then where it started.
pub proof fn theorem_full_cycle<T>(
    nothing: Seq<u8>,
    tag: Seq<u8>,
    len: Seq<u8>,
    payload: Seq<u8>,
    catalogue: Catalogue<T>,
)
    requires
        tag.len() > 0,
        len.len() >= 4,
        acceptable(Stage::Length(tag[0]), len),
    ensures
        step(Stage::Idle, nothing, catalogue) == (
            Stage::Tag,
            Ok::<StatusView<T>, MessageFormatErrorKind>(StatusView::Requesting(1)),
        ),
        step(Stage::Tag, tag, catalogue) == (
            Stage::Length(tag[0]),
            Ok::<StatusView<T>, MessageFormatErrorKind>(StatusView::Requesting(4)),
        ),
        step(Stage::Length(tag[0]), len, catalogue) == (
            Stage::Payload(tag[0]),
            Ok::<StatusView<T>, MessageFormatErrorKind>(
                StatusView::Requesting(payload_len(be_i32(len))),
            ),
        ),
        step(Stage::Payload(tag[0]), payload, catalogue).0 == Stage::Idle,
{
}

/// The tags with which messages start.
pub open spec fn supported_tag(tag: u8) -> bool {
    ||| tag == QUERY
    ||| tag == BIND
    ||| tag == CLOSE
    ||| tag == DESCRIBE
    ||| tag == EXECUTE
    ||| tag == FLUSH
    ||| tag == PARSE
    ||| tag == SYNC
    ||| tag == TERMINATE
}

proof fn lemma_items_have_no_tag_error<T>(s: Seq<u8>, n: nat, item: spec_fn(Seq<u8>) -> Read<T>)
    requires
        forall|s: Seq<u8>| (#[trigger] item(s)) matches Err(kind) ==> !(kind is UnsupportedFrontendMessage),
    ensures
        read_items(s, n, item) matches Err(kind) ==> !(kind is UnsupportedFrontendMessage),
    decreases n,
{
    if n > 0 {
        if let Ok((_, rest)) = item(s) {
            lemma_items_have_no_tag_error(rest, (n - 1) as nat, item);
        }
    }
}

proof fn lemma_lists_have_no_tag_error<T>(s: Seq<u8>, item: spec_fn(Seq<u8>) -> Read<T>)
    requires
        forall|s: Seq<u8>| (#[trigger] item(s)) matches Err(kind) ==> !(kind is UnsupportedFrontendMessage),
    ensures
        read_list(s, item) matches Err(kind) ==> !(kind is UnsupportedFrontendMessage),
{
    if let Ok((count, rest)) = read_i16(s) {
        lemma_items_have_no_tag_error(rest, announced(count as int), item);
    }
}

/// Exactly the tags that start no message are refused for what they are, whatever the
/// payload, and the error names the tag.
pub proof fn theorem_unsupported_tags_are_refused<T>(
    tag: u8,
    payload: Seq<u8>,
    catalogue: Catalogue<T>,
)
    ensures
        (decode(tag, payload, catalogue) matches Err(kind) && kind is UnsupportedFrontendMessage)
            <==> !supported_tag(tag),
        !supported_tag(tag) ==> decode(tag, payload, catalogue) == Err::<
            MessageView<T>,
            MessageFormatErrorKind,
        >(MessageFormatErrorKind::UnsupportedFrontendMessage(tag as char)),
{
    if let Ok((_, s)) = read_cstr(payload) {
        if let Ok((_, s)) = read_cstr(s) {
            lemma_lists_have_no_tag_error(s, format_item());
            lemma_lists_have_no_tag_error(s, type_item(catalogue));
            if let Ok((_, s)) = read_list(s, format_item()) {
                lemma_lists_have_no_tag_error(s, param_item());
                if let Ok((_, s)) = read_list(s, param_item()) {
                    lemma_lists_have_no_tag_error(s, format_item());
                }
            }
        }
    }
}

} // verus!
