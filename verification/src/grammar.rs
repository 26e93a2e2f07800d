//! Which payloads are which messages.
//!
//! Each law here takes the payloads of a message apart: they are the bytes of its fields,
//! one behind the other, and then any bytes at all. A payload comes to a message only if it
//! is made of the fields of that message, and to an error only if the first field that is
//! wrong has that fault.
use crate::catalogue::{computes, looked_up, Catalogue};
use crate::errors::MessageFormatErrorKind;
use crate::formats::PgFormat;
use crate::frontend::MessageView;
use crate::laws::{
    i16_bytes, i32_bytes, lemma_be_u32_of_bytes, lemma_read_cstr_of_bytes, lemma_read_i32_of_bytes,
    lemma_string_bytes, lemma_types_by_words, u32_bytes,
};
use crate::wire::{
    announced, be_u16, be_u32, decode, decode_with, format_item, param_item, read_byte, read_cstr,
    read_format, read_i16, read_i32, read_items, read_list, read_param, read_type, read_u32,
    requested_oids, type_item, words, Read,
};
use vstd::prelude::*;
use vstd::utf8::{encode_scalar, encode_utf8, valid_utf8};

verus! {

/// `s` is the string of these characters, a zero byte, and `rest`.
#[verifier::opaque]
pub open spec fn string_is(s: Seq<u8>, chars: Seq<char>, rest: Seq<u8>) -> bool {
    &&& !chars.contains('\0')
    &&& s == encode_utf8(chars) + seq![0u8] + rest
}

/// `s` is the string of these characters, a zero byte, and any bytes.
pub open spec fn starts_with_string(s: Seq<u8>, chars: Seq<char>) -> bool {
    exists|rest: Seq<u8>| string_is(s, chars, rest)
}

/// There is no string at the start of `s`: there is no zero byte, or the bytes in front of
/// the first one are not UTF-8.
#[verifier::opaque]
pub open spec fn string_fails(s: Seq<u8>, kind: MessageFormatErrorKind) -> bool {
    ||| kind is MissingNullTerminator && !s.contains(0u8)
    ||| kind is InvalidUtf8String && exists|text: Seq<u8>, rest: Seq<u8>|
        s == #[trigger] (text + seq![0u8] + rest) && !text.contains(0u8) && !valid_utf8(text)
}

/// `s` is the 16-bit code of this format, and `rest`.
pub open spec fn format_is(s: Seq<u8>, format: PgFormat, rest: Seq<u8>) -> bool {
    match format {
        PgFormat::Text => s == seq![0u8, 0u8] + rest,
        PgFormat::Binary => s == seq![0u8, 1u8] + rest,
    }
}

/// There is no format at the start of `s`: not even two bytes, or a code other than 0 and 1.
pub open spec fn format_fails(s: Seq<u8>, kind: MessageFormatErrorKind) -> bool {
    ||| kind is UnexpectedEndOfBuffer && s.len() < 2
    ||| exists|code: i16, rest: Seq<u8>|
        s == #[trigger] (i16_bytes(code as int) + rest) && code != 0 && code != 1 && kind
            == MessageFormatErrorKind::UnrecognizedFormat(code)
}

/// `s` is the length and the bytes of this value, and `rest`. NULL has the length -1, and
/// an empty value has the length 0 or one below -1.
pub open spec fn param_is(s: Seq<u8>, param: Option<Seq<u8>>, rest: Seq<u8>) -> bool {
    match param {
        None => s == i32_bytes(-1) + rest,
        Some(value) => {
            ||| value.len() <= i32::MAX && s == i32_bytes(value.len() as int) + value + rest
            ||| value.len() == 0 && exists|len: i32|
                len < -1 && s == #[trigger] i32_bytes(len as int) + rest
        },
    }
}

/// There is no value at the start of `s`: not even a length, or fewer bytes than it says.
pub open spec fn param_fails(s: Seq<u8>, kind: MessageFormatErrorKind) -> bool {
    &&& kind is UnexpectedEndOfBuffer
    &&& {
        ||| s.len() < 4
        ||| exists|len: i32, rest: Seq<u8>|
            s == #[trigger] (i32_bytes(len as int) + rest) && rest.len() < len
    }
}

/// `s` is an object identifier about which the catalogue has this answer, and `rest`.
pub open spec fn type_is<T>(
    s: Seq<u8>,
    param_type: Option<T>,
    rest: Seq<u8>,
    catalogue: Catalogue<T>,
) -> bool {
    exists|oid: u32|
        s == #[trigger] u32_bytes(oid as int) + rest && catalogue(oid) == Some(param_type)
}

/// There is no type at the start of `s`: not even an identifier, or one about which the
/// catalogue has no answer.
pub open spec fn type_fails<T>(
    s: Seq<u8>,
    kind: MessageFormatErrorKind,
    catalogue: Catalogue<T>,
) -> bool {
    ||| kind is UnexpectedEndOfBuffer && s.len() < 4
    ||| exists|oid: u32, rest: Seq<u8>|
        s == #[trigger] (u32_bytes(oid as int) + rest) && catalogue(oid) is None && kind
            == MessageFormatErrorKind::UnsupportedOid(oid)
}

/// What is at the start of some bytes: `is(s, value, rest)` for an item.
pub type Is<T> = spec_fn(Seq<u8>, T, Seq<u8>) -> bool;

/// Why there is nothing at the start of some bytes: `fails(s, kind)`.
pub type Fails = spec_fn(Seq<u8>, MessageFormatErrorKind) -> bool;

/// `cuts` are the places in `s` at which its items, and then `rest`, start.
pub open spec fn is_cut<T>(
    cuts: Seq<Seq<u8>>,
    s: Seq<u8>,
    items: Seq<T>,
    rest: Seq<u8>,
    is: Is<T>,
) -> bool {
    &&& cuts.len() == items.len() + 1
    &&& cuts[0] == s
    &&& cuts[items.len() as int] == rest
    &&& forall|i: int| 0 <= i < items.len() ==> is(cuts[i], #[trigger] items[i], cuts[i + 1])
}

/// `s` is these items, one behind the other, and `rest`.
pub open spec fn items_are<T>(s: Seq<u8>, items: Seq<T>, rest: Seq<u8>, is: Is<T>) -> bool {
    exists|cuts: Seq<Seq<u8>>| #[trigger] is_cut(cuts, s, items, rest, is)
}

/// The 16-bit count announces this many items. A count below zero announces none.
pub open spec fn counts(count: i16, len: nat) -> bool {
    count == len || count < 0 && len == 0
}

/// `s` is a count, the items that it announces, and `rest`.
#[verifier::opaque]
pub open spec fn list_is<T>(s: Seq<u8>, items: Seq<T>, rest: Seq<u8>, is: Is<T>) -> bool {
    exists|count: i16, t: Seq<u8>|
        s == #[trigger] (i16_bytes(count as int) + t) && counts(count, items.len()) && items_are(
            t,
            items,
            rest,
            is,
        )
}

/// There is no list at the start of `s`: not even a count, or an item that it announces is
/// wrong and those in front of it are right.
#[verifier::opaque]
pub open spec fn list_fails<T>(
    s: Seq<u8>,
    kind: MessageFormatErrorKind,
    is: Is<T>,
    fails: Fails,
) -> bool {
    ||| kind is UnexpectedEndOfBuffer && s.len() < 2
    ||| exists|count: i16, t: Seq<u8>, items: Seq<T>, rest: Seq<u8>|
        #![trigger i16_bytes(count as int) + t, items_are(t, items, rest, is)]
        s == i16_bytes(count as int) + t && items.len() < count && items_are(t, items, rest, is)
            && fails(rest, kind)
}

/// [`format_is`] of an item.
pub open spec fn a_format() -> Is<PgFormat> {
    |s: Seq<u8>, format: PgFormat, rest: Seq<u8>| format_is(s, format, rest)
}

/// [`format_fails`] of an item.
pub open spec fn no_format() -> Fails {
    |s: Seq<u8>, kind: MessageFormatErrorKind| format_fails(s, kind)
}

/// [`param_is`] of an item.
pub open spec fn a_param() -> Is<Option<Seq<u8>>> {
    |s: Seq<u8>, param: Option<Seq<u8>>, rest: Seq<u8>| param_is(s, param, rest)
}

/// [`param_fails`] of an item.
pub open spec fn no_param() -> Fails {
    |s: Seq<u8>, kind: MessageFormatErrorKind| param_fails(s, kind)
}

/// [`type_is`] of an item.
pub open spec fn a_type<T>(catalogue: Catalogue<T>) -> Is<Option<T>> {
    |s: Seq<u8>, param_type: Option<T>, rest: Seq<u8>| type_is(s, param_type, rest, catalogue)
}

/// [`type_fails`] of an item.
pub open spec fn no_type<T>(catalogue: Catalogue<T>) -> Fails {
    |s: Seq<u8>, kind: MessageFormatErrorKind| type_fails(s, kind, catalogue)
}

proof fn lemma_zero_byte(chars: Seq<char>)
    requires
        chars.contains('\0'),
    ensures
        encode_utf8(chars).contains(0u8),
    decreases chars.len(),
{
    let k = choose|k: int| 0 <= k < chars.len() && chars[k] == '\0';
    let first = encode_scalar(chars[0] as u32);
    let rest = chars.drop_first();
    if k == 0 {
        assert((0u32 & 0x7F) as u8 == 0) by (bit_vector);
        assert(first[0] == 0);
        assert(encode_utf8(chars)[0] == 0);
    } else {
        assert(rest[k - 1] == '\0');
        lemma_zero_byte(rest);
        let j = choose|j: int| 0 <= j < encode_utf8(rest).len() && encode_utf8(rest)[j] == 0;
        assert(encode_utf8(chars)[first.len() + j] == 0);
    }
}

proof fn lemma_string_is(s: Seq<u8>, chars: Seq<char>, rest: Seq<u8>)
    ensures
        string_is(s, chars, rest) <==> read_cstr(s) == Ok::<_, MessageFormatErrorKind>(
            (chars, rest),
        ),
{
    reveal(string_is);
    if string_is(s, chars, rest) {
        assert(s =~= encode_utf8(chars).push(0) + rest);
        lemma_read_cstr_of_bytes(chars, rest);
    }
    if read_cstr(s) == Ok::<_, MessageFormatErrorKind>((chars, rest)) {
        s.index_of_first_ensures(0u8);
        let n = s.index_of_first(0u8)->0;
        vstd::utf8::decode_utf8_encode_utf8(s.take(n));
        assert(!s.take(n).contains(0u8));
        if chars.contains('\0') {
            lemma_zero_byte(chars);
        }
        assert(s =~= s.take(n) + seq![0u8] + s.skip(n + 1));
    }
}

proof fn lemma_string_fails(s: Seq<u8>, kind: MessageFormatErrorKind)
    ensures
        string_fails(s, kind) <==> read_cstr(s) == Err::<(Seq<char>, Seq<u8>), _>(kind),
{
    reveal(string_fails);
    s.index_of_first_ensures(0u8);
    if string_fails(s, kind) && kind is InvalidUtf8String {
        let (text, rest) = choose|text: Seq<u8>, rest: Seq<u8>|
            s == #[trigger] (text + seq![0u8] + rest) && !text.contains(0u8) && !valid_utf8(text);
        let n = text.len() as int;
        assert(s[n] == 0);
        let first = s.index_of_first(0u8)->0;
        assert(first == n) by {
            if first < n {
                assert(text[first] == 0);
            }
        }
        assert(s.take(n) =~= text);
    }
    if read_cstr(s) == Err::<(Seq<char>, Seq<u8>), _>(kind) && kind is InvalidUtf8String {
        let n = s.index_of_first(0u8)->0;
        assert(!s.take(n).contains(0u8));
        assert(s =~= s.take(n) + seq![0u8] + s.skip(n + 1));
    }
}

/// Reading a string gives the string that is there, or says why there is none.
pub(crate) proof fn lemma_strings(s: Seq<u8>)
    ensures
        forall|chars: Seq<char>, rest: Seq<u8>| #[trigger]
            string_is(s, chars, rest) <==> read_cstr(s) == Ok::<_, MessageFormatErrorKind>(
                (chars, rest),
            ),
        forall|kind: MessageFormatErrorKind| #[trigger]
            string_fails(s, kind) <==> read_cstr(s) == Err::<(Seq<char>, Seq<u8>), _>(kind),
{
    assert forall|chars: Seq<char>, rest: Seq<u8>| #[trigger]
        string_is(s, chars, rest) <==> read_cstr(s) == Ok::<_, MessageFormatErrorKind>(
            (chars, rest),
        ) by {
        lemma_string_is(s, chars, rest);
    }
    assert forall|kind: MessageFormatErrorKind| #[trigger]
        string_fails(s, kind) <==> read_cstr(s) == Err::<(Seq<char>, Seq<u8>), _>(kind) by {
        lemma_string_fails(s, kind);
    }
}

pub(crate) proof fn lemma_i16(s: Seq<u8>)
    ensures
        forall|n: i16, rest: Seq<u8>|
            s == #[trigger] (i16_bytes(n as int) + rest) <==> read_i16(s) == Ok::<
                _,
                MessageFormatErrorKind,
            >((n, rest)),
{
    assert forall|n: i16, rest: Seq<u8>|
        s == #[trigger] (i16_bytes(n as int) + rest) <==> read_i16(s) == Ok::<
            _,
            MessageFormatErrorKind,
        >((n, rest)) by {
        let bytes = i16_bytes(n as int);
        let u: int = if n < 0 {
            n + 0x1_0000
        } else {
            n as int
        };
        assert(bytes.len() == 2 && bytes[0] == u / 0x100 && bytes[1] == u % 0x100);
        if s == bytes + rest {
            assert(s[0] == bytes[0] && s[1] == bytes[1]);
            assert(s.skip(2) =~= rest);
        }
        if read_i16(s) == Ok::<_, MessageFormatErrorKind>((n, rest)) {
            assert(be_u16(s) == u);
            assert(s =~= bytes + rest);
        }
    }
}

proof fn lemma_four_bytes(s: Seq<u8>)
    requires
        s.len() >= 4,
    ensures
        0 <= be_u32(s) < 0x1_0000_0000,
        s == u32_bytes(be_u32(s)) + s.skip(4),
{
    let n = be_u32(s);
    assert(n / 0x100_0000 == s[0]);
    assert(n / 0x1_0000 == s[0] * 0x100 + s[1]);
    assert(n / 0x100 == s[0] * 0x1_0000 + s[1] * 0x100 + s[2]);
    assert(s =~= u32_bytes(n) + s.skip(4));
}

pub(crate) proof fn lemma_u32(s: Seq<u8>)
    ensures
        forall|n: u32, rest: Seq<u8>|
            s == #[trigger] (u32_bytes(n as int) + rest) <==> read_u32(s) == Ok::<
                _,
                MessageFormatErrorKind,
            >((n, rest)),
{
    assert forall|n: u32, rest: Seq<u8>|
        s == #[trigger] (u32_bytes(n as int) + rest) <==> read_u32(s) == Ok::<
            _,
            MessageFormatErrorKind,
        >((n, rest)) by {
        if s == u32_bytes(n as int) + rest {
            lemma_be_u32_of_bytes(n as int, rest);
        }
        if read_u32(s) == Ok::<_, MessageFormatErrorKind>((n, rest)) {
            lemma_four_bytes(s);
        }
    }
}

pub(crate) proof fn lemma_i32(s: Seq<u8>)
    ensures
        forall|n: i32, rest: Seq<u8>|
            s == #[trigger] (i32_bytes(n as int) + rest) <==> read_i32(s) == Ok::<
                _,
                MessageFormatErrorKind,
            >((n, rest)),
{
    assert forall|n: i32, rest: Seq<u8>|
        s == #[trigger] (i32_bytes(n as int) + rest) <==> read_i32(s) == Ok::<
            _,
            MessageFormatErrorKind,
        >((n, rest)) by {
        if s == i32_bytes(n as int) + rest {
            lemma_read_i32_of_bytes(n as int, rest);
        }
        if read_i32(s) == Ok::<_, MessageFormatErrorKind>((n, rest)) {
            lemma_four_bytes(s);
        }
    }
}

proof fn lemma_formats(s: Seq<u8>)
    ensures
        forall|format: PgFormat, rest: Seq<u8>| #[trigger]
            format_is(s, format, rest) <==> read_format(s) == Ok::<_, MessageFormatErrorKind>(
                (format, rest),
            ),
        forall|kind: MessageFormatErrorKind| #[trigger]
            format_fails(s, kind) <==> read_format(s) == Err::<(PgFormat, Seq<u8>), _>(kind),
{
    lemma_i16(s);
    assert(i16_bytes(0) =~= seq![0u8, 0u8]);
    assert(i16_bytes(1) =~= seq![0u8, 1u8]);
    assert forall|format: PgFormat, rest: Seq<u8>| #[trigger]
        format_is(s, format, rest) <==> read_format(s) == Ok::<_, MessageFormatErrorKind>(
            (format, rest),
        ) by {
        let zero: i16 = 0;
        let one: i16 = 1;
        assert(s == i16_bytes(zero as int) + rest <==> read_i16(s) == Ok::<
            _,
            MessageFormatErrorKind,
        >((zero, rest)));
        assert(s == i16_bytes(one as int) + rest <==> read_i16(s) == Ok::<
            _,
            MessageFormatErrorKind,
        >((one, rest)));
    }
    assert forall|kind: MessageFormatErrorKind| #[trigger]
        format_fails(s, kind) <==> read_format(s) == Err::<(PgFormat, Seq<u8>), _>(kind) by {
        if let Ok((code, rest)) = read_i16(s) {
            assert(s == i16_bytes(code as int) + rest);
        }
    }
}

proof fn lemma_param_is(s: Seq<u8>, param: Option<Seq<u8>>, rest: Seq<u8>)
    ensures
        param_is(s, param, rest) <==> read_param(s) == Ok::<_, MessageFormatErrorKind>(
            (param, rest),
        ),
{
    lemma_i32(s);
    let null: i32 = -1i32;
    assert(s == i32_bytes(null as int) + rest <==> read_i32(s) == Ok::<_, MessageFormatErrorKind>(
        (null, rest),
    ));
    if let Some(value) = param {
        if value.len() <= i32::MAX {
            let len = value.len() as i32;
            assert(i32_bytes(len as int) + value + rest =~= i32_bytes(len as int) + (value + rest));
            assert(s == i32_bytes(len as int) + (value + rest) <==> read_i32(s) == Ok::<
                _,
                MessageFormatErrorKind,
            >((len, value + rest)));
            assert((value + rest).take(len as int) =~= value);
            assert((value + rest).skip(len as int) =~= rest);
        }
    }
    if param_is(s, param, rest) {
        if let Some(value) = param {
            if value.len() == 0 && exists|len: i32|
                len < -1 && s == #[trigger] i32_bytes(len as int) + rest {
                let len = choose|len: i32|
                    len < -1 && s == #[trigger] i32_bytes(len as int) + rest;
                assert(read_i32(s) == Ok::<_, MessageFormatErrorKind>((len, rest)));
                assert(rest.take(0) =~= value);
                assert(rest.skip(0) =~= rest);
            }
        }
    }
    if read_param(s) == Ok::<_, MessageFormatErrorKind>((param, rest)) {
        let (len, t) = read_i32(s)->Ok_0;
        assert(s == i32_bytes(len as int) + t);
        if let Some(value) = param {
            if len >= 0 {
                assert(t =~= value + rest);
            } else {
                assert(t.skip(0) =~= t);
                assert(value.len() == 0);
            }
        }
    }
}

proof fn lemma_params(s: Seq<u8>)
    ensures
        forall|param: Option<Seq<u8>>, rest: Seq<u8>| #[trigger]
            param_is(s, param, rest) <==> read_param(s) == Ok::<_, MessageFormatErrorKind>(
                (param, rest),
            ),
        forall|kind: MessageFormatErrorKind| #[trigger]
            param_fails(s, kind) <==> read_param(s) == Err::<(Option<Seq<u8>>, Seq<u8>), _>(kind),
{
    assert forall|param: Option<Seq<u8>>, rest: Seq<u8>| #[trigger]
        param_is(s, param, rest) <==> read_param(s) == Ok::<_, MessageFormatErrorKind>(
            (param, rest),
        ) by {
        lemma_param_is(s, param, rest);
    }
    lemma_i32(s);
    assert forall|kind: MessageFormatErrorKind| #[trigger]
        param_fails(s, kind) <==> read_param(s) == Err::<(Option<Seq<u8>>, Seq<u8>), _>(kind) by {
        if let Ok((len, rest)) = read_i32(s) {
            assert(s == i32_bytes(len as int) + rest);
        }
    }
}

proof fn lemma_types<T>(s: Seq<u8>, catalogue: Catalogue<T>)
    ensures
        forall|param_type: Option<T>, rest: Seq<u8>| #[trigger]
            type_is(s, param_type, rest, catalogue) <==> read_type(s, catalogue) == Ok::<
                _,
                MessageFormatErrorKind,
            >((param_type, rest)),
        forall|kind: MessageFormatErrorKind| #[trigger]
            type_fails(s, kind, catalogue) <==> read_type(s, catalogue) == Err::<
                (Option<T>, Seq<u8>),
                _,
            >(kind),
{
    lemma_u32(s);
    if let Ok((oid, rest)) = read_u32(s) {
        assert(s == u32_bytes(oid as int) + rest);
    }
}

proof fn lemma_items_are<T>(
    s: Seq<u8>,
    n: nat,
    item: spec_fn(Seq<u8>) -> Read<T>,
    is: Is<T>,
    items: Seq<T>,
    rest: Seq<u8>,
)
    requires
        forall|s: Seq<u8>, value: T, rest: Seq<u8>| #[trigger]
            is(s, value, rest) <==> item(s) == Ok::<_, MessageFormatErrorKind>((value, rest)),
    ensures
        read_items(s, n, item) == Ok::<_, MessageFormatErrorKind>((items, rest)) <==> items.len()
            == n && items_are(s, items, rest, is),
    decreases n,
{
    if n == 0 {
        if items.len() == 0 && items_are(s, items, rest, is) {
            assert(items =~= Seq::empty());
        }
        if read_items(s, n, item) == Ok::<_, MessageFormatErrorKind>((items, rest)) {
            assert(is_cut(seq![s], s, items, rest, is));
        }
    } else {
        if items.len() == n && items_are(s, items, rest, is) {
            let cuts = choose|cuts: Seq<Seq<u8>>| #[trigger] is_cut(cuts, s, items, rest, is);
            let others = items.drop_first();
            assert(is(cuts[0], items[0], cuts[1]));
            assert forall|i: int| 0 <= i < others.len() implies is(
                cuts.drop_first()[i],
                #[trigger] others[i],
                cuts.drop_first()[i + 1],
            ) by {
                assert(others[i] == items[i + 1]);
            }
            assert(is_cut(cuts.drop_first(), cuts[1], others, rest, is));
            lemma_items_are(cuts[1], (n - 1) as nat, item, is, others, rest);
            assert(seq![items[0]] + others =~= items);
        }
        if read_items(s, n, item) == Ok::<_, MessageFormatErrorKind>((items, rest)) {
            let (first, t) = item(s)->Ok_0;
            let (others, _) = read_items(t, (n - 1) as nat, item)->Ok_0;
            lemma_items_are(t, (n - 1) as nat, item, is, others, rest);
            let tail = choose|cuts: Seq<Seq<u8>>| #[trigger] is_cut(cuts, t, others, rest, is);
            let cuts = seq![s] + tail;
            assert(is(s, first, t));
            assert forall|i: int| 0 <= i < items.len() implies is(
                cuts[i],
                #[trigger] items[i],
                cuts[i + 1],
            ) by {
                if i > 0 {
                    assert(items[i] == others[i - 1]);
                    assert(is(tail[i - 1], others[i - 1], tail[i]));
                }
            }
            assert(is_cut(cuts, s, items, rest, is));
        }
    }
}

proof fn lemma_items_fail<T>(
    s: Seq<u8>,
    n: nat,
    item: spec_fn(Seq<u8>) -> Read<T>,
    is: Is<T>,
    fails: Fails,
    kind: MessageFormatErrorKind,
)
    requires
        forall|s: Seq<u8>, value: T, rest: Seq<u8>| #[trigger]
            is(s, value, rest) <==> item(s) == Ok::<_, MessageFormatErrorKind>((value, rest)),
        forall|s: Seq<u8>, kind: MessageFormatErrorKind| #[trigger]
            fails(s, kind) <==> item(s) == Err::<(T, Seq<u8>), _>(kind),
    ensures
        read_items(s, n, item) == Err::<(Seq<T>, Seq<u8>), _>(kind) <==> exists|
            items: Seq<T>,
            rest: Seq<u8>,
        | #[trigger]
            items_are(s, items, rest, is) && items.len() < n && fails(rest, kind),
    decreases n,
{
    if n > 0 {
        if exists|items: Seq<T>, rest: Seq<u8>| #[trigger]
            items_are(s, items, rest, is) && items.len() < n && fails(rest, kind) {
            let (items, rest) = choose|items: Seq<T>, rest: Seq<u8>| #[trigger]
                items_are(s, items, rest, is) && items.len() < n && fails(rest, kind);
            let cuts = choose|cuts: Seq<Seq<u8>>| #[trigger] is_cut(cuts, s, items, rest, is);
            if items.len() > 0 {
                let others = items.drop_first();
                assert(is(cuts[0], items[0], cuts[1]));
                assert forall|i: int| 0 <= i < others.len() implies is(
                    cuts.drop_first()[i],
                    #[trigger] others[i],
                    cuts.drop_first()[i + 1],
                ) by {
                    assert(others[i] == items[i + 1]);
                }
                assert(is_cut(cuts.drop_first(), cuts[1], others, rest, is));
                assert(items_are(cuts[1], others, rest, is));
                lemma_items_fail(cuts[1], (n - 1) as nat, item, is, fails, kind);
            }
        }
        if read_items(s, n, item) == Err::<(Seq<T>, Seq<u8>), _>(kind) {
            match item(s) {
                Err(_) => {
                    let items = Seq::<T>::empty();
                    assert(is_cut(seq![s], s, items, s, is));
                    assert(items_are(s, items, s, is));
                    assert(fails(s, kind));
                },
                Ok((first, t)) => {
                    lemma_items_fail(t, (n - 1) as nat, item, is, fails, kind);
                    let (others, rest) = choose|items: Seq<T>, rest: Seq<u8>| #[trigger]
                        items_are(t, items, rest, is) && items.len() < n - 1 && fails(rest, kind);
                    let tail = choose|cuts: Seq<Seq<u8>>| #[trigger]
                        is_cut(cuts, t, others, rest, is);
                    let items = seq![first] + others;
                    let cuts = seq![s] + tail;
                    assert(is(s, first, t));
                    assert forall|i: int| 0 <= i < items.len() implies is(
                        cuts[i],
                        #[trigger] items[i],
                        cuts[i + 1],
                    ) by {
                        if i > 0 {
                            assert(items[i] == others[i - 1]);
                            assert(is(tail[i - 1], others[i - 1], tail[i]));
                        }
                    }
                    assert(is_cut(cuts, s, items, rest, is));
                    assert(items_are(s, items, rest, is));
                },
            }
        }
    }
}

/// Reading a list gives the list that is there, or says why there is none, if that is so
/// of its items.
proof fn lemma_lists<T>(
    s: Seq<u8>,
    item: spec_fn(Seq<u8>) -> Read<T>,
    is: Is<T>,
    fails: Fails,
)
    requires
        forall|s: Seq<u8>, value: T, rest: Seq<u8>| #[trigger]
            is(s, value, rest) <==> item(s) == Ok::<_, MessageFormatErrorKind>((value, rest)),
        forall|s: Seq<u8>, kind: MessageFormatErrorKind| #[trigger]
            fails(s, kind) <==> item(s) == Err::<(T, Seq<u8>), _>(kind),
    ensures
        forall|items: Seq<T>, rest: Seq<u8>| #[trigger]
            list_is(s, items, rest, is) <==> read_list(s, item) == Ok::<_, MessageFormatErrorKind>(
                (items, rest),
            ),
        forall|kind: MessageFormatErrorKind| #[trigger]
            list_fails(s, kind, is, fails) <==> read_list(s, item) == Err::<
                (Seq<T>, Seq<u8>),
                _,
            >(kind),
{
    reveal(list_is);
    reveal(list_fails);
    lemma_i16(s);
    if let Ok((count, t)) = read_i16(s) {
        assert(s == i16_bytes(count as int) + t);
        let n = announced(count as int);
        assert forall|items: Seq<T>, rest: Seq<u8>| #[trigger]
            list_is(s, items, rest, is) <==> read_list(s, item) == Ok::<_, MessageFormatErrorKind>(
                (items, rest),
            ) by {
            lemma_items_are(t, n, item, is, items, rest);
        }
        assert forall|kind: MessageFormatErrorKind| #[trigger]
            list_fails(s, kind, is, fails) <==> read_list(s, item) == Err::<
                (Seq<T>, Seq<u8>),
                _,
            >(kind) by {
            lemma_items_fail(t, n, item, is, fails, kind);
        }
    }
}

proof fn lemma_format_lists(s: Seq<u8>)
    ensures
        forall|items: Seq<PgFormat>, rest: Seq<u8>| #[trigger]
            list_is(s, items, rest, a_format()) <==> read_list(s, format_item()) == Ok::<
                _,
                MessageFormatErrorKind,
            >((items, rest)),
        forall|kind: MessageFormatErrorKind| #[trigger]
            list_fails(s, kind, a_format(), no_format()) <==> read_list(s, format_item()) == Err::<
                (Seq<PgFormat>, Seq<u8>),
                _,
            >(kind),
{
    assert forall|s: Seq<u8>, value: PgFormat, rest: Seq<u8>| #[trigger]
        a_format()(s, value, rest) <==> format_item()(s) == Ok::<_, MessageFormatErrorKind>(
            (value, rest),
        ) by {
        lemma_formats(s);
        assert(format_is(s, value, rest) == a_format()(s, value, rest));
    }
    assert forall|s: Seq<u8>, kind: MessageFormatErrorKind| #[trigger]
        no_format()(s, kind) <==> format_item()(s) == Err::<(PgFormat, Seq<u8>), _>(kind) by {
        lemma_formats(s);
        assert(format_fails(s, kind) == no_format()(s, kind));
    }
    lemma_lists(s, format_item(), a_format(), no_format());
}

proof fn lemma_param_lists(s: Seq<u8>)
    ensures
        forall|items: Seq<Option<Seq<u8>>>, rest: Seq<u8>| #[trigger]
            list_is(s, items, rest, a_param()) <==> read_list(s, param_item()) == Ok::<
                _,
                MessageFormatErrorKind,
            >((items, rest)),
        forall|kind: MessageFormatErrorKind| #[trigger]
            list_fails(s, kind, a_param(), no_param()) <==> read_list(s, param_item()) == Err::<
                (Seq<Option<Seq<u8>>>, Seq<u8>),
                _,
            >(kind),
{
    assert forall|s: Seq<u8>, value: Option<Seq<u8>>, rest: Seq<u8>| #[trigger]
        a_param()(s, value, rest) <==> param_item()(s) == Ok::<_, MessageFormatErrorKind>(
            (value, rest),
        ) by {
        lemma_params(s);
        assert(param_is(s, value, rest) == a_param()(s, value, rest));
    }
    assert forall|s: Seq<u8>, kind: MessageFormatErrorKind| #[trigger]
        no_param()(s, kind) <==> param_item()(s) == Err::<(Option<Seq<u8>>, Seq<u8>), _>(kind) by {
        lemma_params(s);
        assert(param_fails(s, kind) == no_param()(s, kind));
    }
    lemma_lists(s, param_item(), a_param(), no_param());
}

proof fn lemma_type_lists<T>(s: Seq<u8>, catalogue: Catalogue<T>)
    ensures
        forall|items: Seq<Option<T>>, rest: Seq<u8>| #[trigger]
            list_is(s, items, rest, a_type(catalogue)) <==> read_list(s, type_item(catalogue))
                == Ok::<_, MessageFormatErrorKind>((items, rest)),
        forall|kind: MessageFormatErrorKind| #[trigger]
            list_fails(s, kind, a_type(catalogue), no_type(catalogue)) <==> read_list(
                s,
                type_item(catalogue),
            ) == Err::<(Seq<Option<T>>, Seq<u8>), _>(kind),
{
    assert forall|s: Seq<u8>, value: Option<T>, rest: Seq<u8>| #[trigger]
        a_type(catalogue)(s, value, rest) <==> type_item(catalogue)(s) == Ok::<
            _,
            MessageFormatErrorKind,
        >((value, rest)) by {
        lemma_types(s, catalogue);
        assert(type_is(s, value, rest, catalogue) == a_type(catalogue)(s, value, rest));
    }
    assert forall|s: Seq<u8>, kind: MessageFormatErrorKind| #[trigger]
        no_type(catalogue)(s, kind) <==> type_item(catalogue)(s) == Err::<
            (Option<T>, Seq<u8>),
            _,
        >(kind) by {
        lemma_types(s, catalogue);
        assert(type_fails(s, kind, catalogue) == no_type(catalogue)(s, kind));
    }
    lemma_lists(s, type_item(catalogue), a_type(catalogue), no_type(catalogue));
}

/// A byte is the first of the bytes that are left. Two and four bytes are the number that
/// they make, highest first, and a signed number is below zero if its highest bit is set.
/// What is behind them is left. They are refused only if there are fewer.
pub proof fn theorem_integers(s: Seq<u8>)
    ensures
        match read_byte(s) {
            Ok((byte, rest)) => s == seq![byte] + rest,
            Err(kind) => kind is UnexpectedEndOfBuffer && s.len() == 0,
        },
        match read_i16(s) {
            Ok((n, rest)) => {
                &&& s.len() == rest.len() + 2
                &&& s.skip(2) == rest
                &&& n == s[0] * 0x100 + s[1] - if s[0] >= 0x80 {
                    0x1_0000int
                } else {
                    0
                }
            },
            Err(kind) => kind is UnexpectedEndOfBuffer && s.len() < 2,
        },
        match read_u32(s) {
            Ok((n, rest)) => {
                &&& s.len() == rest.len() + 4
                &&& s.skip(4) == rest
                &&& n == s[0] * 0x100_0000 + s[1] * 0x1_0000 + s[2] * 0x100 + s[3]
            },
            Err(kind) => kind is UnexpectedEndOfBuffer && s.len() < 4,
        },
        match read_i32(s) {
            Ok((n, rest)) => {
                &&& s.len() == rest.len() + 4
                &&& s.skip(4) == rest
                &&& n == s[0] * 0x100_0000 + s[1] * 0x1_0000 + s[2] * 0x100 + s[3] - if s[0]
                    >= 0x80 {
                    0x1_0000_0000int
                } else {
                    0
                }
            },
            Err(kind) => kind is UnexpectedEndOfBuffer && s.len() < 4,
        },
{
    if s.len() > 0 {
        assert(s =~= seq![s[0]] + s.skip(1));
    }
}

/// The bytes of an integer make that integer, and are two or four.
pub proof fn theorem_bytes_of_integers(small: i16, n: i32, oid: u32)
    ensures
        ({
            let s = i16_bytes(small as int);
            &&& s.len() == 2
            &&& small == s[0] * 0x100 + s[1] - if small < 0 {
                0x1_0000int
            } else {
                0
            }
        }),
        ({
            let s = i32_bytes(n as int);
            &&& s.len() == 4
            &&& n == s[0] * 0x100_0000 + s[1] * 0x1_0000 + s[2] * 0x100 + s[3] - if n < 0 {
                0x1_0000_0000int
            } else {
                0
            }
        }),
        ({
            let s = u32_bytes(oid as int);
            &&& s.len() == 4
            &&& oid == s[0] * 0x100_0000 + s[1] * 0x1_0000 + s[2] * 0x100 + s[3]
        }),
{
    let none = Seq::<u8>::empty();
    let u: int = if n < 0 {
        n + 0x1_0000_0000
    } else {
        n as int
    };
    lemma_be_u32_of_bytes(u, none);
    assert(u32_bytes(u) + none =~= u32_bytes(u));
    lemma_be_u32_of_bytes(oid as int, none);
    assert(u32_bytes(oid as int) + none =~= u32_bytes(oid as int));
}

/// A string that is read is there: its UTF-8 bytes and a zero byte start the bytes that were
/// left, and what is behind them is left. It is refused only if there is no zero byte, or if
/// what is in front of the first one is not UTF-8.
pub proof fn theorem_strings(s: Seq<u8>)
    ensures
        match read_cstr(s) {
            Ok((chars, rest)) => {
                &&& string_is(s, chars, rest)
                &&& s == encode_utf8(chars) + seq![0u8] + rest
                &&& !encode_utf8(chars).contains(0u8)
            },
            Err(kind) => {
                &&& string_fails(s, kind)
                &&& kind is MissingNullTerminator || kind is InvalidUtf8String
                &&& kind is MissingNullTerminator ==> !s.contains(0u8)
            },
        },
{
    lemma_strings(s);
    match read_cstr(s) {
        Ok((chars, rest)) => {
            lemma_string_is(s, chars, rest);
            reveal(string_is);
            lemma_string_bytes(chars);
        },
        Err(kind) => {
            lemma_string_fails(s, kind);
            reveal(string_fails);
        },
    }
}

/// Bytes in front of the first zero byte that are not UTF-8 are refused, however many they
/// are, and bytes without a zero byte are.
pub proof fn theorem_refused_strings(text: Seq<u8>, rest: Seq<u8>)
    requires
        !text.contains(0u8),
    ensures
        !valid_utf8(text) ==> read_cstr(text + seq![0u8] + rest) == Err::<(Seq<char>, Seq<u8>), _>(
            MessageFormatErrorKind::InvalidUtf8String,
        ),
        read_cstr(text) == Err::<(Seq<char>, Seq<u8>), _>(
            MessageFormatErrorKind::MissingNullTerminator,
        ),
{
    reveal(string_fails);
    lemma_strings(text + seq![0u8] + rest);
    lemma_strings(text);
    assert(string_fails(text, MessageFormatErrorKind::MissingNullTerminator));
    assert(!valid_utf8(text) ==> string_fails(
        text + seq![0u8] + rest,
        MessageFormatErrorKind::InvalidUtf8String,
    ));
}

/// The formats, the values and the types that are read are those that are there, or what is
/// wrong with the first of them that is wrong is said.
pub proof fn theorem_items<T>(s: Seq<u8>, catalogue: Catalogue<T>)
    ensures
        match read_format(s) {
            Ok((format, rest)) => format_is(s, format, rest),
            Err(kind) => format_fails(s, kind),
        },
        match read_param(s) {
            Ok((param, rest)) => param_is(s, param, rest),
            Err(kind) => param_fails(s, kind),
        },
        match read_type(s, catalogue) {
            Ok((param_type, rest)) => type_is(s, param_type, rest, catalogue),
            Err(kind) => type_fails(s, kind, catalogue),
        },
        match read_list(s, format_item()) {
            Ok((formats, rest)) => list_is(s, formats, rest, a_format()),
            Err(kind) => list_fails(s, kind, a_format(), no_format()),
        },
        match read_list(s, param_item()) {
            Ok((params, rest)) => list_is(s, params, rest, a_param()),
            Err(kind) => list_fails(s, kind, a_param(), no_param()),
        },
        match read_list(s, type_item(catalogue)) {
            Ok((types, rest)) => list_is(s, types, rest, a_type(catalogue)),
            Err(kind) => list_fails(s, kind, a_type(catalogue), no_type(catalogue)),
        },
{
    lemma_formats(s);
    lemma_params(s);
    lemma_types(s, catalogue);
    lemma_format_lists(s);
    lemma_param_lists(s);
    lemma_type_lists(s, catalogue);
}

/// A `Query` payload is a string and any bytes. It comes to a query of the text that is
/// there, and is refused exactly for what is wrong with that string.
pub proof fn theorem_query_payloads<T>(s: Seq<u8>, catalogue: Catalogue<T>)
    ensures
        match decode('Q' as u8, s, catalogue) {
            Ok(MessageView::Query { sql }) => starts_with_string(s, sql),
            Ok(_) => false,
            Err(kind) => string_fails(s, kind),
        },
{
    lemma_strings(s);
    if let Ok((sql, rest)) = read_cstr(s) {
        assert(string_is(s, sql, rest));
    }
}

/// `s` is the name of a portal, a number of rows, and any bytes.
pub open spec fn execute_is(s: Seq<u8>, portal_name: Seq<char>, max_rows: i32) -> bool {
    exists|rest: Seq<u8>|
        string_is(s, portal_name, #[trigger] (i32_bytes(max_rows as int) + rest))
}

/// The first field of an `Execute` message that is wrong is wrong in this way.
pub open spec fn execute_fails(s: Seq<u8>, kind: MessageFormatErrorKind) -> bool {
    ||| string_fails(s, kind)
    ||| kind is UnexpectedEndOfBuffer && exists|portal_name: Seq<char>, t: Seq<u8>|
        string_is(s, portal_name, t) && t.len() < 4
}

/// An `Execute` payload is the name of a portal, a number of rows, and any bytes. It is
/// refused for the first of these that is wrong.
pub proof fn theorem_execute_payloads<T>(s: Seq<u8>, catalogue: Catalogue<T>)
    ensures
        match decode('E' as u8, s, catalogue) {
            Ok(MessageView::Execute { portal_name, max_rows }) => execute_is(
                s,
                portal_name,
                max_rows,
            ),
            Ok(_) => false,
            Err(kind) => execute_fails(s, kind),
        },
{
    lemma_strings(s);
    if let Ok((portal_name, t)) = read_cstr(s) {
        assert(string_is(s, portal_name, t));
        lemma_i32(t);
        if let Ok((max_rows, rest)) = read_i32(t) {
            assert(t == i32_bytes(max_rows as int) + rest);
        }
    }
}

/// `s` names neither a portal nor a prepared statement: it is empty, there is no string
/// behind its first byte, or there is one and the first byte is neither `P` nor `S`.
pub open spec fn target_fails(s: Seq<u8>, kind: MessageFormatErrorKind) -> bool {
    ||| kind is UnexpectedEndOfBuffer && s.len() == 0
    ||| s.len() > 0 && string_fails(s.skip(1), kind)
    ||| s.len() > 0 && s[0] != 'P' as u8 && s[0] != 'S' as u8 && kind
        == MessageFormatErrorKind::InvalidTypeByte(s[0] as char) && exists|name: Seq<char>|
        starts_with_string(s.skip(1), name)
}

proof fn lemma_targets(s: Seq<u8>)
    ensures
        s.len() > 0 ==> {
            &&& forall|name: Seq<char>, rest: Seq<u8>| #[trigger]
                string_is(s.skip(1), name, rest) <==> read_cstr(s.skip(1)) == Ok::<
                    _,
                    MessageFormatErrorKind,
                >((name, rest))
            &&& forall|kind: MessageFormatErrorKind| #[trigger]
                string_fails(s.skip(1), kind) <==> read_cstr(s.skip(1)) == Err::<
                    (Seq<char>, Seq<u8>),
                    _,
                >(kind)
            &&& read_cstr(s.skip(1)) matches Ok((name, rest)) ==> string_is(s.skip(1), name, rest)
                && starts_with_string(s.skip(1), name)
        },
{
    lemma_strings(s.skip(1));
}

/// A `Close` payload is `P` or `S`, the name of a portal or of a prepared statement, and
/// any bytes. Any other byte in front of a name is refused as such.
pub proof fn theorem_close_payloads<T>(s: Seq<u8>, catalogue: Catalogue<T>)
    ensures
        match decode('C' as u8, s, catalogue) {
            Ok(MessageView::ClosePortal { name }) => {
                &&& s.len() > 0
                &&& s[0] == 'P' as u8
                &&& starts_with_string(s.skip(1), name)
            },
            Ok(MessageView::CloseStatement { name }) => {
                &&& s.len() > 0
                &&& s[0] == 'S' as u8
                &&& starts_with_string(s.skip(1), name)
            },
            Ok(_) => false,
            Err(kind) => target_fails(s, kind),
        },
{
    lemma_targets(s);
}

/// A `Describe` payload is `P` or `S`, the name of a portal or of a prepared statement, and
/// any bytes. Any other byte in front of a name is refused as such.
pub proof fn theorem_describe_payloads<T>(s: Seq<u8>, catalogue: Catalogue<T>)
    ensures
        match decode('D' as u8, s, catalogue) {
            Ok(MessageView::DescribePortal { name }) => {
                &&& s.len() > 0
                &&& s[0] == 'P' as u8
                &&& starts_with_string(s.skip(1), name)
            },
            Ok(MessageView::DescribeStatement { name }) => {
                &&& s.len() > 0
                &&& s[0] == 'S' as u8
                &&& starts_with_string(s.skip(1), name)
            },
            Ok(_) => false,
            Err(kind) => target_fails(s, kind),
        },
{
    lemma_targets(s);
}

/// `s` is the names of a portal and of a prepared statement, a list of formats, a list of
/// values, a list of formats, and any bytes.
pub open spec fn bind_is(
    s: Seq<u8>,
    portal_name: Seq<char>,
    statement_name: Seq<char>,
    param_formats: Seq<PgFormat>,
    raw_params: Seq<Option<Seq<u8>>>,
    result_formats: Seq<PgFormat>,
) -> bool {
    exists|s1: Seq<u8>, s2: Seq<u8>, s3: Seq<u8>, s4: Seq<u8>, rest: Seq<u8>|
        {
            &&& #[trigger] string_is(s, portal_name, s1)
            &&& #[trigger] string_is(s1, statement_name, s2)
            &&& #[trigger] list_is(s2, param_formats, s3, a_format())
            &&& #[trigger] list_is(s3, raw_params, s4, a_param())
            &&& #[trigger] list_is(s4, result_formats, rest, a_format())
        }
}

/// The first field of a `Bind` message that is wrong is wrong in this way.
pub open spec fn bind_fails(s: Seq<u8>, kind: MessageFormatErrorKind) -> bool {
    ||| string_fails(s, kind)
    ||| exists|portal_name: Seq<char>, s1: Seq<u8>|
        {
            &&& #[trigger] string_is(s, portal_name, s1)
            &&& {
                ||| string_fails(s1, kind)
                ||| exists|statement_name: Seq<char>, s2: Seq<u8>|
                    {
                        &&& #[trigger] string_is(s1, statement_name, s2)
                        &&& bind_lists_fail(s2, kind)
                    }
            }
        }
}

/// The first list of a `Bind` message that is wrong is wrong in this way.
pub open spec fn bind_lists_fail(s: Seq<u8>, kind: MessageFormatErrorKind) -> bool {
    ||| list_fails(s, kind, a_format(), no_format())
    ||| exists|param_formats: Seq<PgFormat>, s1: Seq<u8>|
        {
            &&& #[trigger] list_is(s, param_formats, s1, a_format())
            &&& {
                ||| list_fails(s1, kind, a_param(), no_param())
                ||| exists|raw_params: Seq<Option<Seq<u8>>>, s2: Seq<u8>|
                    {
                        &&& #[trigger] list_is(s1, raw_params, s2, a_param())
                        &&& list_fails(s2, kind, a_format(), no_format())
                    }
            }
        }
}

/// A `Bind` payload is the names of a portal and of a prepared statement, a list of
/// formats, a list of values, a list of formats, and any bytes. It is refused for the first
/// of these that is wrong.
pub proof fn theorem_bind_payloads<T>(s: Seq<u8>, catalogue: Catalogue<T>)
    ensures
        match decode('B' as u8, s, catalogue) {
            Ok(
                MessageView::Bind {
                    portal_name,
                    statement_name,
                    param_formats,
                    raw_params,
                    result_formats,
                },
            ) => bind_is(
                s,
                portal_name,
                statement_name,
                param_formats,
                raw_params,
                result_formats,
            ),
            Ok(_) => false,
            Err(kind) => bind_fails(s, kind),
        },
{
    lemma_strings(s);
    if let Ok((portal_name, s1)) = read_cstr(s) {
        assert(string_is(s, portal_name, s1));
        lemma_strings(s1);
        if let Ok((statement_name, s2)) = read_cstr(s1) {
            assert(string_is(s1, statement_name, s2));
            lemma_format_lists(s2);
            if let Ok((param_formats, s3)) = read_list(s2, format_item()) {
                assert(list_is(s2, param_formats, s3, a_format()));
                lemma_param_lists(s3);
                if let Ok((raw_params, s4)) = read_list(s3, param_item()) {
                    assert(list_is(s3, raw_params, s4, a_param()));
                    lemma_format_lists(s4);
                    if let Ok((result_formats, rest)) = read_list(s4, format_item()) {
                        assert(list_is(s4, result_formats, rest, a_format()));
                    }
                }
            }
        }
    }
}

/// `s` is the name of a prepared statement, its text, a list of identifiers about which the
/// catalogue has these answers, and any bytes.
pub open spec fn parse_is<T>(
    s: Seq<u8>,
    statement_name: Seq<char>,
    sql: Seq<char>,
    param_types: Seq<Option<T>>,
    catalogue: Catalogue<T>,
) -> bool {
    exists|s1: Seq<u8>, s2: Seq<u8>, rest: Seq<u8>|
        {
            &&& #[trigger] string_is(s, statement_name, s1)
            &&& #[trigger] string_is(s1, sql, s2)
            &&& #[trigger] list_is(s2, param_types, rest, a_type(catalogue))
        }
}

/// The first field of a `Parse` message that is wrong is wrong in this way.
pub open spec fn parse_fails<T>(
    s: Seq<u8>,
    kind: MessageFormatErrorKind,
    catalogue: Catalogue<T>,
) -> bool {
    ||| string_fails(s, kind)
    ||| exists|statement_name: Seq<char>, s1: Seq<u8>|
        {
            &&& #[trigger] string_is(s, statement_name, s1)
            &&& {
                ||| string_fails(s1, kind)
                ||| exists|sql: Seq<char>, s2: Seq<u8>|
                    {
                        &&& #[trigger] string_is(s1, sql, s2)
                        &&& list_fails(s2, kind, a_type(catalogue), no_type(catalogue))
                    }
            }
        }
}

/// A `Parse` payload is the name of a prepared statement, its text, a list of identifiers
/// about each of which the catalogue has an answer, and any bytes. It comes to a message
/// with those answers, and is refused for the first of these that is wrong.
pub proof fn theorem_parse_payloads<T>(s: Seq<u8>, catalogue: Catalogue<T>)
    ensures
        match decode('P' as u8, s, catalogue) {
            Ok(MessageView::Parse { statement_name, sql, param_types }) => parse_is(
                s,
                statement_name,
                sql,
                param_types,
                catalogue,
            ),
            Ok(_) => false,
            Err(kind) => parse_fails(s, kind, catalogue),
        },
{
    lemma_strings(s);
    if let Ok((statement_name, s1)) = read_cstr(s) {
        assert(string_is(s, statement_name, s1));
        lemma_strings(s1);
        if let Ok((sql, s2)) = read_cstr(s1) {
            assert(string_is(s1, sql, s2));
            lemma_type_lists(s2, catalogue);
            if let Ok((param_types, rest)) = read_list(s2, type_item(catalogue)) {
                assert(list_is(s2, param_types, rest, a_type(catalogue)));
            }
        }
    }
}

/// `Flush`, `Sync` and `Terminate` messages have no fields: any payload is right for them.
pub proof fn theorem_payloads_without_fields<T>(s: Seq<u8>, catalogue: Catalogue<T>)
    ensures
        decode('H' as u8, s, catalogue) == Ok::<MessageView<T>, MessageFormatErrorKind>(
            MessageView::Flush,
        ),
        decode('S' as u8, s, catalogue) == Ok::<MessageView<T>, MessageFormatErrorKind>(
            MessageView::Sync,
        ),
        decode('X' as u8, s, catalogue) == Ok::<MessageView<T>, MessageFormatErrorKind>(
            MessageView::Terminate,
        ),
{
}

/// A payload with any other tag is refused for its tag, whatever it holds.
pub proof fn theorem_payloads_with_other_tags<T>(tag: u8, s: Seq<u8>, catalogue: Catalogue<T>)
    requires
        tag != 'Q' as u8,
        tag != 'B' as u8,
        tag != 'C' as u8,
        tag != 'D' as u8,
        tag != 'E' as u8,
        tag != 'H' as u8,
        tag != 'P' as u8,
        tag != 'S' as u8,
        tag != 'X' as u8,
    ensures
        decode(tag, s, catalogue) == Err::<MessageView<T>, MessageFormatErrorKind>(
            MessageFormatErrorKind::UnsupportedFrontendMessage(tag as char),
        ),
{
}

/// `oids` are the numbers whose bytes start `t`.
pub open spec fn start_with(t: Seq<u8>, oids: Seq<u32>) -> bool {
    &&& 4 * oids.len() <= t.len()
    &&& forall|i: int|
        0 <= i < oids.len() ==> t.subrange(4 * i, 4 * i + 4) == u32_bytes(
            #[trigger] oids[i] as int,
        )
}

proof fn lemma_start_with(t: Seq<u8>, n: nat, oids: Seq<u32>)
    requires
        start_with(t, oids),
        oids.len() <= n,
    ensures
        oids.len() <= words(t, n).len(),
        forall|i: int| 0 <= i < oids.len() ==> words(t, n)[i] == #[trigger] oids[i],
{
    assert forall|i: int| 0 <= i < oids.len() implies words(t, n)[i] == #[trigger] oids[i] by {
        let rest = t.skip(4 * i + 4);
        assert(t.skip(4 * i) =~= t.subrange(4 * i, 4 * i + 4) + rest);
        lemma_be_u32_of_bytes(oids[i] as int, rest);
    }
}

/// Of the identifiers that a `Parse` message announces, the first about which the catalogue
/// has no answer makes the message refused. If it has an answer about each, the answers are
/// the types of the parameters, in the same order and as many. If the payload ends first,
/// that is the error.
pub proof fn theorem_types_are_the_answers_about_the_identifiers<T>(
    s: Seq<u8>,
    statement_name: Seq<char>,
    s1: Seq<u8>,
    sql: Seq<char>,
    s2: Seq<u8>,
    count: i16,
    t: Seq<u8>,
    oids: Seq<u32>,
    k: int,
    catalogue: Catalogue<T>,
)
    requires
        string_is(s, statement_name, s1),
        string_is(s1, sql, s2),
        s2 == i16_bytes(count as int) + t,
        start_with(t, oids),
        0 <= k <= oids.len(),
        oids.len() <= count || oids.len() == 0,
        forall|i: int| 0 <= i < k ==> catalogue(#[trigger] oids[i]) is Some,
    ensures
        k < oids.len() && catalogue(oids[k]) is None ==> decode('P' as u8, s, catalogue) == Err::<
            MessageView<T>,
            MessageFormatErrorKind,
        >(MessageFormatErrorKind::UnsupportedOid(oids[k])),
        k == oids.len() && counts(count, oids.len()) ==> decode('P' as u8, s, catalogue) == Ok::<
            MessageView<T>,
            MessageFormatErrorKind,
        >(
            MessageView::Parse {
                statement_name,
                sql,
                param_types: Seq::new(oids.len(), |i: int| catalogue(oids[i])->0),
            },
        ),
        k == oids.len() && oids.len() < count && t.len() < 4 * oids.len() + 4 ==> decode(
            'P' as u8,
            s,
            catalogue,
        ) == Err::<MessageView<T>, MessageFormatErrorKind>(
            MessageFormatErrorKind::UnexpectedEndOfBuffer,
        ),
{
    lemma_strings(s);
    lemma_strings(s1);
    lemma_i16(s2);
    assert(read_i16(s2) == Ok::<_, MessageFormatErrorKind>((count, t)));
    let n = announced(count as int);
    let types = Seq::new(k as nat, |i: int| catalogue(oids[i])->0);
    lemma_start_with(t, n, oids);
    let all = words(t, n);
    assert forall|i: int| 0 <= i < types.len() implies catalogue(all[i]) == Some(
        #[trigger] types[i],
    ) by {
        assert(all[i] == oids[i]);
    }
    if k < oids.len() {
        assert(all[k] == oids[k]);
        if catalogue(oids[k]) is None {
            lemma_types_by_words(t, n, catalogue, types);
        }
    } else if counts(count, oids.len()) || t.len() < 4 * oids.len() + 4 {
        assert(all.len() == oids.len());
        lemma_types_by_words(t, n, catalogue, types);
    }
}

proof fn lemma_types_are_answers<T>(
    t: Seq<u8>,
    n: nat,
    catalogue: Catalogue<T>,
    types: Seq<Option<T>>,
    rest: Seq<u8>,
)
    requires
        read_items(t, n, type_item(catalogue)) == Ok::<_, MessageFormatErrorKind>((types, rest)),
    ensures
        4 * n <= t.len(),
        types.len() == n,
        forall|i: int|
            0 <= i < n ==> catalogue(be_u32(t.skip(4 * i)) as u32) == Some(#[trigger] types[i]),
    decreases n,
{
    if n > 0 {
        let s = t.skip(4);
        let (others, _) = read_items(s, (n - 1) as nat, type_item(catalogue))->Ok_0;
        lemma_types_are_answers(s, (n - 1) as nat, catalogue, others, rest);
        assert(t.skip(0) =~= t);
        assert forall|i: int| 0 <= i < n implies catalogue(be_u32(t.skip(4 * i)) as u32) == Some(
            #[trigger] types[i],
        ) by {
            if i > 0 {
                assert(types[i] == others[i - 1]);
                assert(s.skip(4 * (i - 1)) =~= t.skip(4 * i));
            }
        }
    }
}

/// `t` starts with as many identifiers as the count announces, and `types` are the
/// catalogue's answers about them, one about each and in the same order.
pub open spec fn answers_about<T>(
    types: Seq<Option<T>>,
    count: i16,
    t: Seq<u8>,
    catalogue: Catalogue<T>,
) -> bool {
    exists|oids: Seq<u32>|
        {
            &&& #[trigger] start_with(t, oids)
            &&& counts(count, oids.len())
            &&& types.len() == oids.len()
            &&& forall|i: int|
                0 <= i < oids.len() ==> catalogue(#[trigger] oids[i]) == Some(types[i])
        }
}

/// A `Parse` message that is not refused has exactly as many types as its count announces,
/// and each is the catalogue's answer about the identifier at the same place.
pub proof fn theorem_each_type_is_an_answer<T>(
    s: Seq<u8>,
    statement_name: Seq<char>,
    s1: Seq<u8>,
    sql: Seq<char>,
    s2: Seq<u8>,
    count: i16,
    t: Seq<u8>,
    catalogue: Catalogue<T>,
)
    requires
        string_is(s, statement_name, s1),
        string_is(s1, sql, s2),
        s2 == i16_bytes(count as int) + t,
        decode('P' as u8, s, catalogue) is Ok,
    ensures
        match decode('P' as u8, s, catalogue)->Ok_0 {
            MessageView::Parse { statement_name: name, sql: text, param_types } => {
                &&& name == statement_name
                &&& text == sql
                &&& answers_about(param_types, count, t, catalogue)
            },
            _ => false,
        },
{
    lemma_strings(s);
    lemma_strings(s1);
    lemma_i16(s2);
    assert(read_i16(s2) == Ok::<_, MessageFormatErrorKind>((count, t)));
    let n = announced(count as int);
    let (types, rest) = read_items(t, n, type_item(catalogue))->Ok_0;
    lemma_types_are_answers(t, n, catalogue, types, rest);
    let oids = words(t, n);
    assert forall|i: int| 0 <= i < oids.len() implies t.subrange(4 * i, 4 * i + 4) == u32_bytes(
        #[trigger] oids[i] as int,
    ) && catalogue(oids[i]) == Some(types[i]) by {
        lemma_four_bytes(t.skip(4 * i));
        assert(t.subrange(4 * i, 4 * i + 4) =~= t.skip(4 * i).take(4));
        assert(u32_bytes(oids[i] as int) =~= t.skip(4 * i).take(4));
    }
    assert(start_with(t, oids));
}

/// The identifiers that are looked up for a `Parse` message are those that it announces, as
/// far as they are there, in their order. The answers are the types of its parameters if
/// there is one about each, and an identifier without an answer makes it refused.
pub proof fn theorem_answers_become_types<T>(
    s: Seq<u8>,
    statement_name: Seq<char>,
    s1: Seq<u8>,
    sql: Seq<char>,
    s2: Seq<u8>,
    count: i16,
    t: Seq<u8>,
    oids: Seq<u32>,
    types: Seq<Option<T>>,
)
    requires
        string_is(s, statement_name, s1),
        string_is(s1, sql, s2),
        s2 == i16_bytes(count as int) + t,
        start_with(t, oids),
        counts(count, oids.len()) || oids.len() < count && t.len() < 4 * oids.len() + 4,
        types.len() <= oids.len(),
    ensures
        requested_oids('P' as u8, s) == oids,
        decode_with('P' as u8, s, types) == if types.len() < oids.len() {
            Err(MessageFormatErrorKind::UnsupportedOid(oids[types.len() as int]))
        } else if counts(count, oids.len()) {
            Ok(MessageView::Parse { statement_name, sql, param_types: types })
        } else {
            Err(MessageFormatErrorKind::UnexpectedEndOfBuffer)
        },
{
    lemma_strings(s);
    lemma_strings(s1);
    lemma_i16(s2);
    assert(read_i16(s2) == Ok::<_, MessageFormatErrorKind>((count, t)));
    lemma_start_with(t, announced(count as int), oids);
    assert(words(t, announced(count as int)) =~= oids);
}

/// Nothing is looked up for a `Parse` message without a name, a text and a count, nor for
/// any other message, and no answer changes what those come to.
pub proof fn theorem_other_payloads_need_no_answers<T>(
    tag: u8,
    s: Seq<u8>,
    catalogue: Catalogue<T>,
    types: Seq<Option<T>>,
)
    requires
        tag == 'P' as u8 ==> !exists|
            statement_name: Seq<char>,
            s1: Seq<u8>,
            sql: Seq<char>,
            s2: Seq<u8>,
        | #[trigger]
            string_is(s, statement_name, s1) && #[trigger] string_is(s1, sql, s2) && s2.len() >= 2,
    ensures
        requested_oids(tag, s) == Seq::<u32>::empty(),
        decode_with(tag, s, types) == decode(tag, s, catalogue),
{
    lemma_strings(s);
    if let Ok((statement_name, s1)) = read_cstr(s) {
        assert(string_is(s, statement_name, s1));
        lemma_strings(s1);
        if let Ok((sql, s2)) = read_cstr(s1) {
            assert(string_is(s1, sql, s2));
        }
    }
}

/// A lookup computes a catalogue exactly if each answer that it can give is the one of the
/// catalogue, and its answers are looked up exactly if they come one by one, up to the first
/// error.
pub proof fn theorem_lookups<T, E, F: Fn(u32) -> Result<Option<T>, E>>(
    lookup: F,
    catalogue: Catalogue<T>,
    oids: Seq<u32>,
    types: Seq<Option<T>>,
)
    ensures
        computes(lookup, catalogue) <==> {
            &&& forall|oid: u32, found: Option<T>|
                lookup.ensures((oid,), Ok::<Option<T>, E>(found)) ==> catalogue(oid) == Some(found)
            &&& forall|oid: u32, error: E|
                lookup.ensures((oid,), Err::<Option<T>, E>(error)) ==> catalogue(oid) is None
        },
        looked_up(lookup, oids, types) <==> {
            &&& types.len() <= oids.len()
            &&& forall|i: int|
                0 <= i < types.len() ==> lookup.ensures(
                    (oids[i],),
                    Ok::<Option<T>, E>(#[trigger] types[i]),
                )
            &&& types.len() == oids.len() || exists|error: E|
                lookup.ensures((oids[types.len() as int],), Err::<Option<T>, E>(error))
        },
{
    if (forall|oid: u32, found: Option<T>|
        lookup.ensures((oid,), Ok::<Option<T>, E>(found)) ==> catalogue(oid) == Some(found)) && (
    forall|oid: u32, error: E|
        lookup.ensures((oid,), Err::<Option<T>, E>(error)) ==> catalogue(oid) is None) {
        assert forall|oid: u32, answer: Result<Option<T>, E>| #[trigger]
            lookup.ensures((oid,), answer) implies catalogue(oid) == match answer {
            Ok(found) => Some(found),
            Err(_) => None,
        } by {
            match answer {
                Ok(found) => {
                    assert(lookup.ensures((oid,), Ok::<Option<T>, E>(found)));
                },
                Err(error) => {
                    assert(lookup.ensures((oid,), Err::<Option<T>, E>(error)));
                },
            }
        }
    }
}

} // verus!
