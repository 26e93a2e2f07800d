//! Reading the fields of a buffer.
use crate::errors::{MessageFormatError, MessageFormatErrorKind};
use crate::grammar::{lemma_i16, lemma_i32, lemma_strings, lemma_u32, string_fails, string_is};
use crate::laws::{i16_bytes, i32_bytes, u32_bytes};
use crate::wire;
use vstd::prelude::*;
use vstd::slice::slice_subrange;
use vstd::std_specs::convert::FromSpecImpl;
use vstd::utf8::{decode_utf8, valid_utf8};

verus! {

/// The error of [`std::str::from_utf8`]. Nothing is claimed of it.
#[verifier::external_type_specification]
#[verifier::external_body]
pub struct ExUtf8Error(std::str::Utf8Error);

/// [`std::str::from_utf8`] succeeds on exactly the byte sequences that are UTF-8, and
/// then gives the characters that they encode.
pub assume_specification<'a>[ std::str::from_utf8 ](v: &'a [u8]) -> (result: Result<
    &'a str,
    std::str::Utf8Error,
>)
    ensures
        result is Ok <==> valid_utf8(v@),
        result matches Ok(s) ==> s@ == decode_utf8(v@),
;

/// The bytes of a buffer that have not been read yet.
pub struct Cursor<'a> {
    pub buf: &'a [u8],
}

impl<'a> View for Cursor<'a> {
    type V = Seq<u8>;

    open spec fn view(&self) -> Seq<u8> {
        self.buf@
    }
}

impl<'a> From<&'a [u8]> for Cursor<'a> {
    fn from(buf: &'a [u8]) -> (cursor: Cursor<'a>) {
        Cursor { buf }
    }
}

impl<'a> FromSpecImpl<&'a [u8]> for Cursor<'a> {
    open spec fn obeys_from_spec() -> bool {
        true
    }

    open spec fn from_spec(buf: &'a [u8]) -> Cursor<'a> {
        Cursor { buf }
    }
}

/// A read by a cursor does what is `expected`: it gives that value and moves behind the
/// field, or gives that error and does not move.
pub open spec fn reads<T>(
    result: Result<T, MessageFormatError>,
    before: Seq<u8>,
    after: Seq<u8>,
    expected: wire::Read<T>,
) -> bool {
    match expected {
        Ok((value, rest)) => result == Ok::<T, MessageFormatError>(value) && after == rest,
        Err(kind) => result == Err::<T, MessageFormatError>(MessageFormatError { kind }) && after
            == before,
    }
}

impl<'a> Cursor<'a> {
    /// Moves over `n` bytes.
    fn advance(&mut self, n: usize)
        requires
            n <= old(self)@.len(),
        ensures
            final(self)@ == old(self)@.skip(n as int),
    {
        let rest: &'a [u8] = slice_subrange(self.buf, n, self.buf.len());
        self.buf = rest;
        assert(self.buf@ =~= old(self)@.skip(n as int));
    }

    /// Reads one byte.
    pub fn read_byte(&mut self) -> (result: Result<u8, MessageFormatError>)
        ensures
            reads(result, old(self)@, final(self)@, wire::read_byte(old(self)@)),
            match result {
                Ok(byte) => old(self)@ == seq![byte] + final(self)@,
                Err(error) => {
                    &&& error.kind is UnexpectedEndOfBuffer
                    &&& old(self)@.len() == 0
                    &&& final(self)@ == old(self)@
                },
            },
    {
        if self.buf.len() < 1 {
            Err(MessageFormatError::from(MessageFormatErrorKind::UnexpectedEndOfBuffer))
        } else {
            let value: u8 = self.buf[0];
            self.advance(1);
            assert(old(self)@ =~= seq![value] + self@);
            Ok(value)
        }
    }

    /// Reads a 16-bit integer, highest byte first.
    pub fn read_i16(&mut self) -> (result: Result<i16, MessageFormatError>)
        ensures
            reads(result, old(self)@, final(self)@, wire::read_i16(old(self)@)),
            match result {
                Ok(value) => old(self)@ == i16_bytes(value as int) + final(self)@,
                Err(error) => {
                    &&& error.kind is UnexpectedEndOfBuffer
                    &&& old(self)@.len() < 2
                    &&& final(self)@ == old(self)@
                },
            },
    {
        proof {
            lemma_i16(self@);
        }
        if self.buf.len() < 2 {
            Err(MessageFormatError::from(MessageFormatErrorKind::UnexpectedEndOfBuffer))
        } else {
            let unsigned: i32 = self.buf[0] as i32 * 0x100 + self.buf[1] as i32;
            let value: i16 = if unsigned < 0x8000 {
                unsigned as i16
            } else {
                (unsigned - 0x1_0000) as i16
            };
            self.advance(2);
            Ok(value)
        }
    }

    /// Reads an unsigned 32-bit integer, highest byte first.
    pub fn read_u32(&mut self) -> (result: Result<u32, MessageFormatError>)
        ensures
            reads(result, old(self)@, final(self)@, wire::read_u32(old(self)@)),
            match result {
                Ok(value) => old(self)@ == u32_bytes(value as int) + final(self)@,
                Err(error) => {
                    &&& error.kind is UnexpectedEndOfBuffer
                    &&& old(self)@.len() < 4
                    &&& final(self)@ == old(self)@
                },
            },
    {
        proof {
            lemma_u32(self@);
        }
        if self.buf.len() < 4 {
            Err(MessageFormatError::from(MessageFormatErrorKind::UnexpectedEndOfBuffer))
        } else {
            let value: u32 = self.buf[0] as u32 * 0x100_0000 + self.buf[1] as u32 * 0x1_0000
                + self.buf[2] as u32 * 0x100 + self.buf[3] as u32;
            self.advance(4);
            Ok(value)
        }
    }

    /// Reads a 32-bit integer, highest byte first.
    pub fn read_i32(&mut self) -> (result: Result<i32, MessageFormatError>)
        ensures
            reads(result, old(self)@, final(self)@, wire::read_i32(old(self)@)),
            match result {
                Ok(value) => old(self)@ == i32_bytes(value as int) + final(self)@,
                Err(error) => {
                    &&& error.kind is UnexpectedEndOfBuffer
                    &&& old(self)@.len() < 4
                    &&& final(self)@ == old(self)@
                },
            },
    {
        proof {
            lemma_i32(self@);
        }
        match self.read_u32() {
            Err(error) => Err(error),
            Ok(unsigned) => {
                let value: i32 = if unsigned < 0x8000_0000 {
                    unsigned as i32
                } else {
                    (unsigned as i64 - 0x1_0000_0000) as i32
                };
                Ok(value)
            },
        }
    }

    /// Reads a string up to its terminating zero byte, and moves behind that byte.
    pub fn read_cstr(&mut self) -> (result: Result<&'a str, MessageFormatError>)
        ensures
            match wire::read_cstr(old(self)@) {
                Ok((chars, rest)) => {
                    &&& result is Ok
                    &&& result->Ok_0@ == chars
                    &&& final(self)@ == rest
                },
                Err(kind) => {
                    &&& result == Err::<&'a str, MessageFormatError>(MessageFormatError { kind })
                    &&& final(self)@ == old(self)@
                },
            },
            match result {
                Ok(text) => string_is(old(self)@, text@, final(self)@),
                Err(error) => string_fails(old(self)@, error.kind),
            },
    {
        let buf: &'a [u8] = self.buf;
        proof {
            lemma_strings(buf@);
            buf@.index_of_first_ensures(0u8);
        }
        let mut pos: usize = 0;
        while pos < buf.len() && buf[pos] != 0
            invariant
                pos <= buf@.len(),
                forall|i: int| 0 <= i < pos ==> buf@[i] != 0,
            decreases buf@.len() - pos,
        {
            pos += 1;
        }
        if pos == buf.len() {
            return Err(MessageFormatError::from(MessageFormatErrorKind::MissingNullTerminator));
        }
        assert(buf@.index_of_first(0u8) == Some(pos as int));
        let bytes: &'a [u8] = slice_subrange(buf, 0, pos);
        assert(bytes@ =~= buf@.take(pos as int));
        match std::str::from_utf8(bytes) {
            Ok(value) => {
                self.advance(pos + 1);
                Ok(value)
            },
            Err(_) => Err(MessageFormatError::from(MessageFormatErrorKind::InvalidUtf8String)),
        }
    }
}

} // verus!
