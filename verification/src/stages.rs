//! What a decoder does at each stage.
//!
//! Each law takes one stage and the bytes that a decoder is given at it, and says which
//! stage follows, what is reported, what is looked up, and whether the bytes are acceptable.
use crate::catalogue::Catalogue;
use crate::errors::MessageFormatErrorKind;
use crate::frontend::MessageView;
use crate::laws::{i32_bytes, lemma_read_i32_of_bytes};
use crate::message_decoder::{acceptable, requested, step, step_with, Stage, StatusView};
use crate::wire::{decode, decode_with, requested_oids};
use vstd::prelude::*;

verus! {

/// A decoder that has not started a message asks for one byte, the tag, whatever it is
/// given.
pub proof fn theorem_a_message_starts<T>(
    bytes: Seq<u8>,
    catalogue: Catalogue<T>,
    types: Seq<Option<T>>,
)
    ensures
        step(Stage::Idle, bytes, catalogue) == (
            Stage::Tag,
            Ok::<StatusView<T>, MessageFormatErrorKind>(StatusView::Requesting(1)),
        ),
        step_with(Stage::Idle, bytes, types) == step(Stage::Idle, bytes, catalogue),
        requested(Stage::Idle, bytes) == Seq::<u32>::empty(),
        acceptable(Stage::Idle, bytes),
{
}

/// A decoder that waits for a tag takes the first byte, and no other, and asks for the four
/// bytes of a length. Without a byte it reports that and starts over.
pub proof fn theorem_a_tag_is_taken<T>(
    tag: u8,
    more: Seq<u8>,
    catalogue: Catalogue<T>,
    types: Seq<Option<T>>,
)
    ensures
        step(Stage::Tag, seq![tag] + more, catalogue) == (
            Stage::Length(tag),
            Ok::<StatusView<T>, MessageFormatErrorKind>(StatusView::Requesting(4)),
        ),
        step_with(Stage::Tag, seq![tag] + more, types) == step(
            Stage::Tag,
            seq![tag] + more,
            catalogue,
        ),
        step(Stage::Tag, Seq::empty(), catalogue) == (
            Stage::Idle,
            Err::<StatusView<T>, MessageFormatErrorKind>(MessageFormatErrorKind::MissingMessageTag),
        ),
        step_with(Stage::Tag, Seq::empty(), types) == step(Stage::Tag, Seq::empty(), catalogue),
        requested(Stage::Tag, more) == Seq::<u32>::empty(),
        acceptable(Stage::Tag, more),
{
}

/// A decoder that waits for a length asks for the bytes that the length counts beside its
/// own four. With a length below four, the number that it asks for is as far from the size
/// of the `usize` range as the length is from four.
pub proof fn theorem_a_length_is_taken<T>(
    tag: u8,
    len: i32,
    more: Seq<u8>,
    catalogue: Catalogue<T>,
    types: Seq<Option<T>>,
)
    requires
        acceptable(Stage::Length(tag), i32_bytes(len as int) + more),
    ensures
        step(Stage::Length(tag), i32_bytes(len as int) + more, catalogue).0 == Stage::Payload(tag),
        match step(Stage::Length(tag), i32_bytes(len as int) + more, catalogue).1 {
            Ok(StatusView::Requesting(n)) => {
                &&& n <= usize::MAX
                &&& n + 4 == len || n + 4 == len + usize::MAX + 1
                &&& len >= 4 <==> n + 4 == len
            },
            _ => false,
        },
        step_with(Stage::Length(tag), i32_bytes(len as int) + more, types) == step(
            Stage::Length(tag),
            i32_bytes(len as int) + more,
            catalogue,
        ),
        requested(Stage::Length(tag), i32_bytes(len as int) + more) == Seq::<u32>::empty(),
{
    lemma_read_i32_of_bytes(len as int, more);
}

/// A length of fewer than four bytes is reported, and the decoder waits for the payload.
pub proof fn theorem_a_short_length_is_reported<T>(
    tag: u8,
    bytes: Seq<u8>,
    catalogue: Catalogue<T>,
    types: Seq<Option<T>>,
)
    requires
        bytes.len() < 4,
    ensures
        step(Stage::Length(tag), bytes, catalogue) == (
            Stage::Payload(tag),
            Err::<StatusView<T>, MessageFormatErrorKind>(
                MessageFormatErrorKind::UnexpectedEndOfBuffer,
            ),
        ),
        step_with(Stage::Length(tag), bytes, types) == step(Stage::Length(tag), bytes, catalogue),
        requested(Stage::Length(tag), bytes) == Seq::<u32>::empty(),
        acceptable(Stage::Length(tag), bytes),
{
}

/// A decoder that waits for a payload takes any bytes, hands out the message or the error
/// that they come to with the tag that it took before, and is ready for the next message.
pub proof fn theorem_a_payload_is_taken<T>(
    tag: u8,
    bytes: Seq<u8>,
    catalogue: Catalogue<T>,
    types: Seq<Option<T>>,
)
    ensures
        step(Stage::Payload(tag), bytes, catalogue).0 == Stage::Idle,
        match step(Stage::Payload(tag), bytes, catalogue).1 {
            Ok(StatusView::Done(message)) => decode(tag, bytes, catalogue) == Ok::<
                MessageView<T>,
                MessageFormatErrorKind,
            >(message),
            Ok(StatusView::Requesting(_)) => false,
            Err(kind) => decode(tag, bytes, catalogue) == Err::<
                MessageView<T>,
                MessageFormatErrorKind,
            >(kind),
        },
        step_with(Stage::Payload(tag), bytes, types).0 == Stage::Idle,
        match step_with(Stage::Payload(tag), bytes, types).1 {
            Ok(StatusView::Done(message)) => decode_with(tag, bytes, types) == Ok::<
                MessageView<T>,
                MessageFormatErrorKind,
            >(message),
            Ok(StatusView::Requesting(_)) => false,
            Err(kind) => decode_with(tag, bytes, types) == Err::<
                MessageView<T>,
                MessageFormatErrorKind,
            >(kind),
        },
        requested(Stage::Payload(tag), bytes) == requested_oids(tag, bytes),
        acceptable(Stage::Payload(tag), bytes),
{
}

/// Whatever the bytes, they are acceptable at every stage but that of a length, and there
/// unless they start with one of the four lowest numbers that a length can be.
pub proof fn theorem_only_the_lowest_lengths_are_not_acceptable(stage: Stage, bytes: Seq<u8>)
    ensures
        !(stage is Length) ==> acceptable(stage, bytes),
        stage is Length ==> (acceptable(stage, bytes) <==> !(bytes.len() >= 4 && bytes[0] == 0x80
            && bytes[1] == 0 && bytes[2] == 0 && bytes[3] < 4)),
{
}

/// A length is acceptable exactly if four can be taken away from it.
pub proof fn theorem_acceptable_lengths(tag: u8, len: i32, more: Seq<u8>)
    ensures
        acceptable(Stage::Length(tag), i32_bytes(len as int) + more) <==> i32::MIN <= len - 4,
{
    lemma_read_i32_of_bytes(len as int, more);
}

} // verus!
