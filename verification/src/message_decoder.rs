//! The state machine that takes a connection's bytes and gives messages.
use crate::catalogue::{computes, looked_up, Catalogue};
use crate::cursor::Cursor;
use crate::errors::{MessageFormatError, MessageFormatErrorKind};
use crate::formats::PgFormat;
use crate::frontend::{CommandMessage, MessageView};
use crate::laws::theorem_answers_of_a_catalogue;
use crate::wire::{
    self, BIND, CLOSE, DESCRIBE, EXECUTE, FLUSH, PARSE, PORTAL, QUERY, STATEMENT, SYNC, TERMINATE,
};
use vstd::prelude::*;

pub use Status as MessageDecoderStatus;

verus! {

/// Represents a status of a `MessageDecoder` stage
#[derive(Debug, PartialEq)]
pub enum Status<T> {
    /// `MessageDecoder` requests buffer with specified size
    Requesting(usize),
    /// `MessageDecoder` has decoded a message and returns it content
    Done(CommandMessage<T>),
}

/// [`Status`] with the models of what it holds.
#[verifier::ext_equal]
pub enum StatusView<T> {
    Requesting(nat),
    Done(MessageView<T>),
}

impl<T> View for Status<T> {
    type V = StatusView<T>;

    open spec fn view(&self) -> StatusView<T> {
        match *self {
            Status::Requesting(len) => StatusView::Requesting(len as nat),
            Status::Done(message) => StatusView::Done(message@),
        }
    }
}

/// The model of a result that holds a status.
pub open spec fn status_result<T>(result: Result<Status<T>, MessageFormatError>) -> Result<
    StatusView<T>,
    MessageFormatErrorKind,
> {
    match result {
        Ok(status) => Ok(status@),
        Err(error) => Err(error.kind),
    }
}

/// The status that reports what a payload came to.
pub open spec fn decoded_status<T>(
    decoded: Result<MessageView<T>, MessageFormatErrorKind>,
) -> Result<StatusView<T>, MessageFormatErrorKind> {
    match decoded {
        Ok(message) => Ok(StatusView::Done(message)),
        Err(kind) => Err(kind),
    }
}

/// What a decoder waits for.
pub enum Stage {
    /// Nothing: the next message has not been started.
    Idle,
    /// The tag of a message.
    Tag,
    /// The length of the message with this tag.
    Length(u8),
    /// The payload of the message with this tag.
    Payload(u8),
}

/// The bytes that an optional payload holds.
pub open spec fn bytes_of(payload: Option<&[u8]>) -> Seq<u8> {
    match payload {
        Some(bytes) => bytes@,
        None => Seq::empty(),
    }
}

/// How many bytes of payload a length announces. The length counts its own four bytes.
/// A length below four wraps around at the end of the `usize` range.
pub open spec fn payload_len(len: int) -> nat {
    if len >= 4 {
        (len - 4) as nat
    } else {
        (usize::MAX + 1 + (len - 4)) as nat
    }
}

/// Whether a decoder at this stage may be given these bytes: a length has to leave room
/// for taking away the four bytes that it counts for itself.
pub open spec fn acceptable(stage: Stage, bytes: Seq<u8>) -> bool {
    stage is Length && bytes.len() >= 4 ==> wire::be_i32(bytes) - 4 >= i32::MIN
}

impl Stage {
    /// The tag of the message whose payload is due.
    pub open spec fn tag(self) -> u8
        recommends
            self is Payload,
    {
        self->Payload_0
    }
}

/// The stage that follows when a decoder is given these bytes, and what it reports, where
/// `decoded` is what the bytes come to if they are a payload.
///
/// A missing tag sends the decoder back to the start. A length that is cut short leaves
/// it waiting for the payload. After a payload, good or bad, it is ready for the next
/// message.
pub open spec fn step_on<T>(
    stage: Stage,
    bytes: Seq<u8>,
    decoded: Result<MessageView<T>, MessageFormatErrorKind>,
) -> (Stage, Result<StatusView<T>, MessageFormatErrorKind>) {
    match stage {
        Stage::Idle => (Stage::Tag, Ok(StatusView::Requesting(1))),
        Stage::Tag => if bytes.len() == 0 {
            (Stage::Idle, Err(MessageFormatErrorKind::MissingMessageTag))
        } else {
            (Stage::Length(bytes[0]), Ok(StatusView::Requesting(4)))
        },
        Stage::Length(tag) => (
            Stage::Payload(tag),
            match wire::read_i32(bytes) {
                Ok((len, _)) => Ok(StatusView::Requesting(payload_len(len as int))),
                Err(kind) => Err(kind),
            },
        ),
        Stage::Payload(_) => (Stage::Idle, decoded_status(decoded)),
    }
}

/// The stage that follows when a decoder is given these bytes, and what it reports, on a
/// server with this catalogue of types.
pub open spec fn step<T>(stage: Stage, bytes: Seq<u8>, catalogue: Catalogue<T>) -> (
    Stage,
    Result<StatusView<T>, MessageFormatErrorKind>,
) {
    step_on(stage, bytes, wire::decode(stage.tag(), bytes, catalogue))
}

/// The identifiers that a decoder looks up when it is given these bytes.
pub open spec fn requested(stage: Stage, bytes: Seq<u8>) -> Seq<u32> {
    if stage is Payload {
        wire::requested_oids(stage.tag(), bytes)
    } else {
        Seq::empty()
    }
}

/// The stage that follows when a decoder is given these bytes, and what it reports, where
/// `types` are the answers about [`requested`].
pub open spec fn step_with<T>(stage: Stage, bytes: Seq<u8>, types: Seq<Option<T>>) -> (
    Stage,
    Result<StatusView<T>, MessageFormatErrorKind>,
) {
    step_on(stage, bytes, wire::decode_with(stage.tag(), bytes, types))
}

#[derive(Debug, PartialEq)]
pub(crate) enum State {
    RequestingTag,
    Tag(u8),
    WaitingForPayload,
}

/// Decodes messages from client
///
/// # Examples
///
/// ```ignore
/// use pg_wire::{MessageDecoder, MessageDecoderStatus};
///
/// let mut message_decoder = MessageDecoder::new();
/// let mut current: Option<Vec<u8>> = None;
/// loop {
///     match message_decoder.next_stage(current.take().as_deref(), PgType::from_oid) {
///         Ok(MessageDecoderStatus::Requesting(len)) => {
///             let mut buffer = vec![b'0'; len];
///             channel.read_exact(&mut buffer)?;
///             current = Some(buffer);
///         }
///         Ok(MessageDecoderStatus::Done(message)) => return Ok(Ok(message)),
///         Err(error) => return Err(error),
///     }
/// }
/// ```
pub struct MessageDecoder {
    state: Option<State>,
    tag: u8,
}

impl View for MessageDecoder {
    type V = Stage;

    closed spec fn view(&self) -> Stage {
        match self.state {
            None => Stage::Idle,
            Some(State::RequestingTag) => Stage::Tag,
            Some(State::Tag(tag)) => Stage::Length(tag),
            Some(State::WaitingForPayload) => Stage::Payload(self.tag),
        }
    }
}

impl Default for MessageDecoder {
    fn default() -> (decoder: MessageDecoder)
        ensures
            decoder@ == Stage::Idle,
    {
        MessageDecoder::new()
    }
}

/// Reads a list of formats.
fn read_formats(cursor: &mut Cursor) -> (result: Result<Vec<PgFormat>, MessageFormatError>)
    ensures
        match wire::read_list(old(cursor)@, wire::format_item()) {
            Ok((formats, rest)) => {
                &&& result is Ok
                &&& result->Ok_0@ == formats
                &&& final(cursor)@ == rest
            },
            Err(kind) => result == Err::<Vec<PgFormat>, MessageFormatError>(
                MessageFormatError { kind },
            ),
        },
{
    let ghost whole = wire::read_list(cursor@, wire::format_item());
    let count: i16 = cursor.read_i16()?;
    let mut formats: Vec<PgFormat> = Vec::new();
    let mut i: i16 = 0;
    while i < count
        invariant
            0 <= i,
            i <= count || i == 0,
            whole == wire::read_list(old(cursor)@, wire::format_item()),
            match wire::read_items(cursor@, wire::announced(count - i), wire::format_item()) {
                Ok((others, rest)) => whole == Ok::<_, MessageFormatErrorKind>(
                    (formats@ + others, rest),
                ),
                Err(kind) => whole == Err::<(Seq<PgFormat>, Seq<u8>), _>(kind),
            },
        decreases count - i,
    {
        let ghost before = formats@;
        let code: i16 = cursor.read_i16()?;
        let format: PgFormat = PgFormat::try_from(code)?;
        formats.push(format);
        i += 1;
        proof {
            let items = wire::read_items(
                cursor@,
                wire::announced(count - i),
                wire::format_item(),
            );
            if let Ok((others, _)) = items {
                assert(before + (seq![format] + others) =~= formats@ + others);
            }
        }
    }
    Ok(formats)
}

/// Reads the value of a parameter.
fn read_param(cursor: &mut Cursor) -> (result: Result<Option<Vec<u8>>, MessageFormatError>)
    ensures
        match wire::read_param(old(cursor)@) {
            Ok((param, rest)) => {
                &&& result is Ok
                &&& result->Ok_0.deep_view() == param
                &&& final(cursor)@ == rest
            },
            Err(kind) => result == Err::<Option<Vec<u8>>, MessageFormatError>(
                MessageFormatError { kind },
            ),
        },
{
    let len: i32 = cursor.read_i32()?;
    if len == -1 {
        // As a special case, -1 indicates a NULL parameter value.
        return Ok(None);
    }
    let ghost start = cursor@;
    let mut value: Vec<u8> = Vec::new();
    let mut i: i32 = 0;
    while i < len
        invariant
            0 <= i,
            i <= len || i == 0,
            len != -1,
            i <= start.len(),
            wire::read_i32(old(cursor)@) == Ok::<_, MessageFormatErrorKind>((len, start)),
            value@ == start.take(i as int),
            cursor@ == start.skip(i as int),
        decreases len - i,
    {
        let byte: u8 = cursor.read_byte()?;
        value.push(byte);
        i += 1;
    }
    assert(Some(value).deep_view() == Some(start.take(i as int))) by {
        assert(value.deep_view() =~= value@);
    }
    Ok(Some(value))
}

/// Reads a list of values of parameters.
fn read_params(cursor: &mut Cursor) -> (result: Result<Vec<Option<Vec<u8>>>, MessageFormatError>)
    ensures
        match wire::read_list(old(cursor)@, wire::param_item()) {
            Ok((params, rest)) => {
                &&& result is Ok
                &&& result->Ok_0.deep_view() == params
                &&& final(cursor)@ == rest
            },
            Err(kind) => result == Err::<Vec<Option<Vec<u8>>>, MessageFormatError>(
                MessageFormatError { kind },
            ),
        },
{
    let ghost whole = wire::read_list(cursor@, wire::param_item());
    let count: i16 = cursor.read_i16()?;
    let mut params: Vec<Option<Vec<u8>>> = Vec::new();
    let mut i: i16 = 0;
    while i < count
        invariant
            0 <= i,
            i <= count || i == 0,
            whole == wire::read_list(old(cursor)@, wire::param_item()),
            match wire::read_items(cursor@, wire::announced(count - i), wire::param_item()) {
                Ok((others, rest)) => whole == Ok::<_, MessageFormatErrorKind>(
                    (params.deep_view() + others, rest),
                ),
                Err(kind) => whole == Err::<(Seq<Option<Seq<u8>>>, Seq<u8>), _>(kind),
            },
        decreases count - i,
    {
        let ghost before = params.deep_view();
        let param: Option<Vec<u8>> = read_param(cursor)?;
        let ghost value = param.deep_view();
        params.push(param);
        i += 1;
        proof {
            assert(params.deep_view() =~= before.push(value));
            let items = wire::read_items(
                cursor@,
                wire::announced(count - i),
                wire::param_item(),
            );
            if let Ok((others, _)) = items {
                assert(before + (seq![value] + others) =~= params.deep_view() + others);
            }
        }
    }
    Ok(params)
}

/// Reads the types of parameters, as many as `count` announces, and looks each up as soon
/// as it is read.
fn read_types<T, E, F: Fn(u32) -> Result<Option<T>, E>>(
    cursor: &mut Cursor,
    count: i16,
    lookup: F,
) -> (result: Result<Vec<Option<T>>, MessageFormatError>)
    requires
        forall|oid: u32| lookup.requires((oid,)),
    ensures
        ({
            let oids = wire::words(old(cursor)@, wire::announced(count as int));
            exists|types: Seq<Option<T>>| #[trigger]
                looked_up(lookup, oids, types) && match result {
                    Ok(found) => {
                        &&& found@ == types
                        &&& types.len() == oids.len()
                        &&& wire::announced(count as int) * 4 <= old(cursor)@.len()
                    },
                    Err(error) => if types.len() < oids.len() {
                        error.kind == MessageFormatErrorKind::UnsupportedOid(
                            oids[types.len() as int],
                        )
                    } else {
                        &&& error.kind is UnexpectedEndOfBuffer
                        &&& wire::announced(count as int) * 4 > old(cursor)@.len()
                    },
                }
        }),
{
    let ghost start = cursor@;
    let ghost oids = wire::words(start, wire::announced(count as int));
    let mut types: Vec<Option<T>> = Vec::new();
    let mut i: i16 = 0;
    while i < count
        invariant
            0 <= i,
            i <= count || i == 0,
            start == old(cursor)@,
            oids == wire::words(start, wire::announced(count as int)),
            4 * i <= start.len(),
            cursor@ == start.skip(4 * i),
            types@.len() == i,
            forall|oid: u32| lookup.requires((oid,)),
            forall|j: int|
                0 <= j < i ==> lookup.ensures((oids[j],), Ok::<Option<T>, E>(#[trigger] types@[j])),
        decreases count - i,
    {
        match cursor.read_u32() {
            Ok(oid) => {
                assert(oids[i as int] == oid);
                match lookup(oid) {
                    Ok(found) => types.push(found),
                    Err(_) => {
                        assert(looked_up(lookup, oids, types@));
                        return Err(
                            MessageFormatError::from(MessageFormatErrorKind::UnsupportedOid(oid)),
                        );
                    },
                }
            },
            Err(error) => {
                assert(looked_up(lookup, oids, types@));
                return Err(error);
            },
        }
        i += 1;
    }
    assert(looked_up(lookup, oids, types@));
    Ok(types)
}

impl MessageDecoder {
    /// A decoder that has not been given anything yet.
    pub fn new() -> (decoder: MessageDecoder)
        ensures
            decoder@ == Stage::Idle,
    {
        MessageDecoder { state: None, tag: 0 }
    }

    /// Tells whether [`MessageDecoder::next_stage`] may be called with this payload. It may
    /// not where the decoder waits for a length and is given one so far below zero that
    /// nothing can be taken away from it.
    pub fn accepts(&self, payload: Option<&[u8]>) -> (accepted: bool)
        ensures
            accepted == acceptable(self@, bytes_of(payload)),
            !(self@ is Length) ==> accepted,
            payload is None ==> accepted,
            self@ is Length ==> (payload matches Some(bytes) ==> accepted != (bytes@.len() >= 4
                && bytes@[0] == 0x80 && bytes@[1] == 0 && bytes@[2] == 0 && bytes@[3] < 4)),
    {
        if let Some(State::Tag(_)) = self.state {
            if let Some(bytes) = payload {
                let mut cursor = Cursor::from(bytes);
                if let Ok(len) = cursor.read_i32() {
                    return len >= i32::MIN + 4;
                }
            }
        }
        true
    }

    /// Proceed to the next stage of decoding received message
    ///
    /// `lookup` is the catalogue of types. It is asked about the types of a `Parse` message.
    pub fn next_stage<T, E, F: Fn(u32) -> Result<Option<T>, E>>(
        &mut self,
        payload: Option<&[u8]>,
        lookup: F,
    ) -> (result: Result<Status<T>, MessageFormatError>)
        requires
            acceptable(old(self)@, bytes_of(payload)),
            forall|oid: u32| lookup.requires((oid,)),
        ensures
            exists|types: Seq<Option<T>>| #[trigger]
                looked_up(lookup, requested(old(self)@, bytes_of(payload)), types) && (
                final(self)@,
                status_result(result),
                ) == step_with(old(self)@, bytes_of(payload), types),
            forall|catalogue: Catalogue<T>| #[trigger]
                computes(lookup, catalogue) ==> (final(self)@, status_result(result)) == step(
                    old(self)@,
                    bytes_of(payload),
                    catalogue,
                ),
    {
        proof {
            let oids = requested(self@, bytes_of(payload));
            assert(oids.len() == 0 ==> looked_up(lookup, oids, Seq::<Option<T>>::empty()));
        }
        let buf: &[u8] = if let Some(payload) = payload {
            payload
        } else {
            &[]
        };
        assert(buf@ =~= bytes_of(payload));
        match self.state.take() {
            None => {
                self.state = Some(State::RequestingTag);
                Ok(Status::Requesting(1))
            },
            Some(State::RequestingTag) => {
                if buf.len() == 0 {
                    Err(MessageFormatError::from(MessageFormatErrorKind::MissingMessageTag))
                } else {
                    self.state = Some(State::Tag(buf[0]));
                    Ok(Status::Requesting(4))
                }
            },
            Some(State::Tag(tag)) => {
                self.tag = tag;
                self.state = Some(State::WaitingForPayload);
                let mut cursor = Cursor::from(buf);
                let len: i32 = cursor.read_i32()? - 4;
                Ok(
                    Status::Requesting(
                        if len >= 0 {
                            len as usize
                        } else {
                            usize::MAX - ((-1 - len) as usize)
                        },
                    ),
                )
            },
            Some(State::WaitingForPayload) => {
                let result = Self::decode(self.tag, buf, lookup);
                proof {
                    let types = choose|types: Seq<Option<T>>| #[trigger]
                        looked_up(lookup, wire::requested_oids(self.tag, buf@), types)
                            && status_result(result) == decoded_status(
                            wire::decode_with(self.tag, buf@, types),
                        );
                    assert forall|catalogue: Catalogue<T>| #[trigger]
                        computes(lookup, catalogue) implies status_result(result) == decoded_status(
                        wire::decode(self.tag, buf@, catalogue),
                    ) by {
                        theorem_answers_of_a_catalogue(self.tag, buf@, lookup, catalogue, types);
                    }
                }
                result
            },
        }
    }

    /// Decodes the payload of the message with this tag.
    fn decode<T, E, F: Fn(u32) -> Result<Option<T>, E>>(
        tag: u8,
        buffer: &[u8],
        lookup: F,
    ) -> (result: Result<Status<T>, MessageFormatError>)
        requires
            forall|oid: u32| lookup.requires((oid,)),
        ensures
            exists|types: Seq<Option<T>>| #[trigger]
                looked_up(lookup, wire::requested_oids(tag, buffer@), types) && status_result(
                    result,
                ) == decoded_status(wire::decode_with(tag, buffer@, types)),
    {
        proof {
            let oids = wire::requested_oids(tag, buffer@);
            assert(oids.len() == 0 ==> looked_up(lookup, oids, Seq::<Option<T>>::empty()));
        }
        let mut cursor = Cursor::from(buffer);
        match tag {
            // Simple query flow.
            QUERY => {
                let sql = cursor.read_cstr()?.to_owned();
                Ok(Status::Done(CommandMessage::Query { sql }))
            },
            // Extended query flow.
            BIND => {
                let portal_name = cursor.read_cstr()?.to_owned();
                let statement_name = cursor.read_cstr()?.to_owned();
                let param_formats = read_formats(&mut cursor)?;
                let raw_params = read_params(&mut cursor)?;
                let result_formats = read_formats(&mut cursor)?;
                Ok(
                    Status::Done(
                        CommandMessage::Bind {
                            portal_name,
                            statement_name,
                            param_formats,
                            raw_params,
                            result_formats,
                        },
                    ),
                )
            },
            CLOSE => {
                let first_char: u8 = cursor.read_byte()?;
                let name = cursor.read_cstr()?.to_owned();
                match first_char {
                    PORTAL => Ok(Status::Done(CommandMessage::ClosePortal { name })),
                    STATEMENT => Ok(Status::Done(CommandMessage::CloseStatement { name })),
                    other => Err(
                        MessageFormatError::from(
                            MessageFormatErrorKind::InvalidTypeByte(other as char),
                        ),
                    ),
                }
            },
            DESCRIBE => {
                let first_char: u8 = cursor.read_byte()?;
                let name = cursor.read_cstr()?.to_owned();
                match first_char {
                    PORTAL => Ok(Status::Done(CommandMessage::DescribePortal { name })),
                    STATEMENT => Ok(Status::Done(CommandMessage::DescribeStatement { name })),
                    other => Err(
                        MessageFormatError::from(
                            MessageFormatErrorKind::InvalidTypeByte(other as char),
                        ),
                    ),
                }
            },
            EXECUTE => {
                let portal_name = cursor.read_cstr()?.to_owned();
                let max_rows: i32 = cursor.read_i32()?;
                Ok(Status::Done(CommandMessage::Execute { portal_name, max_rows }))
            },
            FLUSH => Ok(Status::Done(CommandMessage::Flush)),
            PARSE => {
                let statement_name = cursor.read_cstr()?.to_owned();
                let sql = cursor.read_cstr()?.to_owned();
                let count: i16 = cursor.read_i16()?;
                let param_types = read_types(&mut cursor, count, lookup)?;
                Ok(Status::Done(CommandMessage::Parse { statement_name, sql, param_types }))
            },
            SYNC => Ok(Status::Done(CommandMessage::Sync)),
            TERMINATE => Ok(Status::Done(CommandMessage::Terminate)),
            _ => Err(
                MessageFormatError::from(
                    MessageFormatErrorKind::UnsupportedFrontendMessage(tag as char),
                ),
            ),
        }
    }
}

} // verus!
