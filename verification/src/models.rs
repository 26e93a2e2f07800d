//! What the models of values keep of them.
//!
//! The contracts of the library speak of messages, statuses and payloads by their models.
//! A model has every part of its value, each in its own place.
use crate::errors::{MessageFormatError, MessageFormatErrorKind};
use crate::formats::PgFormat;
use crate::frontend::{CommandMessage, MessageView};
use crate::message_decoder::{bytes_of, status_result, Status, StatusView};
use vstd::prelude::*;

verus! {

/// These are the values of parameters that `params` holds.
pub open spec fn values_of(params: Seq<Option<Vec<u8>>>, values: Seq<Option<Seq<u8>>>) -> bool {
    &&& values.len() == params.len()
    &&& forall|i: int|
        0 <= i < params.len() ==> match #[trigger] params[i] {
            Some(bytes) => values[i] matches Some(value) && bytes@ == value,
            None => values[i] is None,
        }
}

/// A message and its model are of the same kind, and the model has the characters of each
/// string and the items of each list of the message under the same name.
pub proof fn theorem_models_of_messages<T>(message: CommandMessage<T>)
    ensures
        match (message, message@) {
            (CommandMessage::Query { sql }, MessageView::Query { sql: text }) => sql@ == text,
            (
                CommandMessage::Bind {
                    portal_name,
                    statement_name,
                    param_formats,
                    raw_params,
                    result_formats,
                },
                MessageView::Bind {
                    portal_name: portal,
                    statement_name: statement,
                    param_formats: formats,
                    raw_params: values,
                    result_formats: results,
                },
            ) => {
                &&& portal_name@ == portal
                &&& statement_name@ == statement
                &&& param_formats@ == formats
                &&& values_of(raw_params@, values)
                &&& result_formats@ == results
            },
            (
                CommandMessage::ClosePortal { name },
                MessageView::ClosePortal { name: portal },
            ) => name@ == portal,
            (
                CommandMessage::CloseStatement { name },
                MessageView::CloseStatement { name: statement },
            ) => name@ == statement,
            (
                CommandMessage::DescribePortal { name },
                MessageView::DescribePortal { name: portal },
            ) => name@ == portal,
            (
                CommandMessage::DescribeStatement { name },
                MessageView::DescribeStatement { name: statement },
            ) => name@ == statement,
            (
                CommandMessage::Execute { portal_name, max_rows },
                MessageView::Execute { portal_name: portal, max_rows: rows },
            ) => portal_name@ == portal && max_rows == rows,
            (CommandMessage::Flush, MessageView::Flush) => true,
            (
                CommandMessage::Parse { statement_name, sql, param_types },
                MessageView::Parse { statement_name: statement, sql: text, param_types: types },
            ) => statement_name@ == statement && sql@ == text && param_types@ == types,
            (CommandMessage::Sync, MessageView::Sync) => true,
            (CommandMessage::Terminate, MessageView::Terminate) => true,
            _ => false,
        },
{
    if let CommandMessage::Bind { raw_params, .. } = message {
        assert forall|i: int| 0 <= i < raw_params@.len() implies match #[trigger] raw_params@[i] {
            Some(bytes) => raw_params.deep_view()[i] matches Some(value) && bytes@ == value,
            None => raw_params.deep_view()[i] is None,
        } by {
            if let Some(bytes) = raw_params@[i] {
                assert(bytes.deep_view() =~= bytes@);
            }
        }
    }
}

/// The model of a result holds the number of bytes that is requested, the message that is
/// handed out, or what is wrong.
pub proof fn theorem_models_of_results<T>(result: Result<Status<T>, MessageFormatError>)
    ensures
        match (result, status_result(result)) {
            (Ok(Status::Requesting(len)), Ok(StatusView::Requesting(n))) => len == n,
            (Ok(Status::Done(message)), Ok(StatusView::Done(model))) => message@ == model,
            (Err(error), Err(kind)) => error.kind == kind,
            _ => false,
        },
{
}

/// A payload that is given stands for its bytes, and none for no bytes.
pub proof fn theorem_bytes_of_payloads(payload: &[u8])
    ensures
        bytes_of(Some(payload)) == payload@,
        bytes_of(None) == Seq::<u8>::empty(),
{
}

/// The code 0 is text and the code 1 is binary. Any other code is refused, and the error
/// names it.
pub proof fn theorem_formats_of_codes(code: i16, result: Result<PgFormat, MessageFormatError>)
    requires
        call_ensures(PgFormat::try_from, (code,), result),
    ensures
        match result {
            Ok(PgFormat::Text) => code == 0,
            Ok(PgFormat::Binary) => code == 1,
            Err(error) => {
                &&& code != 0
                &&& code != 1
                &&& error.kind == MessageFormatErrorKind::UnrecognizedFormat(code)
            },
        },
{
}

/// The error that is made of a kind says that kind.
pub proof fn theorem_errors_say_what_is_wrong(
    kind: MessageFormatErrorKind,
    error: MessageFormatError,
)
    requires
        call_ensures(
            <MessageFormatError as From<MessageFormatErrorKind>>::from,
            (kind,),
            error,
        ),
    ensures
        error.kind == kind,
{
}

} // verus!
