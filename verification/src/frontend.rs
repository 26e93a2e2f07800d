//! Messages of a client.
use crate::formats::PgFormat;
use vstd::prelude::*;

verus! {

/// A command that a client sends. `T` is what types of values are known by.
#[derive(Debug, PartialEq)]
pub enum CommandMessage<T> {
    /// Run the statements of `sql`.
    Query {
        /// The text of the query.
        sql: String,
    },
    /// Make a portal of a prepared statement and values for its parameters.
    Bind {
        /// The portal to make; the unnamed one if empty.
        portal_name: String,
        /// The prepared statement; the unnamed one if empty.
        statement_name: String,
        /// The formats of the values.
        param_formats: Vec<PgFormat>,
        /// The values as they were sent; `None` is NULL.
        raw_params: Vec<Option<Vec<u8>>>,
        /// The formats that the result columns shall have.
        result_formats: Vec<PgFormat>,
    },
    /// Close a portal.
    ClosePortal {
        /// The portal.
        name: String,
    },
    /// Close a prepared statement.
    CloseStatement {
        /// The prepared statement.
        name: String,
    },
    /// Describe a portal.
    DescribePortal {
        /// The portal.
        name: String,
    },
    /// Describe a prepared statement.
    DescribeStatement {
        /// The prepared statement.
        name: String,
    },
    /// Run a portal.
    Execute {
        /// The portal.
        portal_name: String,
        /// The number of rows to return at most; 0 for all.
        max_rows: i32,
    },
    /// Send what is pending.
    Flush,
    /// Make a prepared statement.
    Parse {
        /// The prepared statement to make; the unnamed one if empty.
        statement_name: String,
        /// The text of the statement.
        sql: String,
        /// The types of the parameters; `None` where the server is to infer one.
        param_types: Vec<Option<T>>,
    },
    /// End of a sequence of extended query messages.
    Sync,
    /// End of the session.
    Terminate,
}

/// A command with its strings as sequences of characters and its lists as sequences.
#[verifier::ext_equal]
pub enum MessageView<T> {
    Query { sql: Seq<char> },
    Bind {
        portal_name: Seq<char>,
        statement_name: Seq<char>,
        param_formats: Seq<PgFormat>,
        raw_params: Seq<Option<Seq<u8>>>,
        result_formats: Seq<PgFormat>,
    },
    ClosePortal { name: Seq<char> },
    CloseStatement { name: Seq<char> },
    DescribePortal { name: Seq<char> },
    DescribeStatement { name: Seq<char> },
    Execute { portal_name: Seq<char>, max_rows: i32 },
    Flush,
    Parse { statement_name: Seq<char>, sql: Seq<char>, param_types: Seq<Option<T>> },
    Sync,
    Terminate,
}

impl<T> View for CommandMessage<T> {
    type V = MessageView<T>;

    open spec fn view(&self) -> MessageView<T> {
        match *self {
            CommandMessage::Query { sql } => MessageView::Query { sql: sql@ },
            CommandMessage::Bind {
                portal_name,
                statement_name,
                param_formats,
                raw_params,
                result_formats,
            } => MessageView::Bind {
                portal_name: portal_name@,
                statement_name: statement_name@,
                param_formats: param_formats@,
                raw_params: raw_params.deep_view(),
                result_formats: result_formats@,
            },
            CommandMessage::ClosePortal { name } => MessageView::ClosePortal { name: name@ },
            CommandMessage::CloseStatement { name } => MessageView::CloseStatement { name: name@ },
            CommandMessage::DescribePortal { name } => MessageView::DescribePortal { name: name@ },
            CommandMessage::DescribeStatement { name } => MessageView::DescribeStatement {
                name: name@,
            },
            CommandMessage::Execute { portal_name, max_rows } => MessageView::Execute {
                portal_name: portal_name@,
                max_rows,
            },
            CommandMessage::Flush => MessageView::Flush,
            CommandMessage::Parse { statement_name, sql, param_types } => MessageView::Parse {
                statement_name: statement_name@,
                sql: sql@,
                param_types: param_types@,
            },
            CommandMessage::Sync => MessageView::Sync,
            CommandMessage::Terminate => MessageView::Terminate,
        }
    }
}

} // verus!
