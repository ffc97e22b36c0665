//! An entry of a method tab's history as the response side shows it: a JSON
//! payload, an error with the details the status carried, or the metadata
//! received.
use vstd::prelude::*;

use crate::error::{fmt_grpc_err, grpc_err_text, texts, GrpcCode};

verus! {

/// An error shown in the history: its text and, where the status carried
/// details, their JSON text.
#[derive(Debug, Clone)]
pub struct ErrorDetail {
    pub message: String,
    pub details: Option<String>,
}

/// How a call failed: the status's code and message where the server
/// answered with one, else the text of the root I/O error if there is one
/// and the texts of the causes; and the JSON text of the details the status
/// carried, where they could be read.
#[derive(Debug, Clone)]
pub struct CallFailure {
    pub status: Option<(GrpcCode, String)>,
    pub io_error: Option<String>,
    pub causes: Vec<String>,
    pub details: Option<String>,
}

/// What an entry shows.
#[derive(Debug, Clone)]
pub enum ItemState {
    Payload(String),
    Error(ErrorDetail),
    Metadata(Vec<(String, String)>),
}

/// The text of a failure, as `fmt_grpc_err` gives it.
pub open spec fn failure_text(f: CallFailure) -> Seq<char> {
    grpc_err_text(
        match f.status {
            Some((c, m)) => Some((c, m@)),
            None => None,
        },
        match f.io_error {
            Some(e) => Some(e@),
            None => None,
        },
        texts(f.causes@),
    )
}

impl ItemState {
    /// The entry of a request sent: its JSON text.
    pub fn from_request(json: String) -> (res: ItemState)
        ensures
            res == ItemState::Payload(json),
    {
        ItemState::Payload(json)
    }

    /// The entry of a response: its JSON text, or the failure's text with
    /// the details of its status; a failure without a status has no
    /// details.
    pub fn from_response(result: Result<String, CallFailure>) -> (res: ItemState)
        ensures
            match result {
                Ok(payload) => res == ItemState::Payload(payload),
                Err(f) => res matches ItemState::Error(d) && d.message@ == failure_text(f) && d.details == (
                if f.status is Some {
                    f.details
                } else {
                    None
                }),
            },
    {
        match result {
            Ok(payload) => ItemState::Payload(payload),
            Err(f) => {
                let message = fmt_grpc_err(&f.status, &f.io_error, &f.causes);
                let details = match f.status {
                    Some(_) => f.details,
                    None => None,
                };
                ItemState::Error(ErrorDetail { message, details })
            },
        }
    }

    /// The entry of the metadata received, as key and value texts.
    pub fn from_metadata(entries: Vec<(String, String)>) -> (res: ItemState)
        ensures
            res == ItemState::Metadata(entries),
    {
        ItemState::Metadata(entries)
    }

    /// Whether the entry has text to copy: payloads and errors do, metadata
    /// does not.
    pub fn can_copy(&self) -> (res: bool)
        ensures
            res == !(*self is Metadata),
    {
        match self {
            ItemState::Payload(_) | ItemState::Error(_) => true,
            ItemState::Metadata(_) => false,
        }
    }

    /// The text copying the entry puts on the clipboard: a payload's JSON, an
    /// error's details where it has them, else its message; nothing for
    /// metadata.
    pub fn clipboard_text(&self) -> (res: Option<&str>)
        ensures
            match *self {
                ItemState::Payload(p) => res matches Some(t) && t@ == p@,
                ItemState::Error(d) => res matches Some(t) && t@ == match d.details {
                    Some(x) => x@,
                    None => d.message@,
                },
                ItemState::Metadata(_) => res is None,
            },
    {
        match self {
            ItemState::Payload(p) => Some(p.as_str()),
            ItemState::Error(d) => match &d.details {
                Some(x) => Some(x.as_str()),
                None => Some(d.message.as_str()),
            },
            ItemState::Metadata(_) => None,
        }
    }
}

} // verus!
