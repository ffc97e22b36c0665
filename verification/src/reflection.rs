//! Listing and importing services through the server reflection protocol:
//! what each reply of the server means, and what the reflection tab shows.
use vstd::prelude::*;

use crate::error::{code_of, code_name, GrpcCode};
use crate::request::RequestState;
use crate::tab::ReflectionTabState;
use crate::text::push_str;

verus! {

/// A reply of the server to a reflection request.
#[derive(Debug)]
pub enum ReflectionReply {
    /// The names of the services the server offers.
    ListServices(Vec<String>),
    /// Serialized descriptor files.
    FileDescriptors(Vec<Vec<u8>>),
    /// An error, with its status code number and message.
    Error { code: i32, message: String },
    /// Any other kind of reply.
    Other,
}

/// Why a reflection request failed.
#[derive(Debug, Clone, PartialEq, Eq)]
pub enum ReflectionError {
    /// The server closed the stream without replying.
    EndOfStream,
    /// The server replied with another kind of reply than was asked for.
    UnexpectedResponse,
    /// The server replied with an error status.
    Status(GrpcCode, String),
    /// The service is not among the descriptors the server sent.
    ServiceNotFound(String),
}

/// The error a reply stands for when it is not the kind that was asked for.
pub open spec fn reply_error(reply: Option<ReflectionReply>) -> ReflectionError {
    match reply {
        None => ReflectionError::EndOfStream,
        Some(ReflectionReply::Error { code, message }) => ReflectionError::Status(code_of(code), message),
        Some(_) => ReflectionError::UnexpectedResponse,
    }
}

/// The error of a reply that is not the kind asked for.
fn error_of(reply: Option<ReflectionReply>) -> (res: ReflectionError)
    ensures
        res == reply_error(reply),
{
    match reply {
        None => ReflectionError::EndOfStream,
        Some(ReflectionReply::Error { code, message }) => ReflectionError::Status(GrpcCode::from_i32(code), message),
        Some(_) => ReflectionError::UnexpectedResponse,
    }
}

/// The service names of the reply to a request to list services.
pub fn service_list(reply: Option<ReflectionReply>) -> (res: Result<Vec<String>, ReflectionError>)
    ensures
        match reply {
            Some(ReflectionReply::ListServices(names)) => res == Ok::<Vec<String>, ReflectionError>(names),
            _ => res == Err::<Vec<String>, ReflectionError>(reply_error(reply)),
        },
{
    match reply {
        Some(ReflectionReply::ListServices(names)) => Ok(names),
        _ => Err(error_of(reply)),
    }
}

/// The descriptor files of the reply to a request for the file holding a
/// symbol.
pub fn file_descriptors(reply: Option<ReflectionReply>) -> (res: Result<Vec<Vec<u8>>, ReflectionError>)
    ensures
        match reply {
            Some(ReflectionReply::FileDescriptors(files)) => res == Ok::<Vec<Vec<u8>>, ReflectionError>(files),
            _ => res == Err::<Vec<Vec<u8>>, ReflectionError>(reply_error(reply)),
        },
{
    match reply {
        Some(ReflectionReply::FileDescriptors(files)) => Ok(files),
        _ => Err(error_of(reply)),
    }
}

impl ReflectionError {
    pub open spec fn spec_text(&self) -> Seq<char> {
        match self {
            ReflectionError::EndOfStream => "unexpected end of response stream"@,
            ReflectionError::UnexpectedResponse => "unexpected response type"@,
            ReflectionError::Status(code, message) => if message@.len() == 0 {
                code_name(*code)
            } else {
                code_name(*code) + ": "@ + message@
            },
            ReflectionError::ServiceNotFound(name) => "service '"@ + name@
                + "' not found in file descriptor from server"@,
        }
    }

    /// The text the error is shown with.
    pub fn text(&self) -> (res: String)
        ensures
            res@ == self.spec_text(),
    {
        match self {
            ReflectionError::EndOfStream => "unexpected end of response stream".to_owned(),
            ReflectionError::UnexpectedResponse => "unexpected response type".to_owned(),
            ReflectionError::Status(code, message) => crate::error::fmt_grpc_err(
                &Some((*code, message.clone())),
                &None,
                &Vec::new(),
            ),
            ReflectionError::ServiceNotFound(name) => {
                let mut s = "service '".to_owned();
                push_str(&mut s, name.as_str());
                push_str(&mut s, "' not found in file descriptor from server");
                s
            },
        }
    }
}

impl ReflectionTabState {
    /// Starts listing the services: the tab shows that it is connecting, and
    /// a connection is made only to a valid address.
    pub fn start_list_services(&mut self) -> (connect: bool)
        requires
            old(self).address.wf(),
        ensures
            connect == old(self).address.spec_is_valid(),
            final(self).address.wf(),
            final(self).address.spec_request_state() == RequestState::ConnectInProgress,
            final(self).address.spec_text() == old(self).address.spec_text(),
            final(self).services == old(self).services,
            final(self).verify_certs == old(self).verify_certs,
    {
        self.address.set_request_state(RequestState::ConnectInProgress);
        self.address.is_valid()
    }

    /// Takes the outcome of listing: the services are shown and the tab is
    /// connected, or the text of the error is shown.
    pub fn finish_list_services(&mut self, result: Result<Vec<String>, String>)
        requires
            old(self).address.wf(),
        ensures
            final(self).address.wf(),
            final(self).address.spec_text() == old(self).address.spec_text(),
            final(self).verify_certs == old(self).verify_certs,
            match result {
                Ok(names) => final(self).address.spec_request_state() == RequestState::Connected
                    && final(self).services == Some(names),
                Err(e) => final(self).address.spec_request_state() == RequestState::ConnectFailed(e)
                    && final(self).services == old(self).services,
            },
    {
        match result {
            Ok(names) => {
                self.address.set_request_state(RequestState::Connected);
                self.services = Some(names);
            },
            Err(e) => {
                self.address.set_request_state(RequestState::ConnectFailed(e));
            },
        }
    }

    /// Shows why importing a service failed.
    pub fn import_failed(&mut self, error: String)
        requires
            old(self).address.wf(),
        ensures
            final(self).address.wf(),
            final(self).address.spec_request_state() == RequestState::ConnectFailed(error),
            final(self).address.spec_text() == old(self).address.spec_text(),
            final(self).services == old(self).services,
    {
        self.address.set_request_state(RequestState::ConnectFailed(error));
    }
}

} // verus!
