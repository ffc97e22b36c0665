use vstd::prelude::*;

use crate::method_kind::MethodKind;
use crate::uri::{spec_validate_uri, validate_uri};

verus! {

/// Where a tab stands in connecting to a server and sending requests.
#[derive(Debug, Clone, PartialEq, Eq)]
pub enum RequestState {
    NotStarted,
    ConnectInProgress,
    Connected,
    ConnectFailed(String),
    AuthorizationHookFailed(String),
    SendInProgress,
    AuthorizationHookInProgress,
}

/// The icon shown beside an address box.
#[derive(Debug, Clone, Copy, PartialEq, Eq, Structural)]
pub enum StateIcon {
    NotStarted,
    InProgress,
    Succeeded,
    Failed,
}

/// Per-service settings that new tabs of the service start from.
#[derive(Debug, Clone)]
pub struct ServiceOptions {
    pub default_address: Option<String>,
    pub verify_certs: bool,
}

/// The address box of a tab: the text typed, its validation error if any, and
/// the state of the connection made to it.
#[derive(Debug, Clone)]
pub struct AddressState {
    text: String,
    uri_error: Option<String>,
    request_state: RequestState,
}

impl ServiceOptions {
    /// A copy of these options.
    pub fn duplicate(&self) -> (res: ServiceOptions)
        ensures
            res == *self,
    {
        let default_address = match &self.default_address {
            Some(a) => Some(a.clone()),
            None => None,
        };
        ServiceOptions { default_address, verify_certs: self.verify_certs }
    }
}

impl RequestState {
    /// The states from which a new connection may be started.
    pub open spec fn spec_allows_connect(&self) -> bool {
        self is NotStarted || self is ConnectFailed
    }

    /// The states in which a connection exists or is being made.
    pub open spec fn spec_allows_disconnect(&self) -> bool {
        !self.spec_allows_connect()
    }

    pub open spec fn spec_state_icon(&self) -> StateIcon {
        match self {
            RequestState::NotStarted => StateIcon::NotStarted,
            RequestState::ConnectInProgress => StateIcon::InProgress,
            RequestState::AuthorizationHookInProgress => StateIcon::InProgress,
            RequestState::SendInProgress => StateIcon::InProgress,
            RequestState::Connected => StateIcon::Succeeded,
            RequestState::ConnectFailed(_) => StateIcon::Failed,
            RequestState::AuthorizationHookFailed(_) => StateIcon::Failed,
        }
    }
}

impl AddressState {
    pub closed spec fn spec_text(&self) -> Seq<char> {
        self.text@
    }

    pub closed spec fn spec_uri_error(&self) -> Option<Seq<char>> {
        match self.uri_error {
            Some(e) => Some(e@),
            None => None,
        }
    }

    pub closed spec fn spec_request_state(&self) -> RequestState {
        self.request_state
    }

    /// The address is valid when its text is a URI with a scheme.
    pub open spec fn spec_is_valid(&self) -> bool {
        self.spec_uri_error() is None
    }

    pub closed spec fn wf(&self) -> bool {
        match spec_validate_uri(self.text@) {
            Ok(()) => self.uri_error is None,
            Err(msg) => self.uri_error matches Some(e) && e@ == msg,
        }
    }

    /// A new address box holding `address`, not yet connected.
    pub fn new(address: String) -> (res: AddressState)
        ensures
            res.wf(),
            res.spec_text() == address@,
            res.spec_request_state() == RequestState::NotStarted,
            res.spec_is_valid() <==> spec_validate_uri(address@) is Ok,
    {
        let uri_error = match validate_uri(address.as_str()) {
            Ok(()) => None,
            Err(msg) => Some(msg),
        };
        AddressState { text: address, uri_error, request_state: RequestState::NotStarted }
    }

    /// The address box a tab starts with for a service: its default address,
    /// or an empty box.
    pub fn with_options(options: &ServiceOptions) -> (res: AddressState)
        ensures
            res.wf(),
            res.spec_request_state() == RequestState::NotStarted,
            match options.default_address {
                Some(addr) => res.spec_text() == addr@,
                None => res.spec_text() == Seq::<char>::empty(),
            },
    {
        match &options.default_address {
            Some(addr) => AddressState::new(addr.clone()),
            None => AddressState::new(String::new()),
        }
    }

    pub fn is_valid(&self) -> (b: bool)
        ensures
            b == self.spec_is_valid(),
    {
        self.uri_error.is_none()
    }

    pub fn text(&self) -> (s: &str)
        ensures
            s@ == self.spec_text(),
    {
        self.text.as_str()
    }

    /// Replaces the text of the box and validates it again; the connection
    /// state is kept.
    pub fn set_uri(&mut self, text: String)
        ensures
            final(self).wf(),
            final(self).spec_text() == text@,
            final(self).spec_request_state() == old(self).spec_request_state(),
    {
        let uri_error = match validate_uri(text.as_str()) {
            Ok(()) => None,
            Err(msg) => Some(msg),
        };
        self.text = text;
        self.uri_error = uri_error;
    }

    pub fn request_state(&self) -> (s: &RequestState)
        ensures
            *s == self.spec_request_state(),
    {
        &self.request_state
    }

    pub fn set_request_state(&mut self, request_state: RequestState)
        requires
            old(self).wf(),
        ensures
            final(self).wf(),
            final(self).spec_request_state() == request_state,
            final(self).spec_text() == old(self).spec_text(),
            final(self).spec_uri_error() == old(self).spec_uri_error(),
    {
        self.request_state = request_state;
    }

    /// The error shown under the address box: the validation error of the
    /// text first, else the message of a failed connection or authorization.
    pub fn display_error(&self) -> (res: Option<String>)
        ensures
            match self.spec_uri_error() {
                Some(e) => res matches Some(r) && r@ == e,
                None => match self.spec_request_state() {
                    RequestState::ConnectFailed(m) => res matches Some(r) && r@ == m@,
                    RequestState::AuthorizationHookFailed(m) => res matches Some(r) && r@ == m@,
                    _ => res is None,
                },
            },
    {
        if let Some(err) = &self.uri_error {
            Some(err.clone())
        } else {
            match &self.request_state {
                RequestState::ConnectFailed(err) => Some(err.clone()),
                RequestState::AuthorizationHookFailed(err) => Some(err.clone()),
                _ => None,
            }
        }
    }

    pub fn state_icon(&self) -> (icon: StateIcon)
        ensures
            icon == self.spec_request_state().spec_state_icon(),
    {
        match self.request_state {
            RequestState::NotStarted => StateIcon::NotStarted,
            RequestState::ConnectInProgress
            | RequestState::AuthorizationHookInProgress
            | RequestState::SendInProgress => StateIcon::InProgress,
            RequestState::Connected => StateIcon::Succeeded,
            RequestState::ConnectFailed(_) | RequestState::AuthorizationHookFailed(_) => {
                StateIcon::Failed
            },
        }
    }
}

} // verus!
