//! What a method tab does as its connection and call progress: the decisions
//! between the outside work of connecting, sending and receiving, which the
//! caller carries out.
use vstd::prelude::*;

use crate::request::{AddressState, RequestState};
use crate::stream::{item_label, ItemKind};
use crate::tab::{MethodTabState, OptionsTabState};

verus! {

/// Whether a method tab holds a connected client and a call in progress.
#[derive(Debug, Clone, Copy, PartialEq, Eq, Structural)]
pub struct MethodSession {
    pub connected: bool,
    pub active: bool,
}

/// What sending a request needs done.
#[derive(Debug, Clone, Copy, PartialEq, Eq, Structural)]
pub enum SendAction {
    /// Nothing can be sent.
    Nothing,
    /// Send the request on the call in progress.
    SendOnCall,
    /// Start a call with the request.
    StartCall,
}

/// What came back from a call.
#[derive(Debug)]
pub enum ResponseEvent {
    /// A response, as JSON text, and the time it took as text.
    Response { body: String, duration: String },
    /// The call failed; the text of the error.
    Error { text: String },
    /// The call ended.
    Finished,
}

/// The request state a tab shows: sending while a call is in progress, else
/// connected or not.
pub open spec fn session_state(s: MethodSession) -> RequestState {
    if s.active {
        RequestState::SendInProgress
    } else if s.connected {
        RequestState::Connected
    } else {
        RequestState::NotStarted
    }
}

/// `after` is `before` with only the request state of its address changed,
/// to `state`.
pub open spec fn only_state_set(before: MethodTabState, after: MethodTabState, state: RequestState) -> bool {
    &&& after.address.wf()
    &&& after.address.spec_request_state() == state
    &&& after.address.spec_text() == before.address.spec_text()
    &&& after.address.spec_uri_error() == before.address.spec_uri_error()
    &&& after.method == before.method
    &&& after.request == before.request
    &&& after.request_valid == before.request_valid
    &&& after.request_metadata == before.request_metadata
    &&& after.stream == before.stream
    &&& after.service_options == before.service_options
}

impl MethodSession {
    /// No client and no call.
    pub fn new() -> (res: MethodSession)
        ensures
            !res.connected && !res.active,
    {
        MethodSession { connected: false, active: false }
    }

    /// Shows the state of the session in the tab's address box.
    fn show_state(&self, tab: &mut MethodTabState)
        requires
            old(tab).address.wf(),
        ensures
            only_state_set(*old(tab), *final(tab), session_state(*self)),
    {
        let state = if self.active {
            RequestState::SendInProgress
        } else if self.connected {
            RequestState::Connected
        } else {
            RequestState::NotStarted
        };
        tab.address.set_request_state(state);
    }

    /// Decides whether to connect: only to a valid address, and only when not
    /// connected yet; the tab then shows that a connection is being made.
    pub fn start_connect(&mut self, tab: &mut MethodTabState) -> (start: bool)
        requires
            old(tab).address.wf(),
        ensures
            start == (old(tab).address.spec_is_valid() && !old(self).connected),
            *final(self) == *old(self),
            start ==> only_state_set(*old(tab), *final(tab), RequestState::ConnectInProgress),
            !start ==> *final(tab) == *old(tab),
    {
        if !tab.address.is_valid() || self.connected {
            return false;
        }
        tab.address.set_request_state(RequestState::ConnectInProgress);
        true
    }

    /// Takes the outcome of connecting: a client makes the session connected;
    /// an error is shown as a failed connection.
    pub fn finish_connect(&mut self, tab: &mut MethodTabState, result: Result<(), String>)
        requires
            old(tab).address.wf(),
        ensures
            match result {
                Ok(()) => {
                    &&& *final(self) == (MethodSession { connected: true, ..*old(self) })
                    &&& only_state_set(*old(tab), *final(tab), session_state(*final(self)))
                },
                Err(e) => {
                    &&& *final(self) == *old(self)
                    &&& only_state_set(*old(tab), *final(tab), RequestState::ConnectFailed(e))
                },
            },
    {
        match result {
            Ok(()) => {
                self.connected = true;
                self.show_state(tab);
            },
            Err(e) => {
                tab.address.set_request_state(RequestState::ConnectFailed(e));
            },
        }
    }

    /// Decides how to send `request`, the request's JSON text when the
    /// request box holds a valid message. Without one nothing happens. Else
    /// the request is added to the history; it goes on the call in progress
    /// when the method streams requests, and starts a call when there is
    /// none but a client, which the tab then shows as sending.
    pub fn start_send(&mut self, tab: &mut MethodTabState, request: Option<String>) -> (action: SendAction)
        requires
            old(tab).address.wf(),
            old(tab).stream.spec_request_count() < usize::MAX,
        ensures
            match request {
                None => action == SendAction::Nothing && *final(self) == *old(self) && *final(tab) == *old(tab),
                Some(json) => {
                    &&& final(tab).stream.spec_items().drop_last().len() == old(tab).stream.spec_items().len()
                    &&& final(tab).stream.spec_items().last().kind == ItemKind::Request
                    &&& final(tab).stream.spec_items().last().body@ == json@
                    &&& final(tab).stream.spec_items().last().label@ == item_label(
                        ItemKind::Request,
                        old(tab).stream.spec_request_count() + 1int,
                    )
                    &&& action == if old(self).active {
                        if old(tab).method.kind.spec_client_streaming() {
                            SendAction::SendOnCall
                        } else {
                            SendAction::Nothing
                        }
                    } else if old(self).connected {
                        SendAction::StartCall
                    } else {
                        SendAction::Nothing
                    }
                    &&& *final(self) == if action == SendAction::StartCall {
                        MethodSession { active: true, ..*old(self) }
                    } else {
                        *old(self)
                    }
                    &&& action == SendAction::StartCall ==> final(tab).address.spec_request_state()
                        == RequestState::SendInProgress
                    &&& action != SendAction::StartCall ==> final(tab).address == old(tab).address
                    &&& final(tab).address.wf()
                    &&& final(tab).address.spec_text() == old(tab).address.spec_text()
                    &&& final(tab).method == old(tab).method
                    &&& final(tab).request == old(tab).request
                },
            },
    {
        let json = match request {
            Some(json) => json,
            None => return SendAction::Nothing,
        };
        tab.stream.add_request(json);
        if self.active {
            if tab.method.kind.client_streaming() {
                SendAction::SendOnCall
            } else {
                SendAction::Nothing
            }
        } else if !self.connected {
            SendAction::Nothing
        } else {
            self.active = true;
            tab.address.set_request_state(RequestState::SendInProgress);
            SendAction::StartCall
        }
    }

    /// Whether finishing the requests has a call to finish.
    pub fn finish_send(&self) -> (finish: bool)
        ensures
            finish == self.active,
    {
        self.active
    }

    /// Takes what came back from the call: a response or an error is added
    /// to the history, and an error ends the call; the tab then shows the
    /// session's state.
    pub fn handle_response(&mut self, tab: &mut MethodTabState, event: ResponseEvent)
        requires
            old(tab).address.wf(),
            old(tab).stream.spec_response_count() < usize::MAX,
        ensures
            *final(self) == match event {
                ResponseEvent::Error { .. } => MethodSession { active: false, ..*old(self) },
                _ => *old(self),
            },
            final(tab).address.wf(),
            final(tab).address.spec_request_state() == session_state(*final(self)),
            final(tab).address.spec_text() == old(tab).address.spec_text(),
            final(tab).method == old(tab).method,
            final(tab).request == old(tab).request,
            match event {
                ResponseEvent::Response { body, duration } => {
                    &&& final(tab).stream.spec_items().drop_last().len() == old(tab).stream.spec_items().len()
                    &&& final(tab).stream.spec_items().last().kind == ItemKind::Response
                    &&& final(tab).stream.spec_items().last().body@ == body@
                    &&& final(tab).stream.spec_items().last().duration@ == duration@
                },
                ResponseEvent::Error { text } => {
                    &&& final(tab).stream.spec_items().drop_last().len() == old(tab).stream.spec_items().len()
                    &&& final(tab).stream.spec_items().last().kind == ItemKind::Response
                    &&& final(tab).stream.spec_items().last().body@ == text@
                    &&& final(tab).stream.spec_items().last().duration@ == Seq::<char>::empty()
                },
                ResponseEvent::Finished => final(tab).stream == old(tab).stream,
            },
    {
        match event {
            ResponseEvent::Response { body, duration } => {
                tab.stream.add_response(body, duration);
            },
            ResponseEvent::Error { text } => {
                tab.stream.add_response(text, String::new());
                self.active = false;
            },
            ResponseEvent::Finished => {},
        }
        self.show_state(tab);
    }

    /// Drops the client and the call; the tab shows that nothing is started.
    pub fn disconnect(&mut self, tab: &mut MethodTabState)
        requires
            old(tab).address.wf(),
        ensures
            !final(self).connected && !final(self).active,
            only_state_set(*old(tab), *final(tab), RequestState::NotStarted),
    {
        self.connected = false;
        self.active = false;
        self.show_state(tab);
    }
}

impl OptionsTabState {
    /// Starts checking the default address: the tab shows that it is
    /// connecting, and a connection is made, only when the address is valid.
    pub fn start_connect(&mut self) -> (connect: bool)
        requires
            old(self).default_address.wf(),
        ensures
            connect == old(self).default_address.spec_is_valid(),
            connect ==> final(self).default_address.spec_request_state() == RequestState::ConnectInProgress,
            !connect ==> *final(self) == *old(self),
            final(self).default_address.wf(),
            final(self).default_address.spec_text() == old(self).default_address.spec_text(),
            final(self).service == old(self).service,
            final(self).verify_certs == old(self).verify_certs,
    {
        if !self.default_address.is_valid() {
            return false;
        }
        self.default_address.set_request_state(RequestState::ConnectInProgress);
        true
    }

    /// Takes the outcome of the connection: connected, or failed with the
    /// text of the error.
    pub fn finish_connect(&mut self, result: Result<(), String>)
        requires
            old(self).default_address.wf(),
        ensures
            final(self).default_address.wf(),
            final(self).default_address.spec_text() == old(self).default_address.spec_text(),
            final(self).service == old(self).service,
            final(self).verify_certs == old(self).verify_certs,
            final(self).default_address.spec_request_state() == match result {
                Ok(()) => RequestState::Connected,
                Err(e) => RequestState::ConnectFailed(e),
            },
    {
        match result {
            Ok(()) => self.default_address.set_request_state(RequestState::Connected),
            Err(e) => self.default_address.set_request_state(RequestState::ConnectFailed(e)),
        }
    }

    /// Drops the connection.
    pub fn disconnect(&mut self)
        requires
            old(self).default_address.wf(),
        ensures
            final(self).default_address.wf(),
            final(self).default_address.spec_request_state() == RequestState::NotStarted,
            final(self).default_address.spec_text() == old(self).default_address.spec_text(),
            final(self).service == old(self).service,
            final(self).verify_certs == old(self).verify_certs,
    {
        self.default_address.set_request_state(RequestState::NotStarted);
    }
}

/// The options an options tab shows changed between two of its states: the
/// valid address, or the certificate setting. The new options are then handed
/// to the service.
pub fn options_changed(before: &OptionsTabState, after: &OptionsTabState) -> (changed: bool)
    ensures
        changed == (valid_address(before.default_address) != valid_address(after.default_address)
            || before.verify_certs != after.verify_certs),
{
    let a = if before.default_address.is_valid() {
        Some(before.default_address.text())
    } else {
        None
    };
    let b = if after.default_address.is_valid() {
        Some(after.default_address.text())
    } else {
        None
    };
    let same_address = match (a, b) {
        (Some(x), Some(y)) => str_eq(x, y),
        (None, None) => true,
        _ => false,
    };
    !same_address || before.verify_certs != after.verify_certs
}

/// The text of an address box when it is a valid URI.
pub open spec fn valid_address(a: AddressState) -> Option<Seq<char>> {
    if a.spec_is_valid() {
        Some(a.spec_text())
    } else {
        None
    }
}

/// Whether two texts are equal.
fn str_eq(a: &str, b: &str) -> (res: bool)
    ensures
        res == (a@ == b@),
{
    a.to_owned() == b.to_owned()
}

} // verus!
