//! The two buttons beside the address box of a method tab: what they say,
//! when they are enabled, and what a click on them asks for.
use vstd::prelude::*;

use crate::request::RequestState;
use crate::tab::MethodTabState;

verus! {

/// What a click on a button of the address bar asks for.
#[derive(Debug, Clone, Copy, PartialEq, Eq, Structural)]
pub enum BarCommand {
    Connect,
    Send,
    Finish,
    Disconnect,
}

impl MethodTabState {
    pub open spec fn spec_send_label(&self) -> Seq<char> {
        match self.address.spec_request_state() {
            RequestState::NotStarted | RequestState::ConnectFailed(_) => "Connect"@,
            RequestState::ConnectInProgress => "Connecting..."@,
            RequestState::Connected | RequestState::AuthorizationHookFailed(_) => "Send"@,
            RequestState::SendInProgress => if self.method.kind.spec_client_streaming() {
                "Send"@
            } else {
                "Sending..."@
            },
            RequestState::AuthorizationHookInProgress => "Authorizing..."@,
        }
    }

    /// The text of the send button.
    pub fn send_label(&self) -> (s: String)
        ensures
            s@ == self.spec_send_label(),
    {
        match self.address.request_state() {
            RequestState::NotStarted | RequestState::ConnectFailed(_) => "Connect".to_owned(),
            RequestState::ConnectInProgress => "Connecting...".to_owned(),
            RequestState::Connected | RequestState::AuthorizationHookFailed(_) => "Send".to_owned(),
            RequestState::SendInProgress => if self.method.kind.client_streaming() {
                "Send".to_owned()
            } else {
                "Sending...".to_owned()
            },
            RequestState::AuthorizationHookInProgress => "Authorizing...".to_owned(),
        }
    }

    /// The send button is enabled when the tab can send or connect.
    pub fn send_enabled(&self) -> (b: bool)
        ensures
            b == (self.spec_can_send() || self.spec_can_connect()),
    {
        self.can_send() || self.can_connect()
    }

    /// What a click on the enabled send button asks for: a connection before
    /// there is one, else a request; the tab can always do what is asked.
    pub fn send_command(&self) -> (cmd: BarCommand)
        requires
            self.spec_can_send() || self.spec_can_connect(),
        ensures
            cmd == BarCommand::Connect || cmd == BarCommand::Send,
            cmd == BarCommand::Connect <==> self.address.spec_request_state().spec_allows_connect(),
            cmd == BarCommand::Connect ==> self.spec_can_connect(),
            cmd == BarCommand::Send ==> self.spec_can_send(),
    {
        match self.address.request_state() {
            RequestState::NotStarted | RequestState::ConnectFailed(_) => BarCommand::Connect,
            _ => BarCommand::Send,
        }
    }

    pub open spec fn spec_finish_label(&self) -> Seq<char> {
        if self.address.spec_request_state() is SendInProgress && self.method.kind.spec_client_streaming() {
            "Finish"@
        } else {
            "Disconnect"@
        }
    }

    /// The text of the finish button.
    pub fn finish_label(&self) -> (s: String)
        ensures
            s@ == self.spec_finish_label(),
    {
        match self.address.request_state() {
            RequestState::SendInProgress => if self.method.kind.client_streaming() {
                "Finish".to_owned()
            } else {
                "Disconnect".to_owned()
            },
            _ => "Disconnect".to_owned(),
        }
    }

    /// The finish button is enabled when the tab can finish its requests or
    /// disconnect.
    pub fn finish_enabled(&self) -> (b: bool)
        ensures
            b == (self.spec_can_finish() || self.spec_can_disconnect()),
    {
        self.can_finish() || self.can_disconnect()
    }

    /// What a click on the enabled finish button asks for: the end of the
    /// requests of a streaming call, else a disconnection; the tab can always
    /// do what is asked.
    pub fn finish_command(&self) -> (cmd: BarCommand)
        requires
            self.spec_can_finish() || self.spec_can_disconnect(),
        ensures
            cmd == BarCommand::Finish || cmd == BarCommand::Disconnect,
            cmd == BarCommand::Finish <==> self.spec_can_finish(),
            cmd == BarCommand::Disconnect ==> self.spec_can_disconnect(),
    {
        match self.address.request_state() {
            RequestState::SendInProgress => if self.method.kind.client_streaming() {
                BarCommand::Finish
            } else {
                BarCommand::Disconnect
            },
            _ => BarCommand::Disconnect,
        }
    }
}

/// A method tab sends only a valid request to a valid address: where it can
/// send, its request and address are valid and it is connected, or, for a
/// call that streams requests, sending or past a failed authorization hook.
/// A tab whose request is not valid cannot send, and once connected its send
/// button is disabled; a connected tab with a valid request and address can
/// send.
pub proof fn law_send_needs_valid_request(t: MethodTabState)
    ensures
        t.spec_can_send() ==> t.request_valid && t.address.spec_is_valid(),
        t.spec_can_send() ==> (t.address.spec_request_state() is Connected || (t.method.kind.spec_client_streaming() && (
        t.address.spec_request_state() is SendInProgress || t.address.spec_request_state() is AuthorizationHookFailed))),
        !t.request_valid ==> !t.spec_can_send(),
        !t.request_valid && t.address.spec_request_state() is Connected ==> !(t.spec_can_send() || t.spec_can_connect()),
        t.request_valid && t.address.spec_is_valid() && t.address.spec_request_state() is Connected ==> t.spec_can_send(),
{
}

/// What the buttons of a method tab offer fits its connection: it connects
/// with a valid address only when not connected (never started, or the last
/// attempt failed), and then cannot send; it finishes only the requests of a
/// streaming call being sent; it disconnects exactly when a connection exists
/// or is being made.
pub proof fn law_buttons_follow_connection(t: MethodTabState)
    ensures
        t.spec_can_connect() <==> t.address.spec_is_valid() && (t.address.spec_request_state() is NotStarted
            || t.address.spec_request_state() is ConnectFailed),
        !(t.spec_can_send() && t.spec_can_connect()),
        t.spec_can_finish() <==> t.address.spec_request_state() is SendInProgress && t.method.kind.spec_client_streaming(),
        t.spec_can_disconnect() <==> !(t.address.spec_request_state() is NotStarted
            || t.address.spec_request_state() is ConnectFailed),
        t.spec_can_finish() ==> t.spec_can_disconnect(),
{
}

} // verus!
