//! Requests sent and responses received on a call.
use vstd::prelude::*;

use crate::json::JsonValue;
use crate::method_kind::MethodKind;

verus! {

/// A point in time, as the standard library's monotonic clock gives it.
#[verifier::external_type_specification]
#[verifier::external_body]
pub struct ExInstant(std::time::Instant);

/// Reads the clock with `std::time::Instant::now`; nothing is claimed of the
/// time read.
#[verifier::external_body]
fn now() -> std::time::Instant {
    std::time::Instant::now()
}

/// A request message, as its JSON value.
#[derive(Debug)]
pub struct Request {
    pub body: JsonValue,
}

/// A response message, as its JSON value, and when it arrived.
#[derive(Debug)]
pub struct Response {
    pub body: JsonValue,
    pub timestamp: std::time::Instant,
}

impl Request {
    /// The message.
    pub fn body(&self) -> (res: &JsonValue)
        ensures
            *res == self.body,
    {
        &self.body
    }

    /// The message, to change it in place.
    pub fn body_mut(&mut self) -> (res: &mut JsonValue)
        ensures
            *res == old(self).body,
            final(self).body == *final(res),
    {
        &mut self.body
    }
}

impl Response {
    /// A response with the given message, stamped with the time now.
    pub fn new(body: JsonValue) -> (res: Response)
        ensures
            res.body == body,
    {
        Response { body, timestamp: now() }
    }
}

/// How a call of a method of the given kind is carried out: whether later
/// requests go to it over a channel (the method streams requests), and
/// whether its responses come as a stream (the method streams responses).
#[derive(Debug, Clone, Copy, PartialEq, Eq, Structural)]
pub struct CallPlan {
    pub request_channel: bool,
    pub response_stream: bool,
}

/// The plan of a call of a method of kind `kind`.
pub fn plan_call(kind: MethodKind) -> (plan: CallPlan)
    ensures
        plan.request_channel == kind.spec_client_streaming(),
        plan.response_stream == kind.spec_server_streaming(),
{
    CallPlan { request_channel: kind.client_streaming(), response_stream: kind.server_streaming() }
}

/// The nanoseconds from `earlier` to `later` with
/// `Instant::checked_duration_since`, or nothing when `later` is earlier.
/// Nothing is claimed of the value, which depends on the clock.
#[verifier::external_body]
fn nanos_between(later: &std::time::Instant, earlier: &std::time::Instant) -> Option<u128> {
    later.checked_duration_since(*earlier).map(|d| d.as_nanos())
}

/// A call in progress: the channel later requests go to, if the method
/// streams requests, and when the last request was sent, until a response
/// takes it to measure how long it took.
pub struct Call<S> {
    request_sender: Option<S>,
    last_request: Option<std::time::Instant>,
}

impl<S> Call<S> {
    pub closed spec fn spec_has_sender(&self) -> bool {
        self.request_sender is Some
    }

    pub closed spec fn spec_sender(&self) -> Option<S> {
        self.request_sender
    }

    pub closed spec fn spec_timed(&self) -> bool {
        self.last_request is Some
    }

    /// A call just started with its first request, with the channel for
    /// later requests if there is one.
    pub fn new(request_sender: Option<S>) -> (res: Call<S>)
        ensures
            res.spec_sender() == request_sender,
            res.spec_has_sender() == request_sender is Some,
            res.spec_timed(),
    {
        Call { request_sender, last_request: Some(now()) }
    }

    /// A call of a method carried out by `plan`, just started with its first
    /// request: it keeps `sender` for later requests exactly when the plan
    /// sends them over a channel.
    pub fn from_plan(plan: CallPlan, sender: S) -> (res: Call<S>)
        ensures
            res.spec_has_sender() == plan.request_channel,
            plan.request_channel ==> res.spec_sender() == Some(sender),
            res.spec_timed(),
    {
        if plan.request_channel {
            Call::new(Some(sender))
        } else {
            Call::new(None)
        }
    }

    /// Whether later requests can be sent on this call.
    pub fn has_sender(&self) -> (b: bool)
        ensures
            b == self.spec_has_sender(),
    {
        self.request_sender.is_some()
    }

    /// The channel to send another request on; the time of sending is kept.
    pub fn prepare_send(&mut self) -> (sender: &S)
        requires
            old(self).spec_has_sender(),
        ensures
            final(self).spec_sender() == old(self).spec_sender(),
            final(self).spec_timed(),
            Some(*sender) == old(self).spec_sender(),
    {
        self.last_request = Some(now());
        self.request_sender.as_ref().unwrap()
    }

    /// How long the response that arrived at `received` took since the last
    /// request, in nanoseconds; a request is timed once, so later responses
    /// get nothing.
    pub fn duration(&mut self, received: &std::time::Instant) -> (res: Option<u128>)
        ensures
            !final(self).spec_timed(),
            final(self).spec_sender() == old(self).spec_sender(),
            !old(self).spec_timed() ==> res is None,
    {
        match self.last_request.take() {
            Some(sent) => nanos_between(received, &sent),
            None => None,
        }
    }
}

} // verus!
