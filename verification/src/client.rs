//! The connection a tab keeps to a server: which address it is for, and
//! whether it is ready, being made, or failed.
use vstd::prelude::*;

verus! {

/// What `http::Uri` makes of two texts: whether the two parsed URIs are
/// equal by `==`, or nothing where either text does not parse.
pub uninterp spec fn http_uri_eq(a: Seq<char>, b: Seq<char>) -> Option<bool>;

/// Parses the two texts with `http::Uri::from_str` and compares the URIs with
/// `==`. The contract claims that the result is the named result of the two
/// texts, and that a text that parses is the same URI as itself (`Uri`'s
/// `==` compares the parts of the two URIs).
#[verifier::external_body]
fn parsed_uri_eq(a: &str, b: &str) -> (res: Option<bool>)
    ensures
        res == http_uri_eq(a@, b@),
        a@ == b@ ==> (res matches Some(r) ==> r),
{
    match (a.parse::<http::Uri>(), b.parse::<http::Uri>()) {
        (Ok(x), Ok(y)) => Some(x == y),
        _ => None,
    }
}

/// Whether two addresses name the same URI: as `http::Uri` values where both
/// parse, else as texts.
pub open spec fn spec_same_uri(a: Seq<char>, b: Seq<char>) -> bool {
    match http_uri_eq(a, b) {
        Some(r) => r,
        None => a == b,
    }
}

/// Whether two addresses name the same URI: as `http::Uri` values where both
/// parse, else as texts.
pub fn same_uri(a: &str, b: &str) -> (res: bool)
    ensures
        res == spec_same_uri(a@, b@),
        a@ == b@ ==> res,
{
    match parsed_uri_eq(a, b) {
        Some(r) => r,
        None => a.to_owned() == b.to_owned(),
    }
}

/// The connection of a tab: `C` is a connected client and `R` the pending
/// result of a connection being made.
pub enum ClientState<C, R> {
    NotConnected,
    ConnectFailed,
    ConnectInProgress { uri: String, receiver: R },
    Connected { uri: String, client: C },
}

/// What a request for a client to a URI needs done.
#[derive(Debug, Clone, Copy, PartialEq, Eq, Structural)]
pub enum ClientAction {
    /// The client connected to that URI can be used.
    UseClient,
    /// A connection to that URI is being made: wait for it.
    AwaitPending,
    /// A new connection must be made; its pending result is then handed to
    /// `start_connect`.
    Connect,
}

impl<C, R> ClientState<C, R> {
    /// What a request for a client to `uri` needs done in this state.
    pub open spec fn spec_action(&self, uri: Seq<char>) -> ClientAction {
        match self {
            ClientState::Connected { uri: prev, .. } => if spec_same_uri(prev@, uri) {
                ClientAction::UseClient
            } else {
                ClientAction::Connect
            },
            ClientState::ConnectInProgress { uri: prev, .. } => if spec_same_uri(prev@, uri) {
                ClientAction::AwaitPending
            } else {
                ClientAction::Connect
            },
            _ => ClientAction::Connect,
        }
    }

    /// No connection.
    pub fn new() -> (res: Self)
        ensures
            res is NotConnected,
    {
        ClientState::NotConnected
    }

    /// Decides how a client for `uri` is had: the connected client when it is
    /// for that URI, the pending connection when one to that URI is being
    /// made, else a new connection.
    pub fn get_action(&self, uri: &str) -> (res: ClientAction)
        ensures
            res == self.spec_action(uri@),
            self matches ClientState::Connected { uri: prev, .. } && prev@ == uri@ ==> res
                == ClientAction::UseClient,
            self matches ClientState::ConnectInProgress { uri: prev, .. } && prev@ == uri@ ==> res
                == ClientAction::AwaitPending,
    {
        match self {
            ClientState::Connected { uri: prev, .. } => if same_uri(prev.as_str(), uri) {
                ClientAction::UseClient
            } else {
                ClientAction::Connect
            },
            ClientState::ConnectInProgress { uri: prev, .. } => if same_uri(prev.as_str(), uri) {
                ClientAction::AwaitPending
            } else {
                ClientAction::Connect
            },
            _ => ClientAction::Connect,
        }
    }

    /// Records that a connection to `uri` is being made, whose result
    /// `receiver` will give.
    pub fn start_connect(&mut self, uri: String, receiver: R)
        ensures
            *final(self) == (ClientState::<C, R>::ConnectInProgress { uri, receiver }),
    {
        *self = ClientState::ConnectInProgress { uri, receiver };
    }

    /// Records the result of the connection to `uri`. It has an effect only
    /// while that connection is the one being made: a client makes the state
    /// connected, an error makes it failed.
    pub fn set<E>(&mut self, uri: &str, result: Result<C, E>)
        ensures
            match *old(self) {
                ClientState::ConnectInProgress { uri: prev, .. } => if spec_same_uri(prev@, uri@) {
                    match result {
                        Ok(client) => *final(self) matches ClientState::Connected { uri: u, client: c }
                            && u@ == uri@ && c == client,
                        Err(_) => *final(self) is ConnectFailed,
                    }
                } else {
                    *final(self) == *old(self)
                },
                _ => *final(self) == *old(self),
            },
            *old(self) matches ClientState::ConnectInProgress { uri: prev, .. } && prev@ == uri@
                ==> match result {
                Ok(client) => *final(self) matches ClientState::Connected { uri: u, client: c } && u@
                    == uri@ && c == client,
                Err(_) => *final(self) is ConnectFailed,
            },
    {
        let in_progress = match self {
            ClientState::ConnectInProgress { uri: prev, .. } => same_uri(prev.as_str(), uri),
            _ => false,
        };
        if in_progress {
            *self = match result {
                Ok(client) => ClientState::Connected { uri: uri.to_string(), client },
                Err(_) => ClientState::ConnectFailed,
            };
        }
    }

    /// Drops any connection.
    pub fn reset(&mut self)
        ensures
            *final(self) is NotConnected,
    {
        *self = ClientState::NotConnected;
    }
}

} // verus!
