use vstd::prelude::*;

verus! {

/// The streaming shape of a gRPC method.
#[derive(Debug, Clone, Copy, PartialEq, Eq, Structural)]
pub enum MethodKind {
    Unary,
    ClientStreaming,
    ServerStreaming,
    Streaming,
}

impl MethodKind {
    /// Whether the server answers with a stream of messages.
    pub open spec fn spec_server_streaming(self) -> bool {
        self is ServerStreaming || self is Streaming
    }

    /// Whether the client sends a stream of messages.
    pub open spec fn spec_client_streaming(self) -> bool {
        self is ClientStreaming || self is Streaming
    }

    /// The kind of a method from its two streaming flags.
    pub fn from_streaming(client_streaming: bool, server_streaming: bool) -> (kind: MethodKind)
        ensures
            kind.spec_client_streaming() == client_streaming,
            kind.spec_server_streaming() == server_streaming,
    {
        match (client_streaming, server_streaming) {
            (false, false) => MethodKind::Unary,
            (true, false) => MethodKind::ClientStreaming,
            (false, true) => MethodKind::ServerStreaming,
            (true, true) => MethodKind::Streaming,
        }
    }

    pub fn server_streaming(&self) -> (b: bool)
        ensures
            b == self.spec_server_streaming(),
    {
        match *self {
            MethodKind::Unary | MethodKind::ClientStreaming => false,
            MethodKind::ServerStreaming | MethodKind::Streaming => true,
        }
    }

    pub fn client_streaming(&self) -> (b: bool)
        ensures
            b == self.spec_client_streaming(),
    {
        match *self {
            MethodKind::Unary | MethodKind::ServerStreaming => false,
            MethodKind::ClientStreaming | MethodKind::Streaming => true,
        }
    }
}

} // verus!
