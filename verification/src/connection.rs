//! The connection a tab has to a server.
use vstd::prelude::*;

use std::sync::Arc;

use crate::address::Address;

verus! {

/// A connection made to an address, with or without TLS. The client object
/// that talks to the server is kept beside it by the application.
#[derive(Debug)]
pub struct Connection {
    pub address: Arc<Address>,
    pub tls: bool,
}

/// Whether a connection was made.
#[derive(Debug)]
pub enum ConnectionState {
    Uninit,
    Connected(Connection),
}

impl ConnectionState {
    /// No connection yet.
    pub fn new() -> (res: ConnectionState)
        ensures
            res is Uninit,
    {
        ConnectionState::Uninit
    }

    /// Records a connection made to `address`.
    pub fn connect(&mut self, address: Arc<Address>, tls: bool)
        ensures
            *final(self) matches ConnectionState::Connected(c) && c.address == address && c.tls == tls,
    {
        *self = ConnectionState::Connected(Connection { address, tls });
    }
}

impl Default for ConnectionState {
    fn default() -> (res: ConnectionState)
        ensures
            res is Uninit,
    {
        ConnectionState::new()
    }
}

} // verus!
