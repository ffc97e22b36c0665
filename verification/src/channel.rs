//! The channel box of the connection pane: an address text, the host and
//! port read from it, and the TLS switch.
use vstd::prelude::*;

use crate::address::{spec_split_address, split_address};

verus! {

/// The text typed, the host and port read from it, and whether TLS is asked
/// for.
#[derive(Debug)]
pub struct ChannelState {
    pub raw_address: String,
    pub address: Option<(String, u16)>,
    pub tls: bool,
}

/// Reads a `host:port` text into its host and port.
pub fn parse_address(addr: &str) -> (res: Option<(String, u16)>)
    ensures
        match res {
            Some((host, port)) => spec_split_address(addr@) == Some((host@, port)),
            None => spec_split_address(addr@) is None,
        },
{
    split_address(addr)
}

impl ChannelState {
    /// The host and port are the ones the text spells.
    pub open spec fn wf(&self) -> bool {
        match self.address {
            Some((host, port)) => spec_split_address(self.raw_address@) == Some((host@, port)),
            None => spec_split_address(self.raw_address@) is None,
        }
    }

    /// An empty channel box without TLS.
    pub fn new() -> (res: ChannelState)
        ensures
            res.wf(),
            res.raw_address@ == Seq::<char>::empty(),
            res.address is None,
            !res.tls,
    {
        let res = ChannelState { raw_address: String::new(), address: None, tls: false };
        proof {
            assert(crate::address::first_index(Seq::<char>::empty(), ':') is None);
        }
        res
    }

    /// Whether the text spells a host and port.
    pub fn is_valid(&self) -> (res: bool)
        requires
            self.wf(),
        ensures
            res == (spec_split_address(self.raw_address@) is Some),
    {
        self.address.is_some()
    }

    /// Replaces the text, and reads the host and port from it again.
    pub fn set_raw_address(&mut self, raw: String)
        ensures
            final(self).wf(),
            final(self).raw_address@ == raw@,
            final(self).tls == old(self).tls,
    {
        self.address = parse_address(raw.as_str());
        self.raw_address = raw;
    }
}

} // verus!
