//! Server addresses typed as `host:port`, and the address box that holds one.
use vstd::prelude::*;

use std::sync::Arc;

verus! {

/// A server's host and port.
#[derive(Debug, Clone)]
pub struct Address {
    pub host: String,
    pub port: u16,
}

/// An ASCII decimal digit.
pub open spec fn is_digit(c: char) -> bool {
    '0' <= c <= '9'
}

/// The number that a run of decimal digits spells.
pub open spec fn digits_value(s: Seq<char>) -> nat
    decreases s.len(),
{
    if s.len() == 0 {
        0
    } else {
        digits_value(s.drop_last()) * 10 + (s.last() as nat - 48) as nat
    }
}

/// The text after an optional leading `+`.
pub open spec fn parse_digits(s: Seq<char>) -> Seq<char> {
    if s.len() > 0 && s[0] == '+' {
        s.skip(1)
    } else {
        s
    }
}

/// What `str::parse::<u16>` makes of a text: decimal digits, at least one,
/// after an optional `+`, with a value that fits.
pub open spec fn parse_u16(s: Seq<char>) -> Option<u16> {
    let d = parse_digits(s);
    if d.len() > 0 && (forall|i: int| 0 <= i < d.len() ==> #[trigger] is_digit(d[i])) && digits_value(d) <= u16::MAX {
        Some(digits_value(d) as u16)
    } else {
        None
    }
}

/// The index of the first `c` in `s`.
pub open spec fn first_index(s: Seq<char>, c: char) -> Option<int>
    decreases s.len(),
{
    if s.len() == 0 {
        None
    } else if s[0] == c {
        Some(0)
    } else {
        match first_index(s.skip(1), c) {
            Some(i) => Some(i + 1),
            None => None,
        }
    }
}

/// The host and port of a `host:port` text: what comes before the first
/// colon, and what comes after it read as a port.
pub open spec fn spec_split_address(s: Seq<char>) -> Option<(Seq<char>, u16)> {
    match first_index(s, ':') {
        Some(i) => match parse_u16(s.skip(i + 1)) {
            Some(port) => Some((s.take(i), port)),
            None => None,
        },
        None => None,
    }
}

proof fn lemma_first_index(s: Seq<char>, c: char)
    ensures
        match first_index(s, c) {
            Some(i) => 0 <= i < s.len() && s[i] == c && forall|j: int| 0 <= j < i ==> #[trigger] s[j] != c,
            None => forall|j: int| 0 <= j < s.len() ==> #[trigger] s[j] != c,
        },
    decreases s.len(),
{
    if s.len() > 0 {
        let t = s.skip(1);
        lemma_first_index(t, c);
        assert forall|j: int| 1 <= j < s.len() implies s[j] == #[trigger] t[j - 1] by {}
        if s[0] != c {
            match first_index(t, c) {
                Some(i) => {
                    assert(s[i + 1] == t[i]);
                    assert forall|j: int| 0 <= j < i + 1 implies #[trigger] s[j] != c by {
                        if j > 0 {
                            assert(s[j] == t[j - 1]);
                        }
                    }
                },
                None => {
                    assert forall|j: int| 0 <= j < s.len() implies #[trigger] s[j] != c by {
                        if j > 0 {
                            assert(s[j] == t[j - 1]);
                        }
                    }
                },
            }
        }
    }
}

proof fn lemma_parse_not_digit(s: Seq<char>, k: int)
    requires
        0 <= k < parse_digits(s).len(),
        !is_digit(parse_digits(s)[k]),
    ensures
        parse_u16(s) is None,
{
}

proof fn lemma_digits_prefix(d: Seq<char>, k: int)
    requires
        0 <= k <= d.len(),
        forall|i: int| 0 <= i < d.len() ==> #[trigger] is_digit(d[i]),
    ensures
        digits_value(d.take(k)) <= digits_value(d),
    decreases d.len(),
{
    if k < d.len() {
        let init = d.drop_last();
        assert forall|i: int| 0 <= i < init.len() implies #[trigger] is_digit(init[i]) by {
            assert(init[i] == d[i]);
        }
        lemma_digits_prefix(init, k);
        assert(init.take(k) == d.take(k));
    } else {
        assert(d.take(k) == d);
    }
}

/// Reads a port number the way `str::parse::<u16>` does.
pub fn parse_port(s: &str) -> (res: Option<u16>)
    ensures
        res == parse_u16(s@),
{
    let n = s.unicode_len();
    let mut start: usize = 0;
    if n > 0 && s.get_char(0) == '+' {
        start = 1;
    }
    let ghost d = parse_digits(s@);
    proof {
        assert(d == s@.subrange(start as int, n as int));
    }
    if start == n {
        return None;
    }
    let mut value: u32 = 0;
    let mut i: usize = start;
    while i < n
        invariant
            n == s@.len(),
            start <= i <= n,
            d == s@.subrange(start as int, n as int),
            d == parse_digits(s@),
            value == digits_value(s@.subrange(start as int, i as int)),
            value <= u16::MAX,
            forall|j: int| start <= j < i ==> #[trigger] is_digit(s@[j]),
        decreases n - i,
    {
        let c = s.get_char(i);
        if !('0' <= c && c <= '9') {
            proof {
                assert(d[i - start] == c);
                lemma_parse_not_digit(s@, i - start);
            }
            return None;
        }
        let ghost prefix = s@.subrange(start as int, i + 1);
        proof {
            assert(prefix.drop_last() == s@.subrange(start as int, i as int));
            assert(prefix.last() == c);
        }
        value = value * 10 + (c as u32 - 48);
        proof {
            assert(value == digits_value(prefix));
        }
        if value > 65535 {
            proof {
                if forall|j: int| 0 <= j < d.len() ==> #[trigger] is_digit(d[j]) {
                    lemma_digits_prefix(d, i + 1 - start);
                    assert(d.take(i + 1 - start) == prefix);
                }
                assert(parse_u16(s@) is None);
            }
            return None;
        }
        i = i + 1;
    }
    proof {
        assert(s@.subrange(start as int, n as int) == d);
        assert forall|j: int| 0 <= j < d.len() implies #[trigger] is_digit(d[j]) by {
            assert(d[j] == s@[start + j]);
        }
    }
    Some(value as u16)
}

/// Splits a `host:port` text into its host and port.
pub fn split_address(addr: &str) -> (res: Option<(String, u16)>)
    ensures
        match res {
            Some((host, port)) => spec_split_address(addr@) == Some((host@, port)),
            None => spec_split_address(addr@) is None,
        },
{
    let n = addr.unicode_len();
    let mut i: usize = 0;
    while i < n
        invariant
            n == addr@.len(),
            i <= n,
            forall|j: int| 0 <= j < i ==> #[trigger] addr@[j] != ':',
        decreases n - i,
    {
        if addr.get_char(i) == ':' {
            proof {
                lemma_first_index(addr@, ':');
                match first_index(addr@, ':') {
                    Some(k) => {
                        if k < i {
                            assert(addr@[k] != ':');
                        } else if k > i {
                            assert(addr@[i as int] == ':');
                        }
                    },
                    None => {
                        assert(addr@[i as int] == ':');
                    },
                }
            }
            let host = addr.substring_char(0, i).to_owned();
            let port = parse_port(addr.substring_char(i + 1, n));
            proof {
                assert(addr@.subrange(0, i as int) == addr@.take(i as int));
                assert(addr@.subrange(i + 1, n as int) == addr@.skip(i + 1));
            }
            return match port {
                Some(p) => Some((host, p)),
                None => None,
            };
        }
        i = i + 1;
    }
    proof {
        lemma_first_index(addr@, ':');
        match first_index(addr@, ':') {
            Some(k) => {
                assert(addr@[k] != ':');
            },
            None => {},
        }
    }
    None
}

/// Reads an address typed as `host:port`.
pub fn parse_address(addr: &str) -> (res: Option<Arc<Address>>)
    ensures
        match res {
            Some(a) => spec_split_address(addr@) == Some((a.host@, a.port)),
            None => spec_split_address(addr@) is None,
        },
{
    match split_address(addr) {
        Some((host, port)) => Some(Arc::new(Address { host, port })),
        None => None,
    }
}

/// The address box: the text typed, the address read from it, and whether
/// TLS is asked for.
#[derive(Debug)]
pub struct AddressState {
    pub raw_address: String,
    pub address: Option<Arc<Address>>,
    pub tls: bool,
}

impl AddressState {
    /// The address read from the text is the one the text spells.
    pub open spec fn wf(&self) -> bool {
        match self.address {
            Some(a) => spec_split_address(self.raw_address@) == Some((a.host@, a.port)),
            None => spec_split_address(self.raw_address@) is None,
        }
    }

    /// An empty box without TLS.
    pub fn new() -> (res: AddressState)
        ensures
            res.wf(),
            res.raw_address@ == Seq::<char>::empty(),
            res.address is None,
            !res.tls,
    {
        let res = AddressState { raw_address: String::new(), address: None, tls: false };
        proof {
            assert(first_index(Seq::<char>::empty(), ':') is None);
        }
        res
    }

    /// Whether the text spells an address.
    pub fn is_valid(&self) -> (res: bool)
        requires
            self.wf(),
        ensures
            res == (spec_split_address(self.raw_address@) is Some),
    {
        self.address.is_some()
    }

    /// Replaces the text, and reads the address from it again.
    pub fn set_raw_address(&mut self, raw: String)
        ensures
            final(self).wf(),
            final(self).raw_address@ == raw@,
            final(self).tls == old(self).tls,
    {
        self.address = parse_address(raw.as_str());
        self.raw_address = raw;
    }
}

} // verus!
