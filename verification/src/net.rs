//! IP addresses as plain values, the per-IP connection key, connection limits and
//! the classification of accept errors.
use vstd::prelude::*;
use std::time::Duration;

verus! {

/// An IP address: IPv4 as its 32-bit value, IPv6 as its 128-bit value (network
/// byte order, most significant first).
#[derive(Debug, Clone, Copy, PartialEq, Eq, Structural, Hash)]
pub enum IpAddress {
    V4(u32),
    V6(u128),
}

/// The IPv6 value of `::ffff:0.0.0.0`, the prefix of IPv4-mapped addresses.
pub const IPV4_MAPPED_PREFIX: u128 = 0xffff_0000_0000u128;

/// Whether an IPv6 value is IPv4-mapped (`::ffff:a.b.c.d`).
pub open spec fn is_ipv4_mapped(v: u128) -> bool {
    v >> 32u128 == 0xffffu128
}

/// The canonical form of an address (`IpAddr::to_canonical`): an IPv4-mapped IPv6
/// address becomes the IPv4 address it carries; every other address is unchanged.
pub open spec fn canonical(ip: IpAddress) -> IpAddress {
    match ip {
        IpAddress::V4(_) => ip,
        IpAddress::V6(v) => if is_ipv4_mapped(v) {
            IpAddress::V4((v & 0xffff_ffffu128) as u32)
        } else {
            ip
        },
    }
}

/// IPv6 loopback `::1`.
pub const IPV6_LOOPBACK: u128 = 1u128;

/// Mask keeping the high 64 bits (the `/64` network prefix) of an IPv6 value.
pub const IPV6_PREFIX_MASK: u128 = 0xffff_ffff_ffff_ffff_0000_0000_0000_0000u128;

impl IpAddress {
    /// IPv4 `127.0.0.1`.
    pub open spec fn localhost_v4() -> IpAddress {
        IpAddress::V4(0x7f00_0001u32)
    }

    /// The canonical form of this address (`IpAddr::to_canonical`).
    pub fn to_canonical(&self) -> (r: IpAddress)
        ensures
            r == canonical(*self),
    {
        match *self {
            IpAddress::V4(_) => *self,
            IpAddress::V6(v) => {
                if v >> 32u128 == 0xffffu128 {
                    IpAddress::V4((v & 0xffff_ffffu128) as u32)
                } else {
                    *self
                }
            },
        }
    }

    /// Builds an IPv4 address from its four octets.
    pub fn v4(a: u8, b: u8, c: u8, d: u8) -> (r: IpAddress)
        ensures
            r == IpAddress::V4(((a as u32) * 0x100_0000 + (b as u32) * 0x1_0000 + (c as u32) * 0x100
                + (d as u32)) as u32),
    {
        IpAddress::V4((a as u32) * 0x100_0000 + (b as u32) * 0x1_0000 + (c as u32) * 0x100 + (d as u32))
    }
}

/// The key under which accepted connections are counted per client: IPv4 as is,
/// an IPv4-mapped IPv6 address as the IPv4 address it carries, the IPv6 loopback as
/// is, and any other IPv6 address reduced to its `/64` network prefix (one host
/// commonly holds a whole `/64`, so counting full addresses would let it evade
/// the cap).
pub open spec fn rate_limit_key(ip: IpAddress) -> IpAddress {
    match ip {
        IpAddress::V4(_) => ip,
        IpAddress::V6(v) => if is_ipv4_mapped(v) {
            IpAddress::V4((v & 0xffff_ffffu128) as u32)
        } else if v == IPV6_LOOPBACK {
            ip
        } else {
            IpAddress::V6(v & IPV6_PREFIX_MASK)
        },
    }
}

/// The per-IP connection key of a peer address (see [`rate_limit_key`]).
pub fn accept_rate_limit_key(ip: IpAddress) -> (r: IpAddress)
    ensures
        r == rate_limit_key(ip),
{
    match ip {
        IpAddress::V4(_) => ip,
        IpAddress::V6(v) => {
            if v >> 32u128 == 0xffffu128 {
                return IpAddress::V4((v & 0xffff_ffffu128) as u32);
            }
            if v == IPV6_LOOPBACK {
                return ip;
            }
            IpAddress::V6(v & IPV6_PREFIX_MASK)
        },
    }
}

/// Two IPv6 addresses (neither IPv4-mapped nor loopback) share a key exactly when
/// they share their `/64` prefix.
pub proof fn lemma_v6_keys_agree_iff_same_prefix(a: u128, b: u128)
    requires
        !is_ipv4_mapped(a),
        !is_ipv4_mapped(b),
        a != IPV6_LOOPBACK,
        b != IPV6_LOOPBACK,
    ensures
        (rate_limit_key(IpAddress::V6(a)) == rate_limit_key(IpAddress::V6(b))) <==> (a
            & IPV6_PREFIX_MASK == b & IPV6_PREFIX_MASK),
{
}

/// The key of an IPv4-mapped address equals the key of the IPv4 address it
/// carries, and distinct mapped addresses keep distinct keys.
pub proof fn lemma_mapped_keys_like_ipv4(v: u32, w: u32)
    ensures
        rate_limit_key(IpAddress::V6(0xffff_0000_0000u128 | (v as u128))) == rate_limit_key(
            IpAddress::V4(v),
        ),
        v != w ==> rate_limit_key(IpAddress::V6(0xffff_0000_0000u128 | (v as u128)))
            != rate_limit_key(IpAddress::V6(0xffff_0000_0000u128 | (w as u128))),
{
    let x: u128 = 0xffff_0000_0000u128 | (v as u128);
    let y: u128 = 0xffff_0000_0000u128 | (w as u128);
    assert(x >> 32u128 == 0xffffu128 && (x & 0xffff_ffffu128) as u32 == v) by (bit_vector)
        requires
            x == 0xffff_0000_0000u128 | (v as u128),
    ;
    assert(y >> 32u128 == 0xffffu128 && (y & 0xffff_ffffu128) as u32 == w) by (bit_vector)
        requires
            y == 0xffff_0000_0000u128 | (w as u128),
    ;
}

/// The key of an address never changes when it is keyed again.
pub proof fn lemma_rate_limit_key_idempotent(ip: IpAddress)
    ensures
        rate_limit_key(rate_limit_key(ip)) == rate_limit_key(ip),
{
    match ip {
        IpAddress::V4(_) => {},
        IpAddress::V6(v) => {
            let m = v & IPV6_PREFIX_MASK;
            assert(!is_ipv4_mapped(v) ==> !is_ipv4_mapped(m) && m & IPV6_PREFIX_MASK == m)
                by (bit_vector)
                requires
                    m == v & 0xffff_ffff_ffff_ffff_0000_0000_0000_0000u128,
            ;
            assert(m != IPV6_LOOPBACK) by (bit_vector)
                requires
                    m == v & 0xffff_ffff_ffff_ffff_0000_0000_0000_0000u128,
            ;
        },
    }
}

/// What `Duration::from_secs` yields for a number of seconds.
pub uninterp spec fn spec_duration_from_secs(secs: u64) -> Duration;

/// A duration of whole seconds (`std::time::Duration::from_secs`), named by
/// [`spec_duration_from_secs`].
#[verifier::external_body]
pub(crate) fn duration_from_secs(secs: u64) -> (r: Duration)
    ensures
        r == spec_duration_from_secs(secs),
{
    Duration::from_secs(secs)
}

/// `Duration` is `Copy`; its `clone` returns the same duration.
pub assume_specification[ <Duration as Clone>::clone ](d: &Duration) -> (r: Duration)
    ensures
        r == *d,
;

/// Connection-level limits of the HTTP server.
#[derive(Debug, Clone)]
pub struct ConnectionLimits {
    /// Time allowed for a client to send its request head.
    pub header_read_timeout: Option<Duration>,
    /// Hard cap on the lifetime of one connection.
    pub max_connection_duration: Option<Duration>,
    /// Global cap on concurrently open connections.
    pub max_connections: usize,
    /// HTTP/2 stream cap per connection; `None` leaves the server default.
    pub max_concurrent_streams: Option<u32>,
    /// Cap on concurrent connections from one client key; `None` disables it.
    pub max_connections_per_ip: Option<usize>,
}

impl Default for ConnectionLimits {
    /// 10 s to send headers, 300 s per connection, 1024 connections, 128 HTTP/2
    /// streams per connection, 64 connections per client.
    fn default() -> (r: Self)
        ensures
            r.header_read_timeout == Some(spec_duration_from_secs(10)),
            r.max_connection_duration == Some(spec_duration_from_secs(300)),
            r.max_connections == 1024,
            r.max_concurrent_streams == Some(128u32),
            r.max_connections_per_ip == Some(64usize),
    {
        ConnectionLimits {
            header_read_timeout: Some(duration_from_secs(10)),
            max_connection_duration: Some(duration_from_secs(300)),
            max_connections: 1024,
            max_concurrent_streams: Some(128),
            max_connections_per_ip: Some(64),
        }
    }
}

/// HTTP/2 keep-alive ping interval, in seconds.
pub const H2_KEEP_ALIVE_INTERVAL_SECS: u64 = 30;
/// HTTP/2 keep-alive ping timeout, in seconds.
pub const H2_KEEP_ALIVE_TIMEOUT_SECS: u64 = 20;

/// The kinds of accept error the server tells apart.
#[derive(Debug, Clone, Copy, PartialEq, Eq, Structural)]
pub enum AcceptErrorKind {
    ConnectionRefused,
    ConnectionAborted,
    ConnectionReset,
    Other,
}

/// Whether an accept error concerns only the one connection (refused, aborted or
/// reset), so that accepting may go on at once rather than after a pause.
pub fn is_connection_error_kind(kind: AcceptErrorKind) -> (r: bool)
    ensures
        r == (kind != AcceptErrorKind::Other),
{
    match kind {
        AcceptErrorKind::Other => false,
        _ => true,
    }
}

/// What the accept loop does after an accept error.
#[derive(Debug, Clone, Copy, PartialEq, Eq, Structural)]
pub enum AcceptRetry {
    /// Accept again at once.
    Immediately,
    /// Log the error and accept again after the given number of seconds.
    AfterBackoff(u64),
}

/// The retry policy of the accept loop: per-connection errors are retried at once,
/// any other error after a one-second pause.
pub fn accept_retry(kind: AcceptErrorKind) -> (r: AcceptRetry)
    ensures
        kind != AcceptErrorKind::Other ==> r == AcceptRetry::Immediately,
        kind == AcceptErrorKind::Other ==> r == AcceptRetry::AfterBackoff(1),
{
    if is_connection_error_kind(kind) {
        AcceptRetry::Immediately
    } else {
        AcceptRetry::AfterBackoff(1)
    }
}


/// Connections open from one client key in a count map (zero when absent).
pub open spec fn open_count(m: Map<IpAddress, nat>, key: IpAddress) -> nat {
    if m.dom().contains(key) {
        m[key]
    } else {
        0
    }
}

/// The count map after one more connection from `key` is admitted.
pub open spec fn after_acquire(m: Map<IpAddress, nat>, key: IpAddress) -> Map<IpAddress, nat> {
    m.insert(key, open_count(m, key) + 1)
}

/// The count map after a connection from `key` closes: a key whose last
/// connection closes is forgotten; closing for a key with none open changes
/// nothing.
pub open spec fn after_release(m: Map<IpAddress, nat>, key: IpAddress) -> Map<IpAddress, nat> {
    if open_count(m, key) == 0 {
        m
    } else if open_count(m, key) == 1 {
        m.remove(key)
    } else {
        m.insert(key, (open_count(m, key) - 1) as nat)
    }
}

/// A count map holds only keys with at least one open connection.
pub open spec fn counts_positive(m: Map<IpAddress, nat>) -> bool {
    forall|k: IpAddress| #[trigger] m.dom().contains(k) ==> m[k] > 0
}

/// Open connections per client key, for the per-client connection cap of the
/// accept loop.
pub struct PerClientConnections {
    max_per_client: usize,
    open: Vec<(IpAddress, usize)>,
    counts: Ghost<Map<IpAddress, nat>>,
}

impl PerClientConnections {
    /// The open connections per client key.
    pub closed spec fn view_counts(&self) -> Map<IpAddress, nat> {
        self.counts@
    }

    /// The cap on connections from one key.
    pub closed spec fn cap(&self) -> usize {
        self.max_per_client
    }

    /// Each key appears once, with its count, and every count is positive.
    pub closed spec fn wf(&self) -> bool {
        &&& forall|i: int, j: int|
            0 <= i < j < self.open@.len() ==> #[trigger] self.open@[i].0 != #[trigger] self.open@[j].0
        &&& forall|i: int|
            0 <= i < self.open@.len() ==> self.counts@.dom().contains(#[trigger] self.open@[i].0)
                && self.counts@[self.open@[i].0] == self.open@[i].1
        &&& forall|k: IpAddress| #[trigger]
            self.counts@.dom().contains(k) ==> exists|i: int|
                0 <= i < self.open@.len() && #[trigger] self.open@[i].0 == k
        &&& counts_positive(self.counts@)
        &&& self.counts@.dom().finite()
    }

    /// No connection open, at most `max_per_client` per key.
    pub fn new(max_per_client: usize) -> (r: Self)
        ensures
            r.wf(),
            r.view_counts() == Map::<IpAddress, nat>::empty(),
            r.cap() == max_per_client,
    {
        PerClientConnections { max_per_client, open: Vec::new(), counts: Ghost(Map::empty()) }
    }

    fn find(&self, key: IpAddress) -> (r: Option<usize>)
        requires
            self.wf(),
        ensures
            match r {
                Some(i) => i < self.open@.len() && self.open@[i as int].0 == key,
                None => !self.counts@.dom().contains(key),
            },
    {
        let mut i: usize = 0;
        while i < self.open.len()
            invariant
                i <= self.open@.len(),
                forall|j: int| 0 <= j < i ==> self.open@[j].0 != key,
            decreases self.open@.len() - i,
        {
            if self.open[i].0 == key {
                return Some(i);
            }
            i = i + 1;
        }
        proof {
            if self.counts@.dom().contains(key) {
                let j = choose|j: int| 0 <= j < self.open@.len() && #[trigger] self.open@[j].0 == key;
                assert(self.open@[j].0 == key);
            }
        }
        None
    }

    /// Admits one more connection from `key` when fewer than the cap are open
    /// from it, and says whether it did; a refused connection changes nothing.
    pub fn try_acquire(&mut self, key: IpAddress) -> (r: bool)
        requires
            old(self).wf(),
        ensures
            final(self).wf(),
            final(self).cap() == old(self).cap(),
            r == (open_count(old(self).view_counts(), key) < old(self).cap()),
            final(self).view_counts() == if r {
                after_acquire(old(self).view_counts(), key)
            } else {
                old(self).view_counts()
            },
    {
        match self.find(key) {
            Some(i) => {
                let c = self.open[i].1;
                assert(self.counts@[key] == c);
                if c >= self.max_per_client {
                    return false;
                }
                let ghost s0 = self.open@;
                self.open.set(i, (key, c + 1));
                proof {
                    self.counts@ = self.counts@.insert(key, (c + 1) as nat);
                    assert forall|k: IpAddress| #[trigger]
                        self.counts@.dom().contains(k) implies exists|j: int|
                        0 <= j < self.open@.len() && #[trigger] self.open@[j].0 == k by {
                        if k != key {
                            let j = choose|j: int| 0 <= j < s0.len() && #[trigger] s0[j].0 == k;
                            assert(self.open@[j].0 == k);
                        } else {
                            assert(self.open@[i as int].0 == k);
                        }
                    }
                    assert forall|a: int, b: int|
                        0 <= a < b < self.open@.len() implies #[trigger] self.open@[a].0
                        != #[trigger] self.open@[b].0 by {
                        assert(s0[a].0 != s0[b].0);
                    }
                }
                true
            },
            None => {
                if self.max_per_client == 0 {
                    return false;
                }
                let ghost s0 = self.open@;
                self.open.push((key, 1));
                proof {
                    self.counts@ = self.counts@.insert(key, 1);
                    assert forall|k: IpAddress| #[trigger]
                        self.counts@.dom().contains(k) implies exists|j: int|
                        0 <= j < self.open@.len() && #[trigger] self.open@[j].0 == k by {
                        if k != key {
                            let j = choose|j: int| 0 <= j < s0.len() && #[trigger] s0[j].0 == k;
                            assert(self.open@[j].0 == k);
                        } else {
                            assert(self.open@[s0.len() as int].0 == k);
                        }
                    }
                    assert forall|a: int, b: int|
                        0 <= a < b < self.open@.len() implies #[trigger] self.open@[a].0
                        != #[trigger] self.open@[b].0 by {
                        if b < s0.len() {
                            assert(s0[a].0 != s0[b].0);
                        } else {
                            assert(old(self).counts@.dom().contains(s0[a].0));
                        }
                    }
                }
                true
            },
        }
    }

    /// Records that a connection from `key` closed.
    pub fn release(&mut self, key: IpAddress)
        requires
            old(self).wf(),
        ensures
            final(self).wf(),
            final(self).cap() == old(self).cap(),
            final(self).view_counts() == after_release(old(self).view_counts(), key),
    {
        match self.find(key) {
            None => {},
            Some(i) => {
                let c = self.open[i].1;
                assert(self.counts@[key] == c);
                let ghost s0 = self.open@;
                if c <= 1 {
                    self.open.remove(i);
                    proof {
                        self.counts@ = self.counts@.remove(key);
                        assert forall|k: IpAddress| #[trigger]
                            self.counts@.dom().contains(k) implies exists|j: int|
                            0 <= j < self.open@.len() && #[trigger] self.open@[j].0 == k by {
                            let j = choose|j: int| 0 <= j < s0.len() && #[trigger] s0[j].0 == k;
                            if j < i {
                                assert(self.open@[j].0 == k);
                            } else {
                                assert(j != i);
                                assert(self.open@[j - 1].0 == k);
                            }
                        }
                        assert forall|a: int, b: int|
                            0 <= a < b < self.open@.len() implies #[trigger] self.open@[a].0
                            != #[trigger] self.open@[b].0 by {
                            let a0 = if a < i { a } else { a + 1 };
                            let b0 = if b < i { b } else { b + 1 };
                            assert(s0[a0].0 != s0[b0].0);
                        }
                        assert forall|j: int|
                            0 <= j < self.open@.len() implies #[trigger] self.counts@.dom().contains(
                            self.open@[j].0,
                        ) && self.counts@[self.open@[j].0] == self.open@[j].1 by {
                            let j0 = if j < i { j } else { j + 1 };
                            assert(self.open@[j] == s0[j0]);
                            assert(s0[j0].0 != s0[i as int].0);
                        }
                    }
                } else {
                    self.open.set(i, (key, c - 1));
                    proof {
                        self.counts@ = self.counts@.insert(key, (c - 1) as nat);
                        assert forall|k: IpAddress| #[trigger]
                            self.counts@.dom().contains(k) implies exists|j: int|
                            0 <= j < self.open@.len() && #[trigger] self.open@[j].0 == k by {
                            if k != key {
                                let j = choose|j: int| 0 <= j < s0.len() && #[trigger] s0[j].0 == k;
                                assert(self.open@[j].0 == k);
                            } else {
                                assert(self.open@[i as int].0 == k);
                            }
                        }
                        assert forall|a: int, b: int|
                            0 <= a < b < self.open@.len() implies #[trigger] self.open@[a].0
                            != #[trigger] self.open@[b].0 by {
                            assert(s0[a].0 != s0[b].0);
                        }
                    }
                }
            },
        }
    }

    /// Connections open from `key`.
    pub fn open_connections(&self, key: IpAddress) -> (r: usize)
        requires
            self.wf(),
        ensures
            r == open_count(self.view_counts(), key),
    {
        match self.find(key) {
            Some(i) => self.open[i].1,
            None => 0,
        }
    }
}

/// Closing a connection undoes admitting it: on any count map of open
/// connections, releasing a key right after acquiring it gives the map back.
pub proof fn lemma_release_undoes_acquire(m: Map<IpAddress, nat>, key: IpAddress)
    requires
        counts_positive(m),
    ensures
        after_release(after_acquire(m, key), key) == m,
{
    let a = after_acquire(m, key);
    assert(open_count(a, key) == open_count(m, key) + 1);
    if open_count(m, key) == 0 {
        assert(after_release(a, key) =~= m);
    } else {
        assert(after_release(a, key) =~= m);
    }
}

} // verus!
