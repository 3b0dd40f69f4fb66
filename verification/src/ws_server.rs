//! Decisions of the WebSocket server: the origin allowlist, the upgrade decision,
//! the per-connection event loop, message routing, and the record of which
//! streaming sessions each connection started.
use vstd::prelude::*;
use vstd::string::*;
use crate::cors::{valid_header_text, has_wildcard, has_explicit, is_wildcard, all_origins_valid};
use crate::framework::JsonData;
use crate::text::{chars_of, str_eq, occurs_at};
use crate::ws_protocol::{StreamOptions, WsMessage};

verus! {

broadcast use vstd::seq_lib::group_seq_properties;

/// The origins a WebSocket upgrade is accepted from.
#[derive(Debug, Clone)]
pub enum OriginAllowList {
    /// No browser origin is accepted.
    DenyAll,
    /// Any origin is accepted.
    Any,
    /// Exactly these origins are accepted, compared byte for byte.
    Explicit(Vec<String>),
}

/// The entries of `s` that are valid header values, in order.
pub open spec fn valid_origins(s: Seq<String>) -> Seq<String>
    decreases s.len(),
{
    if s.len() == 0 {
        Seq::empty()
    } else if valid_header_text(s.last()@) {
        valid_origins(s.drop_last()).push(s.last())
    } else {
        valid_origins(s.drop_last())
    }
}

/// Whether `origin` (the bytes of an `Origin` header) is admitted by `list`.
pub open spec fn admits_origin(list: OriginAllowList, origin: Seq<u8>) -> bool {
    match list {
        OriginAllowList::DenyAll => false,
        OriginAllowList::Any => true,
        OriginAllowList::Explicit(v) => origin_listed(v@, origin),
    }
}

/// Whether the bytes of some entry of `v` are exactly `origin`.
pub open spec fn origin_listed(v: Seq<String>, origin: Seq<u8>) -> bool {
    exists|i: int| 0 <= i < v.len() && vstd::utf8::encode_utf8((#[trigger] v[i])@) == origin
}

/// Index of the first occurrence of `needle` in `hay`, if any.
#[verifier::opaque]
pub open spec fn first_occurrence(hay: Seq<char>, needle: Seq<char>) -> Option<int> {
    if exists|i: int| occurs_at(hay, needle, i) {
        Some(choose|i: int| occurs_at(hay, needle, i) && forall|j: int| 0 <= j < i ==> !occurs_at(hay, needle, j))
    } else {
        None
    }
}

/// Whether some character of `s` is an ASCII upper-case letter.
pub open spec fn has_ascii_upper(s: Seq<char>) -> bool {
    exists|i: int| 0 <= i < s.len() && 'A' <= #[trigger] s[i] && s[i] <= 'Z'
}

/// Whether an allowlist entry has the shape of a browser `Origin`: `null`, or
/// lower-case `scheme://host[:port]` without a path (split at the first `://`).
pub open spec fn origin_shaped(o: Seq<char>) -> bool {
    ||| o == "null"@
    ||| match first_occurrence(o, "://"@) {
        Some(i) => {
            let scheme = o.subrange(0, i);
            let rest = o.subrange(i + 3, o.len() as int);
            &&& !rest.contains('/')
            &&& !has_ascii_upper(scheme)
            &&& !has_ascii_upper(rest)
        },
        None => false,
    }
}

fn first_occurrence_exec(hay: &[char], needle: &[char]) -> (r: Option<usize>)
    requires
        needle@.len() > 0,
    ensures
        match r {
            Some(i) => first_occurrence(hay@, needle@) == Some(i as int) && occurs_at(hay@, needle@, i as int)
                && i + needle@.len() <= hay@.len(),
            None => first_occurrence(hay@, needle@) is None,
        },
{
    reveal(first_occurrence);
    let n = hay.len();
    let m = needle.len();
    if m > n {
        assert(forall|i: int| !occurs_at(hay@, needle@, i));
        return None;
    }
    let mut i: usize = 0;
    while i <= n - m
        invariant
            n == hay@.len(),
            m == needle@.len(),
            m <= n,
            i <= n - m + 1,
            forall|j: int| 0 <= j < i ==> !occurs_at(hay@, needle@, j),
        decreases n - i,
    {
        let mut k: usize = 0;
        let mut ok = true;
        while k < m
            invariant
                n == hay@.len(),
                m == needle@.len(),
                i + m <= n,
                k <= m,
                ok <==> forall|t: int| 0 <= t < k ==> hay@[i + t] == needle@[t],
            decreases m - k,
        {
            if hay[i + k] != needle[k] {
                ok = false;
            }
            k = k + 1;
        }
        proof {
            if ok {
                assert(hay@.subrange(i as int, i + m) =~= needle@);
            } else {
                if hay@.subrange(i as int, i + m) == needle@ {
                    assert forall|t: int| 0 <= t < m implies hay@[i + t] == needle@[t] by {
                        assert(hay@.subrange(i as int, i + m)[t] == hay@[i + t]);
                    }
                }
            }
        }
        if ok {
            proof {
                reveal(first_occurrence);
                assert(occurs_at(hay@, needle@, i as int));
                let c = choose|c: int| occurs_at(hay@, needle@, c) && forall|j: int| 0 <= j < c ==> !occurs_at(hay@, needle@, j);
                assert(c == i);
            }
            return Some(i);
        }
        i = i + 1;
    }
    assert forall|j: int| !occurs_at(hay@, needle@, j) by {
        if 0 <= j && j < i {
        }
    }
    reveal(first_occurrence);
    None
}

fn has_ascii_upper_exec(s: &[char]) -> (r: bool)
    ensures
        r == has_ascii_upper(s@),
{
    let mut i: usize = 0;
    while i < s.len()
        invariant
            i <= s@.len(),
            forall|j: int| 0 <= j < i ==> !('A' <= #[trigger] s@[j] && s@[j] <= 'Z'),
        decreases s@.len() - i,
    {
        if 'A' <= s[i] && s[i] <= 'Z' {
            return true;
        }
        i = i + 1;
    }
    false
}

fn contains_slash(s: &[char]) -> (r: bool)
    ensures
        r == s@.contains('/'),
{
    let mut i: usize = 0;
    while i < s.len()
        invariant
            i <= s@.len(),
            forall|j: int| 0 <= j < i ==> #[trigger] s@[j] != '/',
        decreases s@.len() - i,
    {
        if s[i] == '/' {
            assert(s@[i as int] == '/');
            return true;
        }
        i = i + 1;
    }
    false
}

/// Whether an allowlist entry has the shape of a browser `Origin` (see
/// [`origin_shaped`]); an entry that does not is kept but will likely never
/// match, which is worth a warning.
pub fn looks_like_origin(origin: &str) -> (r: bool)
    ensures
        r == origin_shaped(origin@),
{
    if str_eq(origin, "null") {
        return true;
    }
    let o = chars_of(origin);
    let olen = o.len();
    let sep = chars_of("://");
    proof {
        reveal_strlit("://");
    }
    assert(sep@.len() == 3);
    match first_occurrence_exec(&o, &sep) {
        Some(i) => {
            assert(i + 3 <= o@.len());
            let scheme = crate::text::slice_range(&o, 0, i);
            let rest = crate::text::slice_range(&o, i + 3, olen);
            !contains_slash(&rest) && !has_ascii_upper_exec(&scheme) && !has_ascii_upper_exec(&rest)
        },
        None => false,
    }
}

fn bytes_equal(a: &[u8], b: &[u8]) -> (r: bool)
    ensures
        r == (a@ == b@),
{
    if a.len() != b.len() {
        return false;
    }
    let mut i: usize = 0;
    while i < a.len()
        invariant
            a@.len() == b@.len(),
            i <= a@.len(),
            forall|k: int| 0 <= k < i ==> a@[k] == b@[k],
        decreases a@.len() - i,
    {
        if a[i] != b[i] {
            return false;
        }
        i = i + 1;
    }
    assert(a@ =~= b@);
    true
}

impl OriginAllowList {
    /// The allowlist for configured origins: an empty list or a list mixing `*`
    /// with explicit origins denies every browser origin (fail closed), a list of
    /// wildcards admits any, and explicit origins are kept when they are valid
    /// header values (others are dropped).
    pub fn resolve(allowed_origins: &[String]) -> (r: OriginAllowList)
        ensures
            allowed_origins@.len() == 0 ==> r is DenyAll,
            allowed_origins@.len() > 0 && has_wildcard(allowed_origins@) && has_explicit(allowed_origins@)
                ==> r is DenyAll,
            allowed_origins@.len() > 0 && has_wildcard(allowed_origins@) && !has_explicit(allowed_origins@)
                ==> r is Any,
            allowed_origins@.len() > 0 && !has_wildcard(allowed_origins@) ==> (r matches OriginAllowList::Explicit(v)
                && v@ == valid_origins(allowed_origins@)),
    {
        let n = allowed_origins.len();
        if n == 0 {
            return OriginAllowList::DenyAll;
        }
        let mut wild = false;
        let mut explicit = false;
        let mut i: usize = 0;
        while i < n
            invariant
                n == allowed_origins@.len(),
                i <= n,
                wild <==> exists|j: int| 0 <= j < i && is_wildcard(#[trigger] allowed_origins@[j]),
                explicit <==> exists|j: int| 0 <= j < i && !is_wildcard(#[trigger] allowed_origins@[j]),
            decreases n - i,
        {
            if str_eq(allowed_origins[i].as_str(), "*") {
                wild = true;
            } else {
                explicit = true;
            }
            i = i + 1;
        }
        if wild && explicit {
            return OriginAllowList::DenyAll;
        }
        if wild {
            return OriginAllowList::Any;
        }
        let mut out: Vec<String> = Vec::new();
        let mut k: usize = 0;
        while k < n
            invariant
                n == allowed_origins@.len(),
                k <= n,
                out@ == valid_origins(allowed_origins@.subrange(0, k as int)),
            decreases n - k,
        {
            let o = &allowed_origins[k];
            proof {
                let t = allowed_origins@.subrange(0, k + 1);
                assert(t.drop_last() =~= allowed_origins@.subrange(0, k as int));
                assert(t.last() == *o);
            }
            if crate::cors::header_value_valid(o.as_str()) {
                out.push(o.clone());
            }
            k = k + 1;
        }
        assert(allowed_origins@.subrange(0, n as int) =~= allowed_origins@);
        OriginAllowList::Explicit(out)
    }

    /// Whether an `Origin` header value is admitted.
    pub fn allows(&self, origin: &[u8]) -> (r: bool)
        ensures
            r == admits_origin(*self, origin@),
    {
        match self {
            OriginAllowList::DenyAll => false,
            OriginAllowList::Any => true,
            OriginAllowList::Explicit(list) => {
                let n = list.len();
                let mut i: usize = 0;
                while i < n
                    invariant
                        *self == OriginAllowList::Explicit(*list),
                        n == list@.len(),
                        i <= n,
                        forall|j: int| 0 <= j < i ==> vstd::utf8::encode_utf8((#[trigger] list@[j])@) != origin@,
                    decreases n - i,
                {
                    let entry = list[i].as_str();
                    let eb = entry.as_bytes();
                    assert(eb@ == vstd::utf8::encode_utf8(list@[i as int]@));
                    if bytes_equal(eb, origin) {
                        assert(vstd::utf8::encode_utf8(list@[i as int]@) == origin@);
                        assert(origin_listed(list@, origin@));
                        return true;
                    }
                    i = i + 1;
                }
                false
            },
        }
    }
}

/// When every configured origin is a valid header value and none is the
/// wildcard, the WebSocket allowlist keeps exactly the configured origins — the
/// same list the CORS layer admits.
pub proof fn lemma_explicit_allowlists_agree(origins: Seq<String>)
    requires
        all_origins_valid(origins),
    ensures
        valid_origins(origins) == origins,
    decreases origins.len(),
{
    if origins.len() > 0 {
        let p = origins.drop_last();
        assert(all_origins_valid(p)) by {
            assert forall|j: int| 0 <= j < p.len() implies valid_header_text(#[trigger] p[j]@) by {
                assert(p[j] == origins[j]);
            }
        }
        lemma_explicit_allowlists_agree(p);
        assert(valid_header_text(origins[origins.len() - 1]@));
        assert(p.push(origins.last()) =~= origins);
    }
}

/// The answer to a WebSocket upgrade request.
#[derive(Debug, Clone, PartialEq, Eq)]
pub enum UpgradeDecision {
    /// 429: the client is over its rate limit; the text explains why.
    TooManyRequests(String),
    /// 403: the request comes from a browser origin that is not allowed.
    Forbidden,
    /// Upgrade the connection.
    Accept,
}

/// Decides an upgrade request from the rate-limit verdict for the client and the
/// request's `Origin` header. A request without `Origin` (a native client, which
/// cannot be a cross-site browser request) is never refused for its origin.
pub fn upgrade_decision(rate: Result<(), String>, origin: Option<&[u8]>, allowed: &OriginAllowList) -> (r: UpgradeDecision)
    ensures
        rate matches Err(m) ==> r == UpgradeDecision::TooManyRequests(m),
        rate is Ok && (origin matches Some(o) && !admits_origin(*allowed, o@)) ==> r == UpgradeDecision::Forbidden,
        rate is Ok && !(origin matches Some(o) && !admits_origin(*allowed, o@)) ==> r == UpgradeDecision::Accept,
{
    match rate {
        Err(m) => UpgradeDecision::TooManyRequests(m),
        Ok(()) => match origin {
            Some(o) => {
                if allowed.allows(o) {
                    UpgradeDecision::Accept
                } else {
                    UpgradeDecision::Forbidden
                }
            },
            None => UpgradeDecision::Accept,
        },
    }
}

/// Close code sent when a client breaks the connection's rate limits.
pub const POLICY_VIOLATION_CLOSE_CODE: u16 = 1008;

/// What happens on an open WebSocket connection.
#[derive(Debug)]
pub enum ConnectionEvent {
    /// The connection was refused by the per-client limiter before it started.
    AdmissionRefused(String),
    /// A stream message was broadcast; its JSON text, or `None` when it could not
    /// be serialized.
    Broadcast(Option<String>),
    /// The broadcast receiver fell behind and skipped this many messages.
    BroadcastLagged(u64),
    /// The broadcast channel closed.
    BroadcastClosed,
    /// The application queued a text for this connection.
    Outgoing(String),
    /// The client sent a text frame; `rate` is the limiter's verdict on its size.
    InboundText { text: String, rate: Result<(), String> },
    /// The client sent a binary frame; `rate` is the limiter's verdict on its size.
    InboundBinary { len: usize, rate: Result<(), String> },
    /// The client sent a ping.
    InboundPing(Vec<u8>),
    /// The client sent a pong.
    InboundPong,
    /// The client closed the connection.
    InboundClose,
    /// Reading from the client failed.
    InboundError(String),
    /// Every source of events has ended.
    Exhausted,
}

/// What the connection loop does next. After any send that fails, the loop stops.
#[derive(Debug, PartialEq, Eq)]
pub enum ConnectionAction {
    /// Send a text frame and go on.
    SendText(String),
    /// Answer a ping with a pong carrying the same data, and go on.
    SendPong(Vec<u8>),
    /// Send a close frame with [`POLICY_VIOLATION_CLOSE_CODE`] and this reason, then stop.
    ClosePolicyViolation(String),
    /// Parse the text as a protocol message, handle it, and go on.
    Dispatch(String),
    /// Nothing to send (at most a log line); go on.
    Continue,
    /// End the connection loop.
    Stop,
}

/// The connection loop's answer to one event: broadcast and queued texts are
/// sent; inbound frames over the client's limits close the connection with a
/// policy violation; inbound texts are dispatched; pings are answered; a close,
/// a read error, a closed broadcast channel or the end of all sources stops the
/// loop; lag, pongs, binary data and unserializable broadcasts change nothing.
pub fn connection_step(event: ConnectionEvent) -> (r: ConnectionAction)
    ensures
        match event {
            ConnectionEvent::AdmissionRefused(m) => r == ConnectionAction::ClosePolicyViolation(m),
            ConnectionEvent::Broadcast(Some(t)) => r == ConnectionAction::SendText(t),
            ConnectionEvent::Broadcast(None) => r == ConnectionAction::Continue,
            ConnectionEvent::BroadcastLagged(_) => r == ConnectionAction::Continue,
            ConnectionEvent::BroadcastClosed => r == ConnectionAction::Stop,
            ConnectionEvent::Outgoing(t) => r == ConnectionAction::SendText(t),
            ConnectionEvent::InboundText { text, rate } => match rate {
                Err(m) => r == ConnectionAction::ClosePolicyViolation(m),
                Ok(()) => r == ConnectionAction::Dispatch(text),
            },
            ConnectionEvent::InboundBinary { len: _, rate } => match rate {
                Err(m) => r == ConnectionAction::ClosePolicyViolation(m),
                Ok(()) => r == ConnectionAction::Continue,
            },
            ConnectionEvent::InboundPing(d) => r == ConnectionAction::SendPong(d),
            ConnectionEvent::InboundPong => r == ConnectionAction::Continue,
            ConnectionEvent::InboundClose => r == ConnectionAction::Stop,
            ConnectionEvent::InboundError(_) => r == ConnectionAction::Stop,
            ConnectionEvent::Exhausted => r == ConnectionAction::Stop,
        },
{
    match event {
        ConnectionEvent::AdmissionRefused(m) => ConnectionAction::ClosePolicyViolation(m),
        ConnectionEvent::Broadcast(Some(t)) => ConnectionAction::SendText(t),
        ConnectionEvent::Broadcast(None) => ConnectionAction::Continue,
        ConnectionEvent::BroadcastLagged(_) => ConnectionAction::Continue,
        ConnectionEvent::BroadcastClosed => ConnectionAction::Stop,
        ConnectionEvent::Outgoing(t) => ConnectionAction::SendText(t),
        ConnectionEvent::InboundText { text, rate } => match rate {
            Err(m) => ConnectionAction::ClosePolicyViolation(m),
            Ok(()) => ConnectionAction::Dispatch(text),
        },
        ConnectionEvent::InboundBinary { len: _, rate } => match rate {
            Err(m) => ConnectionAction::ClosePolicyViolation(m),
            Ok(()) => ConnectionAction::Continue,
        },
        ConnectionEvent::InboundPing(d) => ConnectionAction::SendPong(d),
        ConnectionEvent::InboundPong => ConnectionAction::Continue,
        ConnectionEvent::InboundClose => ConnectionAction::Stop,
        ConnectionEvent::InboundError(_) => ConnectionAction::Stop,
        ConnectionEvent::Exhausted => ConnectionAction::Stop,
    }
}

/// The UTF-8 byte length of a string (`str::len`).
pub open spec fn byte_len(s: String) -> nat {
    vstd::utf8::encode_utf8(s@).len()
}

/// How the server handles a protocol message from a client.
#[derive(Debug)]
pub enum MessageRoute {
    /// Create a streaming session for `data` and start it, recording it for the
    /// connection.
    StartStream { data: JsonData, options: StreamOptions },
    /// Record a frame acknowledgement.
    Acknowledge { session_id: String, frame_id: u32, processing_time_ms: u64 },
    /// A keep-alive ping at protocol level; pongs are sent by the socket layer.
    Ping(u64),
    /// A client-reported error; only the sizes are logged, never the texts.
    ClientError { session_id_len: Option<usize>, code: u16, error_len: usize },
    /// A message a server does not expect from a client.
    Unhandled,
}

/// Routes a protocol message received from a client.
pub fn route_message(message: WsMessage) -> (r: MessageRoute)
    ensures
        match message {
            WsMessage::StreamInit { session_id: _, data, options } => r == MessageRoute::StartStream { data, options },
            WsMessage::FrameAck { session_id, frame_id, processing_time_ms } => r == MessageRoute::Acknowledge {
                session_id,
                frame_id,
                processing_time_ms,
            },
            WsMessage::Ping { timestamp } => r == MessageRoute::Ping(timestamp),
            WsMessage::Error { session_id, error, code } => r == MessageRoute::ClientError {
                session_id_len: match session_id {
                    Some(s) => Some(byte_len(s) as usize),
                    None => None,
                },
                code,
                error_len: byte_len(error) as usize,
            },
            _ => r is Unhandled,
        },
{
    match message {
        WsMessage::StreamInit { session_id: _, data, options } => MessageRoute::StartStream { data, options },
        WsMessage::FrameAck { session_id, frame_id, processing_time_ms } => MessageRoute::Acknowledge {
            session_id,
            frame_id,
            processing_time_ms,
        },
        WsMessage::Ping { timestamp } => MessageRoute::Ping(timestamp),
        WsMessage::Error { session_id, error, code } => {
            let session_id_len = match &session_id {
                Some(s) => Some(s.as_str().len()),
                None => None,
            };
            MessageRoute::ClientError { session_id_len, code, error_len: error.as_str().len() }
        },
        _ => MessageRoute::Unhandled,
    }
}

/// The sessions recorded for `conn`, in recording order.
pub open spec fn sessions_for(pairs: Seq<(String, String)>, conn: Seq<char>) -> Seq<Seq<char>>
    decreases pairs.len(),
{
    if pairs.len() == 0 {
        Seq::empty()
    } else {
        let rest = sessions_for(pairs.drop_last(), conn);
        if pairs.last().0@ == conn {
            rest.push(pairs.last().1@)
        } else {
            rest
        }
    }
}

/// The records of every connection but `conn`, in order.
pub open spec fn records_without(pairs: Seq<(String, String)>, conn: Seq<char>) -> Seq<(String, String)>
    decreases pairs.len(),
{
    if pairs.len() == 0 {
        Seq::empty()
    } else {
        let rest = records_without(pairs.drop_last(), conn);
        if pairs.last().0@ == conn {
            rest
        } else {
            rest.push(pairs.last())
        }
    }
}

/// The ids of `ids` other than `id`, in order.
pub open spec fn ids_without(ids: Seq<String>, id: Seq<char>) -> Seq<Seq<char>>
    decreases ids.len(),
{
    if ids.len() == 0 {
        Seq::empty()
    } else {
        let rest = ids_without(ids.drop_last(), id);
        if ids.last()@ == id {
            rest
        } else {
            rest.push(ids.last()@)
        }
    }
}

/// The views of a list of strings.
pub open spec fn string_views(v: Seq<String>) -> Seq<Seq<char>> {
    v.map_values(|s: String| s@)
}

proof fn lemma_records_without(pairs: Seq<(String, String)>, conn: Seq<char>, c: Seq<char>)
    ensures
        c != conn ==> sessions_for(records_without(pairs, conn), c) == sessions_for(pairs, c),
        sessions_for(records_without(pairs, conn), conn) == Seq::<Seq<char>>::empty(),
    decreases pairs.len(),
{
    if pairs.len() > 0 {
        lemma_records_without(pairs.drop_last(), conn, c);
        let rest = records_without(pairs.drop_last(), conn);
        if pairs.last().0@ != conn {
            assert(rest.push(pairs.last()).drop_last() =~= rest);
        }
    }
}

/// Which connections are open and which streaming sessions each one started.
#[derive(Debug)]
pub struct ConnectionTable {
    active: Vec<String>,
    records: Vec<(String, String)>,
}

impl ConnectionTable {
    /// Ids of the open connections, in order of opening.
    pub closed spec fn active_ids(&self) -> Seq<Seq<char>> {
        string_views(self.active@)
    }

    /// The open connections, in order of opening.
    pub closed spec fn active_list(&self) -> Seq<String> {
        self.active@
    }

    /// The `(connection, session)` records, in recording order.
    pub closed spec fn record_list(&self) -> Seq<(String, String)> {
        self.records@
    }

    /// An empty table.
    pub fn new() -> (r: Self)
        ensures
            r.active_ids() == Seq::<Seq<char>>::empty(),
            r.record_list() == Seq::<(String, String)>::empty(),
    {
        ConnectionTable { active: Vec::new(), records: Vec::new() }
    }

    /// Registers an open connection.
    pub fn add_connection(&mut self, id: String)
        ensures
            final(self).active_ids() == old(self).active_ids().push(id@),
            final(self).record_list() == old(self).record_list(),
    {
        self.active.push(id);
        assert(string_views(self.active@) =~= string_views(old(self).active@).push(id@));
    }

    /// Number of open connections.
    pub fn active_count(&self) -> (r: usize)
        ensures
            r == self.active_ids().len(),
    {
        self.active.len()
    }

    /// Records that `conn` started session `session`.
    pub fn record_session(&mut self, conn: &str, session: String)
        ensures
            final(self).active_ids() == old(self).active_ids(),
            sessions_for(final(self).record_list(), conn@) == sessions_for(old(self).record_list(), conn@).push(session@),
            forall|c: Seq<char>| c != conn@ ==> #[trigger] sessions_for(final(self).record_list(), c) == sessions_for(old(self).record_list(), c),
    {
        let ghost p0 = self.records@;
        self.records.push((String::from_str(conn), session));
        proof {
            assert(self.records@.drop_last() =~= p0);
        }
    }

    /// Closes a connection: it leaves the open list, and the sessions it started
    /// are returned, in order, and forgotten; other connections are untouched.
    pub fn remove_connection(&mut self, id: &str) -> (r: Vec<String>)
        ensures
            final(self).active_ids() == ids_without(old(self).active_list(), id@),
            string_views(r@) == sessions_for(old(self).record_list(), id@),
            sessions_for(final(self).record_list(), id@) == Seq::<Seq<char>>::empty(),
            forall|c: Seq<char>| c != id@ ==> #[trigger] sessions_for(final(self).record_list(), c) == sessions_for(old(self).record_list(), c),
    {
        let ghost a0 = self.active@;
        let mut src: Vec<String> = Vec::new();
        std::mem::swap(&mut src, &mut self.active);
        let mut kept: Vec<String> = Vec::new();
        let ghost mut done: Seq<String> = Seq::empty();
        while src.len() > 0
            invariant
                done + src@ == a0,
                string_views(kept@) == ids_without(done, id@),
            decreases src@.len(),
        {
            let ghost rest = src@;
            let x = src.remove(0);
            proof {
                assert(rest =~= seq![x] + src@);
                assert(done.push(x) + src@ =~= a0);
                assert(done.push(x).drop_last() =~= done);
            }
            if !str_eq(x.as_str(), id) {
                let ghost k0 = kept@;
                kept.push(x);
                assert(string_views(kept@) =~= string_views(k0).push(x@));
            }
            proof {
                done = done.push(x);
            }
        }
        assert(done =~= a0);
        self.active = kept;
        let ghost p0 = self.records@;
        let mut recs: Vec<(String, String)> = Vec::new();
        std::mem::swap(&mut recs, &mut self.records);
        let mut keep: Vec<(String, String)> = Vec::new();
        let mut out: Vec<String> = Vec::new();
        let ghost mut seen: Seq<(String, String)> = Seq::empty();
        while recs.len() > 0
            invariant
                seen + recs@ == p0,
                keep@ == records_without(seen, id@),
                string_views(out@) == sessions_for(seen, id@),
            decreases recs@.len(),
        {
            let ghost rest = recs@;
            let pr = recs.remove(0);
            proof {
                assert(rest =~= seq![pr] + recs@);
                assert(seen.push(pr) + recs@ =~= p0);
                assert(seen.push(pr).drop_last() =~= seen);
            }
            let ghost gp = pr;
            if str_eq(pr.0.as_str(), id) {
                let ghost o0 = out@;
                out.push(pr.1);
                assert(string_views(out@) =~= string_views(o0).push(gp.1@));
            } else {
                keep.push(pr);
            }
            proof {
                seen = seen.push(gp);
            }
        }
        assert(seen =~= p0);
        self.records = keep;
        proof {
            assert forall|c: Seq<char>| c != id@ implies #[trigger] sessions_for(self.records@, c) == sessions_for(p0, c) by {
                lemma_records_without(p0, id@, c);
            }
            lemma_records_without(p0, id@, id@);
        }
        out
    }
}

/// Sessions recorded for a connection are exactly the ones handed back when it
/// closes: recording a session and then closing gives back the earlier sessions
/// followed by this one.
pub proof fn lemma_recorded_sessions_returned(pairs: Seq<(String, String)>, conn: String, session: String)
    ensures
        sessions_for(pairs.push((conn, session)), conn@) == sessions_for(pairs, conn@).push(session@),
{
    assert(pairs.push((conn, session)).drop_last() =~= pairs);
}


proof fn lemma_valid_origin_kept(v: Seq<String>, i: int)
    requires
        0 <= i < v.len(),
        valid_header_text(v[i]@),
    ensures
        exists|j: int| 0 <= j < valid_origins(v).len() && #[trigger] valid_origins(v)[j] == v[i],
    decreases v.len(),
{
    let p = v.drop_last();
    if i == v.len() - 1 {
        let j = valid_origins(p).len() as int;
        assert(v.last() == v[i]);
        assert(valid_origins(v) == valid_origins(p).push(v.last()));
        assert(valid_origins(v)[j] == v[i]);
    } else {
        assert(p[i] == v[i]);
        lemma_valid_origin_kept(p, i);
        let j = choose|j: int| 0 <= j < valid_origins(p).len() && #[trigger] valid_origins(p)[j] == p[i];
        if valid_header_text(v.last()@) {
            assert(valid_origins(v) == valid_origins(p).push(v.last()));
            assert(valid_origins(v)[j] == valid_origins(p)[j]);
        } else {
            assert(valid_origins(v) == valid_origins(p));
        }
        assert(valid_origins(v)[j] == v[i]);
    }
}

proof fn lemma_kept_origin_configured(v: Seq<String>, j: int)
    requires
        0 <= j < valid_origins(v).len(),
    ensures
        exists|i: int| 0 <= i < v.len() && #[trigger] v[i] == valid_origins(v)[j],
    decreases v.len(),
{
    let p = v.drop_last();
    if valid_header_text(v.last()@) && j == valid_origins(p).len() {
        assert(v[v.len() - 1] == valid_origins(v)[j]);
    } else {
        if valid_header_text(v.last()@) {
            assert(valid_origins(v)[j] == valid_origins(p)[j]);
        }
        lemma_kept_origin_configured(p, j);
        let i = choose|i: int| 0 <= i < p.len() && #[trigger] p[i] == valid_origins(p)[j];
        assert(v[i] == p[i]);
    }
}

/// Every configured origin the allowlist keeps is admitted, whatever its
/// position: for the explicit list that `resolve` builds from `v`, the bytes of
/// each entry of `v` that is a valid header value are an admitted `Origin`.
pub proof fn lemma_every_kept_origin_is_admitted(v: Seq<String>, w: Vec<String>, i: int)
    requires
        0 <= i < v.len(),
        valid_header_text(v[i]@),
        w@ == valid_origins(v),
    ensures
        admits_origin(OriginAllowList::Explicit(w), vstd::utf8::encode_utf8(v[i]@)),
{
    lemma_valid_origin_kept(v, i);
    let j = choose|j: int| 0 <= j < valid_origins(v).len() && #[trigger] valid_origins(v)[j] == v[i];
    assert(w@[j] == v[i]);
    assert(vstd::utf8::encode_utf8(w@[j]@) == vstd::utf8::encode_utf8(v[i]@));
}

/// Only configured origins are admitted: an `Origin` admitted by the explicit
/// list built from `v` is the bytes of some entry of `v`.
pub proof fn lemma_admitted_origin_is_configured(v: Seq<String>, w: Vec<String>, origin: Seq<u8>)
    requires
        w@ == valid_origins(v),
        admits_origin(OriginAllowList::Explicit(w), origin),
    ensures
        exists|i: int| 0 <= i < v.len() && vstd::utf8::encode_utf8((#[trigger] v[i])@) == origin,
{
    let j = choose|j: int| 0 <= j < w@.len() && vstd::utf8::encode_utf8((#[trigger] w@[j])@) == origin;
    lemma_kept_origin_configured(v, j);
    let i = choose|i: int| 0 <= i < v.len() && #[trigger] v[i] == valid_origins(v)[j];
    assert(vstd::utf8::encode_utf8(v[i]@) == origin);
}

} // verus!
