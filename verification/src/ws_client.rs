//! The WebSocket client's session bookkeeping: stream requests, reconstruction of
//! streamed data, acknowledgements and per-stream statistics.
use vstd::prelude::*;
use vstd::string::*;
use crate::framework::JsonData;
use crate::ids::{SessionId, uuid_hyphenated, is_uuid_v4, RandomSourceError};
use crate::text::str_eq;
use crate::ws_protocol::{StreamOptions, WsMessage};

verus! {

broadcast use vstd::seq_lib::group_seq_properties;

/// Index of the first member named `k`, if any.
pub open spec fn member_index(m: Seq<(String, JsonData)>, k: Seq<char>) -> Option<int>
    decreases m.len(),
{
    if m.len() == 0 {
        None
    } else {
        match member_index(m.drop_last(), k) {
            Some(i) => Some(i),
            None => if m.last().0@ == k {
                Some(m.len() - 1)
            } else {
                None
            },
        }
    }
}

/// `m` with the first member named `k` set to `v`, or with `(k, v)` appended.
pub open spec fn upsert(m: Seq<(String, JsonData)>, k: String, v: JsonData) -> Seq<(String, JsonData)> {
    match member_index(m, k@) {
        Some(i) => m.update(i, (m[i].0, v)),
        None => m.push((k, v)),
    }
}

/// `m` with every member of `p` upserted, in order.
pub open spec fn merge_members(m: Seq<(String, JsonData)>, p: Seq<(String, JsonData)>) -> Seq<(String, JsonData)>
    decreases p.len(),
{
    if p.len() == 0 {
        m
    } else {
        upsert(merge_members(m, p.drop_last()), p.last().0, p.last().1)
    }
}

/// The value of the first member named `k`.
pub open spec fn member_value(m: Seq<(String, JsonData)>, k: Seq<char>) -> Option<JsonData> {
    match member_index(m, k) {
        Some(i) => Some(m[i].1),
        None => None,
    }
}

/// The value of the last member named `k`.
pub open spec fn last_member_value(m: Seq<(String, JsonData)>, k: Seq<char>) -> Option<JsonData>
    decreases m.len(),
{
    if m.len() == 0 {
        None
    } else if m.last().0@ == k {
        Some(m.last().1)
    } else {
        last_member_value(m.drop_last(), k)
    }
}

proof fn lemma_member_index(m: Seq<(String, JsonData)>, k: Seq<char>)
    ensures
        member_index(m, k) matches Some(i) ==> 0 <= i < m.len() && m[i].0@ == k && forall|j: int| 0 <= j < i ==> (#[trigger] m[j]).0@ != k,
        member_index(m, k) is None ==> forall|j: int| 0 <= j < m.len() ==> (#[trigger] m[j]).0@ != k,
    decreases m.len(),
{
    if m.len() > 0 {
        lemma_member_index(m.drop_last(), k);
        assert forall|j: int| 0 <= j < m.len() - 1 implies #[trigger] m[j] == m.drop_last()[j] by {}
    }
}

proof fn lemma_upsert_lookup(m: Seq<(String, JsonData)>, k: String, v: JsonData, q: Seq<char>)
    ensures
        member_value(upsert(m, k, v), q) == if q == k@ { Some(v) } else { member_value(m, q) },
{
    lemma_member_index(m, k@);
    lemma_member_index(m, q);
    let u = upsert(m, k, v);
    lemma_member_index(u, q);
    match member_index(m, k@) {
        Some(i) => {
            assert forall|j: int| 0 <= j < u.len() implies (#[trigger] u[j]).0@ == m[j].0@ by {}
            if q == k@ {
                assert(u[i].0@ == q);
                assert(u[i].1 == v);
                match member_index(u, q) {
                    Some(iu) => {
                        if iu < i {
                            assert(m[iu].0@ == q);
                        } else if i < iu {
                            assert(u[i].0@ == q);
                        }
                    },
                    None => {},
                }
            } else {
                match member_index(m, q) {
                    Some(iq) => {
                        assert(u[iq].0@ == q);
                        match member_index(u, q) {
                            Some(iu) => {
                                if iu < iq {
                                    assert(m[iu].0@ == q);
                                } else if iq < iu {
                                }
                            },
                            None => {},
                        }
                    },
                    None => {
                        match member_index(u, q) {
                            Some(iu) => {
                                assert(m[iu].0@ == q);
                            },
                            None => {},
                        }
                    },
                }
            }
        },
        None => {
            assert forall|j: int| 0 <= j < m.len() implies #[trigger] u[j] == m[j] by {}
            match member_index(m, q) {
                Some(iq) => {
                    match member_index(u, q) {
                        Some(iu) => {
                            if iu < iq {
                                assert(u[iu] == m[iu]);
                            } else if iq < iu {
                                assert(u[iq] == m[iq]);
                            }
                        },
                        None => {
                            assert(u[iq] == m[iq]);
                        },
                    }
                },
                None => {
                    match member_index(u, q) {
                        Some(iu) => {
                            if iu < m.len() {
                                assert(u[iu] == m[iu]);
                            }
                        },
                        None => {
                            assert(u[m.len() as int] == (k, v));
                        },
                    }
                },
            }
        },
    }
}

/// Merging a payload into an object: each member named in the payload takes the
/// payload's (last) value for it; every other member keeps its value.
pub proof fn lemma_merge_lookup(d: Seq<(String, JsonData)>, p: Seq<(String, JsonData)>, q: Seq<char>)
    ensures
        member_value(merge_members(d, p), q) == match last_member_value(p, q) {
            Some(v) => Some(v),
            None => member_value(d, q),
        },
    decreases p.len(),
{
    if p.len() > 0 {
        lemma_merge_lookup(d, p.drop_last(), q);
        lemma_upsert_lookup(merge_members(d, p.drop_last()), p.last().0, p.last().1, q);
    }
}

fn upsert_exec(m: &mut Vec<(String, JsonData)>, k: String, v: JsonData)
    ensures
        final(m)@ == upsert(old(m)@, k, v),
{
    proof {
        lemma_member_index(m@, k@);
    }
    let n = m.len();
    let mut i: usize = 0;
    while i < n
        invariant
            m@ == old(m)@,
            n == m@.len(),
            i <= n,
            forall|j: int| 0 <= j < i ==> (#[trigger] m@[j]).0@ != k@,
        decreases n - i,
    {
        if str_eq(m[i].0.as_str(), k.as_str()) {
            let ghost m0 = m@;
            proof {
                lemma_member_index(m0, k@);
            }
            assert(member_index(m0, k@) == Some(i as int));
            let (key, _old) = m.remove(i);
            m.insert(i, (key, v));
            assert(m@ =~= m0.update(i as int, (m0[i as int].0, v)));
            return;
        }
        i = i + 1;
    }
    proof {
        lemma_member_index(m@, k@);
    }
    m.push((k, v));
}

/// Whether `new` is what merging `payload` into `old` gives: for two objects the
/// members merged by [`merge_members`], otherwise the payload itself.
pub open spec fn merge_result(old: JsonData, new: JsonData, payload: JsonData) -> bool {
    match (old, payload) {
        (JsonData::Object(d), JsonData::Object(p)) => new matches JsonData::Object(m) && m@ == merge_members(d@, p@),
        _ => new == payload,
    }
}

/// Merges a frame payload into reconstructed data: when both are objects, each
/// payload member replaces the first member of the same name or is appended;
/// otherwise the payload replaces the data.
pub fn apply_frame_to_data(data: &mut JsonData, payload: JsonData)
    ensures
        match (*old(data), payload) {
            (JsonData::Object(d), JsonData::Object(p)) => (*final(data) matches JsonData::Object(m)
                && m@ == merge_members(d@, p@)),
            _ => *final(data) == payload,
        },
{
    let mut current = JsonData::Null;
    std::mem::swap(data, &mut current);
    let ghost c0 = current;
    match current {
        JsonData::Object(mut d) => match payload {
            JsonData::Object(p) => {
                let ghost d0 = d@;
                let ghost all = p@;
                let mut p = p;
                let ghost mut done: Seq<(String, JsonData)> = Seq::empty();
                while p.len() > 0
                    invariant
                        done + p@ == all,
                        d@ == merge_members(d0, done),
                    decreases p@.len(),
                {
                    let ghost rest = p@;
                    let (k, v) = p.remove(0);
                    proof {
                        assert(rest =~= seq![(k, v)] + p@);
                        assert(done.push((k, v)) + p@ =~= all);
                        assert(done.push((k, v)).drop_last() =~= done);
                    }
                    upsert_exec(&mut d, k, v);
                    proof {
                        done = done.push((k, v));
                    }
                }
                assert(done =~= all);
                *data = JsonData::Object(d);
            },
            other => {
                *data = other;
            },
        },
        _ => {
            *data = payload;
        },
    }
}

/// When a frame was received and when it finished processing (milliseconds of
/// the client's monotonic clock).
#[derive(Debug, Clone, Copy, PartialEq, Eq)]
pub struct ReceivedFrame {
    /// The frame's number.
    pub frame_id: u32,
    /// When it arrived.
    pub received_at_ms: u64,
    /// When it was processed, once it was.
    pub processed_at_ms: Option<u64>,
}

/// A stream the client requested.
#[derive(Debug)]
pub struct ClientStreamSession {
    /// The session id.
    pub id: String,
    /// When the stream was requested.
    pub created_at_ms: u64,
    /// Frames received, one per frame number.
    pub received_frames: Vec<ReceivedFrame>,
    /// The data reconstructed from the frames so far.
    pub reconstructed_data: JsonData,
    /// Whether the stream is complete.
    pub is_complete: bool,
}

/// Statistics of a client stream.
#[derive(Debug, Clone, PartialEq, Eq)]
pub struct StreamStats {
    /// The session id.
    pub session_id: String,
    /// Frames received.
    pub total_frames: usize,
    /// Frames processed.
    pub processed_frames: usize,
    /// Whether the stream is complete.
    pub is_complete: bool,
    /// Time since the stream was requested, in milliseconds.
    pub duration_ms: u64,
    /// Average processing time of the processed frames, in milliseconds.
    pub average_processing_time_ms: Option<u64>,
}

/// The number of processed frames.
pub open spec fn processed_count(f: Seq<ReceivedFrame>) -> nat
    decreases f.len(),
{
    if f.len() == 0 {
        0
    } else {
        processed_count(f.drop_last()) + if f.last().processed_at_ms is Some { 1nat } else { 0nat }
    }
}

/// The total processing time of the processed frames (never negative per frame).
pub open spec fn processing_total(f: Seq<ReceivedFrame>) -> nat
    decreases f.len(),
{
    if f.len() == 0 {
        0
    } else {
        processing_total(f.drop_last()) + match f.last().processed_at_ms {
            Some(p) => if p >= f.last().received_at_ms {
                (p - f.last().received_at_ms) as nat
            } else {
                0nat
            },
            None => 0nat,
        }
    }
}

/// The client's streams.
#[derive(Debug)]
pub struct ClientSessions {
    sessions: Vec<ClientStreamSession>,
}

/// Index of the (last) session with id `id`, if any.
pub open spec fn client_index(s: Seq<ClientStreamSession>, id: Seq<char>) -> Option<int>
    decreases s.len(),
{
    if s.len() == 0 {
        None
    } else if s.last().id@ == id {
        Some(s.len() - 1)
    } else {
        client_index(s.drop_last(), id)
    }
}

proof fn lemma_client_index(s: Seq<ClientStreamSession>, id: Seq<char>)
    ensures
        client_index(s, id) matches Some(i) ==> 0 <= i < s.len() && s[i].id@ == id && forall|j: int|
            i < j < s.len() ==> (#[trigger] s[j]).id@ != id,
        client_index(s, id) is None ==> forall|j: int| 0 <= j < s.len() ==> (#[trigger] s[j]).id@ != id,
    decreases s.len(),
{
    if s.len() > 0 {
        lemma_client_index(s.drop_last(), id);
        assert forall|j: int| 0 <= j < s.len() - 1 implies #[trigger] s[j] == s.drop_last()[j] by {}
    }
}

proof fn lemma_client_index_at(s: Seq<ClientStreamSession>, id: Seq<char>, i: int)
    requires
        0 <= i < s.len(),
        s[i].id@ == id,
        forall|j: int| i < j < s.len() ==> (#[trigger] s[j]).id@ != id,
    ensures
        client_index(s, id) == Some(i),
    decreases s.len(),
{
    if i < s.len() - 1 {
        assert(s.last() == s[s.len() - 1]);
        lemma_client_index_at(s.drop_last(), id, i);
    }
}

/// `frames` with the entry for `f.frame_id` replaced by `f`, or `f` appended.
pub open spec fn record_frame(frames: Seq<ReceivedFrame>, f: ReceivedFrame) -> Seq<ReceivedFrame> {
    if exists|i: int| 0 <= i < frames.len() && (#[trigger] frames[i]).frame_id == f.frame_id {
        frames.update(
            choose|i: int| 0 <= i < frames.len() && (#[trigger] frames[i]).frame_id == f.frame_id && forall|j: int|
                0 <= j < i ==> (#[trigger] frames[j]).frame_id != f.frame_id,
            f,
        )
    } else {
        frames.push(f)
    }
}

fn record_frame_exec(frames: &mut Vec<ReceivedFrame>, f: ReceivedFrame)
    ensures
        final(frames)@ == record_frame(old(frames)@, f),
{
    let n = frames.len();
    let mut i: usize = 0;
    while i < n
        invariant
            frames@ == old(frames)@,
            n == frames@.len(),
            i <= n,
            forall|j: int| 0 <= j < i ==> (#[trigger] frames@[j]).frame_id != f.frame_id,
        decreases n - i,
    {
        if frames[i].frame_id == f.frame_id {
            proof {
                let c = choose|c: int| 0 <= c < frames@.len() && (#[trigger] frames@[c]).frame_id == f.frame_id && forall|j: int|
                    0 <= j < c ==> (#[trigger] frames@[j]).frame_id != f.frame_id;
                assert(frames@[i as int].frame_id == f.frame_id);
                if c < i {
                } else if c > i {
                }
                assert(c == i);
            }
            frames.set(i, f);
            return;
        }
        i = i + 1;
    }
    frames.push(f);
}

impl ClientSessions {
    /// The tracked streams, in order of request.
    pub closed spec fn entries(&self) -> Seq<ClientStreamSession> {
        self.sessions@
    }

    /// No streams.
    pub fn new() -> (r: Self)
        ensures
            r.entries().len() == 0,
    {
        ClientSessions { sessions: Vec::new() }
    }

    fn find(&self, id: &str) -> (r: Option<usize>)
        ensures
            match r {
                Some(i) => client_index(self.entries(), id@) == Some(i as int) && i < self.entries().len(),
                None => client_index(self.entries(), id@) is None,
            },
    {
        proof {
            lemma_client_index(self.entries(), id@);
        }
        let mut j: usize = self.sessions.len();
        assert(self.sessions@.subrange(0, j as int) =~= self.sessions@);
        while j > 0
            invariant
                j <= self.sessions@.len(),
                client_index(self.sessions@, id@) == client_index(self.sessions@.subrange(0, j as int), id@),
            decreases j,
        {
            assert(self.sessions@.subrange(0, j as int).drop_last() =~= self.sessions@.subrange(0, j - 1));
            if str_eq(self.sessions[j - 1].id.as_str(), id) {
                return Some(j - 1);
            }
            j = j - 1;
        }
        None
    }

    /// Starts tracking a requested stream (replacing any stream with the same
    /// id): no frames yet, empty object data, not complete.
    pub fn open_session(&mut self, id: String, now_ms: u64)
        ensures
            client_index(final(self).entries(), id@) matches Some(i) && final(self).entries()[i].id@ == id@
                && final(self).entries()[i].created_at_ms == now_ms
                && final(self).entries()[i].received_frames@.len() == 0
                && (final(self).entries()[i].reconstructed_data matches JsonData::Object(m) && m@.len() == 0)
                && !final(self).entries()[i].is_complete,
    {
        let session = ClientStreamSession {
            id,
            created_at_ms: now_ms,
            received_frames: Vec::new(),
            reconstructed_data: JsonData::Object(Vec::new()),
            is_complete: false,
        };
        match self.find(session.id.as_str()) {
            Some(i) => {
                let ghost s0 = self.sessions@;
                let ghost sid = session.id@;
                self.sessions.set(i, session);
                proof {
                    lemma_client_index(s0, sid);
                    lemma_client_index_at(self.sessions@, sid, i as int);
                }
            },
            None => {
                let ghost s0 = self.sessions@;
                let ghost sid = session.id@;
                self.sessions.push(session);
                proof {
                    lemma_client_index_at(self.sessions@, sid, s0.len() as int);
                }
            },
        }
    }
}

/// The session entry after a frame arrived at `start` and was processed at `end`.
pub open spec fn after_frame(
    old_e: ClientStreamSession,
    new_e: ClientStreamSession,
    frame_id: u32,
    payload: JsonData,
    complete: bool,
    start: u64,
    end: u64,
) -> bool {
    &&& new_e.id == old_e.id
    &&& new_e.created_at_ms == old_e.created_at_ms
    &&& new_e.received_frames@ == record_frame(
        old_e.received_frames@,
        ReceivedFrame { frame_id, received_at_ms: start, processed_at_ms: Some(end) },
    )
    &&& merge_result(old_e.reconstructed_data, new_e.reconstructed_data, payload)
    &&& new_e.is_complete == (old_e.is_complete || complete)
}

impl ClientSessions {
    /// Handles a message from the server and returns the reply to send, if any.
    ///
    /// A frame for a tracked stream is recorded (received at `start_ms`, processed
    /// at `end_ms`), merged into the reconstructed data, and marks the stream
    /// complete when it says so; every frame is acknowledged with its processing
    /// time. A completion message marks its stream complete. A ping is answered
    /// with a pong carrying the same timestamp. Nothing else changes anything.
    pub fn handle_incoming_message(&mut self, message: WsMessage, start_ms: u64, end_ms: u64) -> (r: Option<WsMessage>)
        requires
            start_ms <= end_ms,
        ensures
            match message {
                WsMessage::StreamFrame { session_id, frame_id, priority: _, payload, is_complete } => {
                    &&& r matches Some(WsMessage::FrameAck { session_id: s, frame_id: f, processing_time_ms: t })
                        && s@ == session_id@ && f == frame_id && t == end_ms - start_ms
                    &&& match client_index(old(self).entries(), session_id@) {
                        Some(i) => final(self).entries().len() == old(self).entries().len()
                            && (forall|j: int| 0 <= j < old(self).entries().len() && j != i ==> #[trigger] final(self).entries()[j]
                                == old(self).entries()[j])
                            && after_frame(old(self).entries()[i], final(self).entries()[i], frame_id, payload, is_complete, start_ms, end_ms),
                        None => final(self).entries() == old(self).entries(),
                    }
                },
                WsMessage::StreamComplete { session_id, checksum: _ } => {
                    &&& r is None
                    &&& match client_index(old(self).entries(), session_id@) {
                        Some(i) => final(self).entries().len() == old(self).entries().len()
                            && (forall|j: int| 0 <= j < old(self).entries().len() && j != i ==> #[trigger] final(self).entries()[j]
                                == old(self).entries()[j])
                            && final(self).entries()[i].is_complete
                            && final(self).entries()[i].id == old(self).entries()[i].id
                            && final(self).entries()[i].received_frames == old(self).entries()[i].received_frames
                            && final(self).entries()[i].reconstructed_data == old(self).entries()[i].reconstructed_data,
                        None => final(self).entries() == old(self).entries(),
                    }
                },
                WsMessage::Ping { timestamp } => (r matches Some(WsMessage::Pong { timestamp: t }) && t == timestamp)
                    && final(self).entries() == old(self).entries(),
                _ => r is None && final(self).entries() == old(self).entries(),
            },
    {
        match message {
            WsMessage::StreamFrame { session_id, frame_id, priority: _, payload, is_complete } => {
                match self.find(session_id.as_str()) {
                    Some(i) => {
                        let ghost s0 = self.sessions@;
                        let mut e = self.sessions.remove(i);
                        record_frame_exec(
                            &mut e.received_frames,
                            ReceivedFrame { frame_id, received_at_ms: start_ms, processed_at_ms: Some(end_ms) },
                        );
                        apply_frame_to_data(&mut e.reconstructed_data, payload);
                        if is_complete {
                            e.is_complete = true;
                        }
                        self.sessions.insert(i, e);
                        assert(self.sessions@ =~= s0.update(i as int, self.sessions@[i as int]));
                    },
                    None => {},
                }
                Some(WsMessage::FrameAck { session_id, frame_id, processing_time_ms: end_ms - start_ms })
            },
            WsMessage::StreamComplete { session_id, checksum: _ } => {
                match self.find(session_id.as_str()) {
                    Some(i) => {
                        let ghost s0 = self.sessions@;
                        let mut e = self.sessions.remove(i);
                        e.is_complete = true;
                        self.sessions.insert(i, e);
                        assert(self.sessions@ =~= s0.update(i as int, self.sessions@[i as int]));
                    },
                    None => {},
                }
                None
            },
            WsMessage::Ping { timestamp } => Some(WsMessage::Pong { timestamp }),
            _ => None,
        }
    }

    /// Whether a tracked stream is complete (`false` for an unknown stream).
    pub fn is_stream_complete(&self, session_id: &str) -> (r: bool)
        ensures
            r == match client_index(self.entries(), session_id@) {
                Some(i) => self.entries()[i].is_complete,
                None => false,
            },
    {
        match self.find(session_id) {
            Some(i) => self.sessions[i].is_complete,
            None => false,
        }
    }

    /// The data reconstructed so far for a tracked stream.
    pub fn current_data(&self, session_id: &str) -> (r: Option<&JsonData>)
        ensures
            match client_index(self.entries(), session_id@) {
                Some(i) => r == Some(&self.entries()[i].reconstructed_data),
                None => r is None,
            },
    {
        match self.find(session_id) {
            Some(i) => Some(&self.sessions[i].reconstructed_data),
            None => None,
        }
    }

    /// Statistics of a tracked stream at `now_ms`: frames received and processed,
    /// completion, time since the request, and the average processing time of the
    /// processed frames (whole milliseconds, rounded down).
    pub fn stream_stats(&self, session_id: &str, now_ms: u64) -> (r: Option<StreamStats>)
        ensures
            match client_index(self.entries(), session_id@) {
                Some(i) => r matches Some(st) && st.session_id@ == self.entries()[i].id@
                    && st.total_frames == self.entries()[i].received_frames@.len()
                    && st.processed_frames == processed_count(self.entries()[i].received_frames@)
                    && st.is_complete == self.entries()[i].is_complete
                    && st.duration_ms == (if now_ms >= self.entries()[i].created_at_ms {
                        now_ms - self.entries()[i].created_at_ms
                    } else {
                        0
                    })
                    && st.average_processing_time_ms == (if st.processed_frames > 0 {
                        Some(
                            (processing_total(self.entries()[i].received_frames@) / (st.processed_frames as nat))
                                as u64,
                        )
                    } else {
                        None
                    }),
                None => r is None,
            },
    {
        match self.find(session_id) {
            None => None,
            Some(i) => {
                let s = &self.sessions[i];
                let frames = &s.received_frames;
                let n = frames.len();
                let mut processed: usize = 0;
                let mut total: u128 = 0;
                let mut k: usize = 0;
                while k < n
                    invariant
                        n == frames@.len(),
                        k <= n,
                        processed == processed_count(frames@.subrange(0, k as int)),
                        total == processing_total(frames@.subrange(0, k as int)),
                        processed <= k,
                        total <= processed * 0xffff_ffff_ffff_ffffu128,
                    decreases n - k,
                {
                    proof {
                        let t = frames@.subrange(0, k + 1);
                        assert(t.drop_last() =~= frames@.subrange(0, k as int));
                        assert(t.last() == frames@[k as int]);
                    }
                    let f = frames[k];
                    match f.processed_at_ms {
                        Some(p) => {
                            processed = processed + 1;
                            if p >= f.received_at_ms {
                                total = total + ((p - f.received_at_ms) as u128);
                            }
                        },
                        None => {},
                    }
                    k = k + 1;
                }
                assert(frames@.subrange(0, n as int) =~= frames@);
                let average = if processed > 0 {
                    let avg = total / (processed as u128);
                    proof {
                        let pp = processed as int;
                        let tt = total as int;
                        assert(tt / pp <= 0xffff_ffff_ffff_ffff) by (nonlinear_arith)
                            requires
                                pp > 0,
                                tt <= pp * 0xffff_ffff_ffff_ffff,
                                tt >= 0,
                        ;
                    }
                    Some(avg as u64)
                } else {
                    None
                };
                let duration = if now_ms >= s.created_at_ms {
                    now_ms - s.created_at_ms
                } else {
                    0
                };
                Some(
                    StreamStats {
                        session_id: s.id.clone(),
                        total_frames: n,
                        processed_frames: processed,
                        is_complete: s.is_complete,
                        duration_ms: duration,
                        average_processing_time_ms: average,
                    },
                )
            },
        }
    }
}

/// A request for a new stream of `data`: a fresh (version 4 UUID) session id and
/// the `StreamInit` message carrying it (default options when none are given).
/// Fails only when the system random source fails.
pub fn stream_request(data: JsonData, options: Option<StreamOptions>) -> (r: Result<
    (String, WsMessage),
    RandomSourceError,
>)
    ensures
        r matches Ok(p) ==> {
            &&& p.1 matches WsMessage::StreamInit { session_id, data: d, options: o } && session_id@ == p.0@
                && d == data && match options {
                Some(op) => o == op,
                None => o.max_frame_size == 65536 && o.client_fps is None && o.compression
                    && o.priority_mapping is None,
            }
            &&& exists|v: u128| is_uuid_v4(v) && p.0@ == uuid_hyphenated(v)
        },
{
    let sid = match SessionId::new() {
        Ok(sid) => sid,
        Err(e) => {
            return Err(e);
        },
    };
    let id = sid.to_string();
    assert(is_uuid_v4(sid.0) && id@ == uuid_hyphenated(sid.0));
    let opts = match options {
        Some(o) => o,
        None => StreamOptions::default(),
    };
    let copy = id.clone();
    Ok((id, WsMessage::StreamInit { session_id: copy, data, options: opts }))
}

} // verus!
