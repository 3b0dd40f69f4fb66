//! The streaming sessions of the adaptive WebSocket stream controller: their
//! frame plans, acknowledgements, start, removal and expiry.
use vstd::prelude::*;
use vstd::string::*;
use crate::framework::JsonData;
use crate::ids::{is_uuid_v4, uuid_hyphenated, SessionId};
use crate::json::{duplicate_json, json_text};
use crate::keyed::TextMap;
use crate::ws_protocol::{
    plan_payload_bytes, plan_stream_messages, stream_checksum, is_complete_message, PlannedFrame,
    StreamOptions, WsMessage,
};

verus! {

/// Priority of the frame that a new session's plan holds.
pub const HIGH_PRIORITY: u8 = 80;

/// One stream served over WebSocket.
#[derive(Debug)]
pub struct StreamSessionState {
    /// When the session was created (milliseconds of the caller's monotonic clock).
    pub created_at_ms: u64,
    /// The options the client asked for.
    pub options: StreamOptions,
    /// The frames to stream.
    pub plan: Vec<PlannedFrame>,
    /// Frames the client acknowledged, in order of acknowledgement.
    pub acknowledged_frames: Vec<u32>,
    /// Whether streaming was started.
    pub streaming: bool,
}

/// Errors of the session table.
#[derive(Debug, Clone, PartialEq, Eq)]
pub enum StreamSessionError {
    /// No session has this id.
    InvalidSession(String),
    /// The system random source failed, so no session id could be drawn.
    RandomSourceFailed,
}

/// Whether `m` is the frame message numbered `id` of session `sid` carrying a
/// copy of planned frame `f`, complete when `last`.
pub open spec fn is_frame_copy(m: WsMessage, sid: Seq<char>, id: int, f: PlannedFrame, last: bool) -> bool {
    match m {
        WsMessage::StreamFrame { session_id, frame_id, priority, payload, is_complete } => {
            &&& session_id@ == sid
            &&& frame_id == id
            &&& priority == f.priority
            &&& json_text(payload) == json_text(f.data)
            &&& is_complete == last
        },
        _ => false,
    }
}

/// Whether a session created at `created` has outlived `max_age` at `now`
/// (elapsed time saturating at zero).
pub open spec fn expired(created: u64, now: u64, max_age: u64) -> bool {
    (if now >= created { now - created } else { 0 }) > max_age
}

/// Whether some of the first `n` strings of `v` is `k`.
pub open spec fn listed(v: Seq<String>, n: int, k: Seq<char>) -> bool {
    exists|j: int| 0 <= j < n && (#[trigger] v[j])@ == k
}

/// The sessions of `m` that have not expired.
pub open spec fn live_sessions(m: Map<Seq<char>, StreamSessionState>, now: u64, max_age: u64) -> Map<
    Seq<char>,
    StreamSessionState,
> {
    m.restrict(m.dom().filter(|k: Seq<char>| !expired(m[k].created_at_ms, now, max_age)))
}

/// The sessions of a stream controller.
#[derive(Debug)]
pub struct StreamSessions {
    sessions: TextMap<StreamSessionState>,
}

impl StreamSessions {
    /// The sessions by id.
    pub closed spec fn view_map(&self) -> Map<Seq<char>, StreamSessionState> {
        self.sessions.view_map()
    }

    /// The table's invariant: no id twice, and every plan numbers its frames in
    /// a `u32`.
    pub closed spec fn wf(&self) -> bool {
        &&& self.sessions.wf()
        &&& forall|k: Seq<char>| #[trigger]
            self.sessions.view_map().dom().contains(k) ==> self.sessions.view_map()[k].plan@.len() <= u32::MAX
    }

    /// No sessions.
    pub fn new() -> (r: Self)
        ensures
            r.wf(),
            r.view_map() == Map::<Seq<char>, StreamSessionState>::empty(),
    {
        StreamSessions { sessions: TextMap::new() }
    }

    /// Number of sessions.
    pub fn session_count(&self) -> (r: usize)
        requires
            self.wf(),
        ensures
            r == self.view_map().dom().len(),
    {
        self.sessions.len()
    }

    /// Whether a session has this id.
    pub fn contains(&self, id: &str) -> (r: bool)
        requires
            self.wf(),
        ensures
            r == self.view_map().dom().contains(id@),
    {
        self.sessions.contains_key(id)
    }

    /// Creates a session under a fresh random (version 4) UUID and returns its id.
    /// Its plan is one frame of priority [`HIGH_PRIORITY`] carrying `data`;
    /// nothing is acknowledged and streaming has not started. Fails, changing
    /// nothing, only when the system random source fails.
    pub fn create_session(&mut self, data: JsonData, options: StreamOptions, now_ms: u64) -> (r: Result<
        String,
        StreamSessionError,
    >)
        requires
            old(self).wf(),
        ensures
            final(self).wf(),
            r is Err ==> r == Err::<String, StreamSessionError>(StreamSessionError::RandomSourceFailed)
                && final(self).view_map() == old(self).view_map(),
            r matches Ok(id) ==> {
                &&& exists|v: u128| is_uuid_v4(v) && id@ == uuid_hyphenated(v)
                &&& final(self).view_map().dom() == old(self).view_map().dom().insert(id@)
                &&& forall|k: Seq<char>| k != id@ && #[trigger] old(self).view_map().dom().contains(k)
                    ==> final(self).view_map()[k] == old(self).view_map()[k]
                &&& final(self).view_map()[id@].created_at_ms == now_ms
                &&& final(self).view_map()[id@].options == options
                &&& final(self).view_map()[id@].plan@.len() == 1
                &&& final(self).view_map()[id@].plan@[0].data == data
                &&& final(self).view_map()[id@].plan@[0].priority == HIGH_PRIORITY
                &&& final(self).view_map()[id@].acknowledged_frames@.len() == 0
                &&& !final(self).view_map()[id@].streaming
            },
    {
        let sid = match SessionId::new() {
            Ok(sid) => sid,
            Err(_) => {
                return Err(StreamSessionError::RandomSourceFailed);
            },
        };
        let id = sid.to_string();
        assert(is_uuid_v4(sid.0) && id@ == uuid_hyphenated(sid.0));
        let mut plan: Vec<PlannedFrame> = Vec::new();
        plan.push(PlannedFrame { data, priority: HIGH_PRIORITY });
        let st = StreamSessionState {
            created_at_ms: now_ms,
            options,
            plan,
            acknowledged_frames: Vec::new(),
            streaming: false,
        };
        let ghost old_map = self.sessions.view_map();
        let key = id.clone();
        let _ = self.sessions.insert(key, st);
        proof {
            assert(self.sessions.view_map().dom() =~= old_map.dom().insert(id@));
        }
        Ok(id)
    }

    /// Starts streaming a session: returns the messages to send, in order (one
    /// frame per planned frame, numbered from 0 with the last marked complete,
    /// then the completion with the checksum of the frames' JSON bytes), and
    /// whether streaming had already been started (so that the earlier run is to
    /// be cancelled). An unknown id is refused.
    pub fn start_streaming(&mut self, id: &str) -> (r: Result<(Vec<WsMessage>, bool), StreamSessionError>)
        requires
            old(self).wf(),
        ensures
            final(self).wf(),
            !old(self).view_map().dom().contains(id@) ==> (r matches Err(StreamSessionError::InvalidSession(m))
                && m@ == id@) && final(self).view_map() == old(self).view_map(),
            old(self).view_map().dom().contains(id@) ==> ({
                let st = old(self).view_map()[id@];
                let n = st.plan@.len();
                &&& r matches Ok((msgs, was)) && was == st.streaming && msgs@.len() == n + 1
                    && (forall|i: int| 0 <= i < n ==> is_frame_copy(#[trigger] msgs@[i], id@, i, st.plan@[i], i == n - 1))
                    && is_complete_message(msgs@[n as int], id@, stream_checksum(plan_payload_bytes(st.plan@)))
                &&& final(self).view_map().dom() == old(self).view_map().dom()
                &&& forall|k: Seq<char>| k != id@ && #[trigger] old(self).view_map().dom().contains(k) ==> final(self).view_map()[k]
                    == old(self).view_map()[k]
                &&& final(self).view_map()[id@] == StreamSessionState { streaming: true, ..st }
            }),
    {
        let ghost old_map = self.sessions.view_map();
        let removed = self.sessions.remove(id);
        let mut st = match removed {
            Some(st) => st,
            None => {
                return Err(StreamSessionError::InvalidSession(String::from_str(id)));
            },
        };
        let ghost st0 = st;
        let n = st.plan.len();
        let mut copies: Vec<PlannedFrame> = Vec::new();
        let mut i: usize = 0;
        while i < n
            invariant
                n == st.plan@.len(),
                st == st0,
                i <= n,
                copies@.len() == i,
                forall|j: int| 0 <= j < i ==> (#[trigger] copies@[j]).priority == st.plan@[j].priority
                    && json_text(copies@[j].data) == json_text(st.plan@[j].data),
            decreases n - i,
        {
            let d = duplicate_json(&st.plan[i].data);
            copies.push(PlannedFrame { data: d, priority: st.plan[i].priority });
            i = i + 1;
        }
        let ghost cv = copies@;
        proof {
            assert(plan_payload_bytes(cv) =~= plan_payload_bytes(st0.plan@));
        }
        let was = st.streaming;
        st.streaming = true;
        let ghost st1 = st;
        let _ = self.sessions.insert(String::from_str(id), st);
        proof {
            assert(self.sessions.view_map() =~= old_map.remove(id@).insert(id@, st1));
            assert(self.sessions.view_map() =~= old_map.insert(id@, st1));
            assert forall|k: Seq<char>| #[trigger] self.sessions.view_map().dom().contains(k) implies self.sessions.view_map()[k].plan@.len()
                <= u32::MAX by {
                if k != id@ {
                    assert(old_map.dom().contains(k));
                }
            }
        }
        let msgs = plan_stream_messages(id, copies);
        proof {
            assert forall|j: int| 0 <= j < n implies is_frame_copy(#[trigger] msgs@[j], id@, j, st0.plan@[j], j == n - 1) by {
                assert(cv[j].priority == st0.plan@[j].priority);
            }
        }
        Ok((msgs, was))
    }

    /// Records a frame acknowledgement of a session; an unknown id is refused.
    pub fn handle_frame_ack(&mut self, id: &str, frame_id: u32) -> (r: Result<(), StreamSessionError>)
        requires
            old(self).wf(),
        ensures
            final(self).wf(),
            !old(self).view_map().dom().contains(id@) ==> (r matches Err(StreamSessionError::InvalidSession(m))
                && m@ == id@) && final(self).view_map() == old(self).view_map(),
            old(self).view_map().dom().contains(id@) ==> r is Ok && final(self).view_map() == old(self).view_map().insert(
                id@,
                StreamSessionState {
                    acknowledged_frames: final(self).view_map()[id@].acknowledged_frames,
                    ..old(self).view_map()[id@]
                },
            ) && final(self).view_map()[id@].acknowledged_frames@ == old(self).view_map()[id@].acknowledged_frames@.push(
                frame_id,
            ),
    {
        let ghost old_map = self.sessions.view_map();
        let removed = self.sessions.remove(id);
        let mut st = match removed {
            Some(st) => st,
            None => {
                return Err(StreamSessionError::InvalidSession(String::from_str(id)));
            },
        };
        st.acknowledged_frames.push(frame_id);
        let ghost st1 = st;
        let _ = self.sessions.insert(String::from_str(id), st);
        proof {
            assert(self.sessions.view_map() =~= old_map.insert(id@, st1));
            assert forall|k: Seq<char>| #[trigger] self.sessions.view_map().dom().contains(k) implies self.sessions.view_map()[k].plan@.len()
                <= u32::MAX by {
                if k != id@ {
                    assert(old_map.dom().contains(k));
                }
            }
        }
        Ok(())
    }

    /// Removes a session; `true` when it existed. Removing again is a no-op that
    /// returns `false`.
    pub fn remove_session(&mut self, id: &str) -> (r: bool)
        requires
            old(self).wf(),
        ensures
            final(self).wf(),
            r == old(self).view_map().dom().contains(id@),
            final(self).view_map() == old(self).view_map().remove(id@),
    {
        let removed = self.sessions.remove(id);
        removed.is_some()
    }

    /// Removes every session older than `max_age_ms` at `now_ms` and returns the
    /// ids removed.
    pub fn cleanup_expired_sessions(&mut self, max_age_ms: u64, now_ms: u64) -> (r: Vec<String>)
        requires
            old(self).wf(),
        ensures
            final(self).wf(),
            final(self).view_map() == live_sessions(old(self).view_map(), now_ms, max_age_ms),
            forall|k: Seq<char>|
                #[trigger] listed(r@, r@.len() as int, k) <==> (old(self).view_map().dom().contains(k) && expired(
                    old(self).view_map()[k].created_at_ms,
                    now_ms,
                    max_age_ms,
                )),
    {
        let ghost m0 = self.sessions.view_map();
        let keys = self.sessions.keys();
        let mut removed: Vec<String> = Vec::new();
        let mut i: usize = 0;
        while i < keys.len()
            invariant
                self.wf(),
                i <= keys@.len(),
                forall|k: Seq<char>| #[trigger] m0.dom().contains(k) <==> listed(keys@, keys@.len() as int, k),
                forall|a: int, b: int|
                    0 <= a < keys@.len() && 0 <= b < keys@.len() && a != b ==> (#[trigger] keys@[a])@ != (
                    #[trigger] keys@[b])@,
                forall|k: Seq<char>| #[trigger]
                    self.sessions.view_map().dom().contains(k) ==> m0.dom().contains(k) && self.sessions.view_map()[k]
                        == m0[k],
                forall|k: Seq<char>|
                    m0.dom().contains(k) ==> (#[trigger] self.sessions.view_map().dom().contains(k) <==> (!listed(
                        keys@,
                        i as int,
                        k,
                    ) || !expired(m0[k].created_at_ms, now_ms, max_age_ms))),
                forall|k: Seq<char>| #[trigger]
                    listed(removed@, removed@.len() as int, k) <==> (m0.dom().contains(k) && listed(keys@, i as int, k)
                        && expired(m0[k].created_at_ms, now_ms, max_age_ms)),
            decreases keys@.len() - i,
        {
            let key = &keys[i];
            let ghost kv = key@;
            let ghost r0 = removed@;
            let ghost cur0 = self.sessions.view_map();
            proof {
                assert(listed(keys@, keys@.len() as int, kv));
                assert(m0.dom().contains(kv));
                assert(!listed(keys@, i as int, kv)) by {
                    if listed(keys@, i as int, kv) {
                        let j = choose|j: int| 0 <= j < i && (#[trigger] keys@[j])@ == kv;
                        assert(keys@[j]@ != keys@[i as int]@);
                    }
                }
                assert(cur0.dom().contains(kv));
            }
            let created = match self.sessions.get(key.as_str()) {
                Some(st) => Some(st.created_at_ms),
                None => None,
            };
            match created {
                Some(c) => {
                    let age: u64 = if now_ms >= c {
                        now_ms - c
                    } else {
                        0
                    };
                    if age > max_age_ms {
                        let _ = self.sessions.remove(key.as_str());
                        removed.push(key.clone());
                    }
                },
                None => {},
            }
            proof {
                let ex = expired(m0[kv].created_at_ms, now_ms, max_age_ms);
                assert(cur0[kv] == m0[kv]);
                if ex {
                    assert(removed@ == r0.push(keys@[i as int]));
                    assert(self.sessions.view_map() == cur0.remove(kv));
                } else {
                    assert(removed@ == r0);
                    assert(self.sessions.view_map() == cur0);
                }
                assert forall|k: Seq<char>| #[trigger]
                    listed(removed@, removed@.len() as int, k) <==> (m0.dom().contains(k) && listed(
                        keys@,
                        i + 1,
                        k,
                    ) && expired(m0[k].created_at_ms, now_ms, max_age_ms)) by {
                    assert(listed(keys@, i + 1, k) <==> (listed(keys@, i as int, k) || k == kv)) by {
                        if listed(keys@, i + 1, k) {
                            let j = choose|j: int| 0 <= j < i + 1 && (#[trigger] keys@[j])@ == k;
                            if j < i {
                                assert(listed(keys@, i as int, k));
                            }
                        }
                        if listed(keys@, i as int, k) {
                            let j = choose|j: int| 0 <= j < i && (#[trigger] keys@[j])@ == k;
                            assert(0 <= j < i + 1);
                        }
                        if k == kv {
                            assert(keys@[i as int]@ == k);
                        }
                    }
                    assert(listed(removed@, removed@.len() as int, k) <==> (listed(r0, r0.len() as int, k) || (ex
                        && k == kv))) by {
                        if listed(removed@, removed@.len() as int, k) {
                            let j = choose|j: int| 0 <= j < removed@.len() && (#[trigger] removed@[j])@ == k;
                            if j < r0.len() {
                                assert(removed@[j] == r0[j]);
                                assert(listed(r0, r0.len() as int, k));
                            }
                        }
                        if listed(r0, r0.len() as int, k) {
                            let j = choose|j: int| 0 <= j < r0.len() && (#[trigger] r0[j])@ == k;
                            assert(removed@[j] == r0[j]);
                        }
                        if ex && k == kv {
                            assert(removed@[r0.len() as int]@ == k);
                        }
                    }
                }
                assert forall|k: Seq<char>|
                    m0.dom().contains(k) implies (#[trigger] self.sessions.view_map().dom().contains(k) <==> (!listed(
                        keys@,
                        i + 1,
                        k,
                    ) || !expired(m0[k].created_at_ms, now_ms, max_age_ms))) by {
                    assert(listed(keys@, i + 1, k) <==> (listed(keys@, i as int, k) || k == kv)) by {
                        if listed(keys@, i + 1, k) {
                            let j = choose|j: int| 0 <= j < i + 1 && (#[trigger] keys@[j])@ == k;
                            if j < i {
                                assert(listed(keys@, i as int, k));
                            }
                        }
                        if listed(keys@, i as int, k) {
                            let j = choose|j: int| 0 <= j < i && (#[trigger] keys@[j])@ == k;
                            assert(0 <= j < i + 1);
                        }
                        if k == kv {
                            assert(keys@[i as int]@ == k);
                        }
                    }
                }
            }
            i = i + 1;
        }
        proof {
            assert forall|k: Seq<char>| m0.dom().contains(k) implies listed(keys@, keys@.len() as int, k) by {}
            assert(self.sessions.view_map() =~= live_sessions(m0, now_ms, max_age_ms));
        }
        removed
    }
}

/// Removing a session twice: the first removal reports it, the second finds
/// nothing and leaves the table as the first left it.
pub proof fn lemma_remove_twice(m: Map<Seq<char>, StreamSessionState>, id: Seq<char>)
    ensures
        !m.remove(id).dom().contains(id),
        m.remove(id).remove(id) == m.remove(id),
{
    assert(m.remove(id).remove(id) =~= m.remove(id));
}

} // verus!
