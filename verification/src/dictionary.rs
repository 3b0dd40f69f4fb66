//! Per-session dictionary training store: accumulates training samples per session
//! under a per-sample cap and a process-wide byte budget, hands out one training
//! job when a session's corpus is full, keeps the first dictionary a session gets,
//! and evicts idle sessions.
//!
//! Training itself (and the clock) is outside work: [`InMemoryDictionaryStore::train_if_ready`]
//! returns a [`TrainingJob`], the caller trains, and hands the result back to
//! [`InMemoryDictionaryStore::finish_training`].
use vstd::prelude::*;
use crate::ids::SessionId;

verus! {

/// Number of samples a session's corpus collects before training.
pub const N_TRAIN: usize = 32;
/// Largest dictionary size, in bytes (112 KiB).
pub const MAX_DICT_SIZE: usize = 114688;
/// Largest accepted training sample, in bytes (1 MiB); larger samples are skipped.
pub const MAX_TRAINING_SAMPLE_SIZE: usize = 1048576;
/// Process-wide cap on bytes reserved for corpora not yet trained (128 MiB).
pub const TOTAL_CORPUS_BYTE_BUDGET: usize = 134217728;
/// Idle time after which a session's state is evicted, in milliseconds (30 min).
pub const SESSION_TTL_MILLIS: u64 = 1800000;
/// Interval between periodic evictions, in milliseconds (5 min).
pub const SESSION_CLEANUP_INTERVAL_MILLIS: u64 = 300000;

/// `counter - amount`, saturating at zero.
pub open spec fn released(counter: usize, amount: usize) -> usize {
    if amount >= counter {
        0
    } else {
        (counter - amount) as usize
    }
}

/// Releases `amount` bytes from a corpus-budget counter, saturating at zero rather
/// than wrapping (the counter may have been resynchronized to a smaller value in
/// the meantime).
pub fn release_corpus_bytes(corpus_bytes_in_flight: &mut usize, amount: usize)
    ensures
        *final(corpus_bytes_in_flight) == released(*old(corpus_bytes_in_flight), amount),
{
    if amount == 0 {
        return;
    }
    *corpus_bytes_in_flight = corpus_bytes_in_flight.saturating_sub(amount);
}

/// A reservation of corpus bytes against the global budget, released exactly once,
/// by exactly the amount captured when it was taken.
#[derive(Debug)]
pub struct CorpusBudgetReservation {
    /// The reserved byte count.
    pub reserved: usize,
}

impl CorpusBudgetReservation {
    /// A reservation of `reserved` bytes.
    pub fn new(reserved: usize) -> (r: Self)
        ensures
            r.reserved == reserved,
    {
        CorpusBudgetReservation { reserved }
    }

    /// Gives the reserved bytes back to the counter (saturating), consuming the
    /// reservation so that it cannot be released twice.
    pub fn release(self, corpus_bytes_in_flight: &mut usize)
        ensures
            *final(corpus_bytes_in_flight) == released(*old(corpus_bytes_in_flight), self.reserved),
    {
        release_corpus_bytes(corpus_bytes_in_flight, self.reserved);
    }
}

/// Per-session corpus and training state.
#[derive(Debug)]
pub struct SessionDictState {
    /// Samples collected since the last snapshot.
    pub corpus: Vec<Vec<u8>>,
    /// The session's dictionary, once registered or trained.
    pub dict: Option<Vec<u8>>,
    /// Time of the last access, in milliseconds of the caller's monotonic clock.
    pub last_access: u64,
    /// Bytes of `corpus` reserved against the global budget.
    pub pending_corpus_bytes: usize,
}

/// A session's state as plain values.
#[verifier::ext_equal]
pub struct SessionView {
    pub corpus: Seq<Seq<u8>>,
    pub dict: Option<Seq<u8>>,
    pub last_access: u64,
    pub pending_corpus_bytes: usize,
}

/// The plain-value view of a session's state.
pub open spec fn session_view(st: SessionDictState) -> SessionView {
    SessionView {
        corpus: st.corpus@.map_values(|v: Vec<u8>| v@),
        dict: match st.dict {
            Some(d) => Some(d@),
            None => None,
        },
        last_access: st.last_access,
        pending_corpus_bytes: st.pending_corpus_bytes,
    }
}

/// A tracked session.
#[derive(Debug)]
pub struct SessionEntry {
    /// The session.
    pub id: SessionId,
    /// Its state.
    pub state: SessionDictState,
}

/// Errors of the dictionary store.
#[derive(Debug, Clone, PartialEq, Eq)]
pub enum DictionaryError {
    /// The dictionary is larger than the configured byte cap.
    Rejected { size: usize, max: usize },
    /// Training failed with the given message.
    TrainingFailed(String),
}

/// A corpus snapshot to train a dictionary from.
#[derive(Debug)]
pub struct TrainingJob {
    /// The session the dictionary is for.
    pub session_id: SessionId,
    /// The samples, in the order they were admitted.
    pub samples: Vec<Vec<u8>>,
    /// Target dictionary size, in bytes.
    pub target_dict_size: usize,
    /// Budget bytes held until training finishes.
    pub reservation: CorpusBudgetReservation,
}

/// Index of the entry for `id` (the last one; ids are unique), or -1.
pub open spec fn find_index(s: Seq<SessionEntry>, id: SessionId) -> int
    decreases s.len(),
{
    if s.len() == 0 {
        -1
    } else if s.last().id == id {
        s.len() - 1
    } else {
        find_index(s.drop_last(), id)
    }
}

/// Whether no session appears twice.
pub open spec fn unique_ids(s: Seq<SessionEntry>) -> bool {
    forall|i: int, j: int|
        0 <= i < s.len() && 0 <= j < s.len() && i != j ==> (#[trigger] s[i]).id != (#[trigger] s[j]).id
}

/// Whether two entry lists hold the same sessions at the same positions.
pub open spec fn same_ids(a: Seq<SessionEntry>, b: Seq<SessionEntry>) -> bool {
    a.len() == b.len() && forall|i: int| 0 <= i < a.len() ==> (#[trigger] a[i]).id == b[i].id
}

proof fn lemma_find_index(s: Seq<SessionEntry>, id: SessionId)
    ensures
        -1 <= find_index(s, id) < s.len(),
        find_index(s, id) >= 0 ==> s[find_index(s, id)].id == id,
        find_index(s, id) == -1 ==> forall|i: int| 0 <= i < s.len() ==> (#[trigger] s[i]).id != id,
        unique_ids(s) ==> forall|i: int| 0 <= i < s.len() && (#[trigger] s[i]).id == id ==> find_index(s, id) == i,
    decreases s.len(),
{
    if s.len() > 0 {
        lemma_find_index(s.drop_last(), id);
        if s.last().id != id {
            assert forall|i: int| 0 <= i < s.len() - 1 implies #[trigger] s[i] == s.drop_last()[i] by {}
        }
    }
}

proof fn lemma_find_index_same_ids(a: Seq<SessionEntry>, b: Seq<SessionEntry>, id: SessionId)
    requires
        same_ids(a, b),
    ensures
        find_index(a, id) == find_index(b, id),
    decreases a.len(),
{
    if a.len() > 0 {
        assert(same_ids(a.drop_last(), b.drop_last()));
        lemma_find_index_same_ids(a.drop_last(), b.drop_last(), id);
    }
}

proof fn lemma_find_index_push(s: Seq<SessionEntry>, e: SessionEntry, id: SessionId)
    ensures
        find_index(s.push(e), id) == if e.id == id { s.len() as int } else { find_index(s, id) },
{
    assert(s.push(e).drop_last() =~= s);
}

/// The state of `id` in the entry list, as plain values.
pub open spec fn lookup(s: Seq<SessionEntry>, id: SessionId) -> Option<SessionView> {
    if find_index(s, id) >= 0 {
        Some(session_view(s[find_index(s, id)].state))
    } else {
        None
    }
}

/// Sum of the pending bytes of the entries.
pub open spec fn pending_total(s: Seq<SessionEntry>) -> nat
    decreases s.len(),
{
    if s.len() == 0 {
        0
    } else {
        pending_total(s.drop_last()) + (s.last().state.pending_corpus_bytes as nat)
    }
}

/// Whether an entry survives eviction at `now` with `ttl`: its idle time
/// (saturating at zero) is below the TTL.
pub open spec fn is_fresh(last_access: u64, now: u64, ttl: u64) -> bool {
    (if now >= last_access { now - last_access } else { 0 }) < ttl
}

/// The entries that survive eviction, in order.
pub open spec fn fresh_entries(s: Seq<SessionEntry>, now: u64, ttl: u64) -> Seq<SessionEntry>
    decreases s.len(),
{
    if s.len() == 0 {
        Seq::empty()
    } else {
        let rest = fresh_entries(s.drop_last(), now, ttl);
        if is_fresh(s.last().state.last_access, now, ttl) {
            rest.push(s.last())
        } else {
            rest
        }
    }
}

/// Per-entry bounds: fewer than [`N_TRAIN`] pending samples, each within
/// [`MAX_TRAINING_SAMPLE_SIZE`] on average.
pub open spec fn entry_ok(e: SessionEntry) -> bool {
    &&& e.state.corpus@.len() < N_TRAIN
    &&& e.state.pending_corpus_bytes <= e.state.corpus@.len() * MAX_TRAINING_SAMPLE_SIZE
}

/// The smaller of two sizes.
pub open spec fn min_usize(a: usize, b: usize) -> usize {
    if a <= b {
        a
    } else {
        b
    }
}

/// In-memory dictionary store.
pub struct InMemoryDictionaryStore {
    sessions: Vec<SessionEntry>,
    max_dictionary_bytes: usize,
    target_dict_size: usize,
    corpus_bytes_in_flight: usize,
}

impl InMemoryDictionaryStore {
    /// The session entries, in insertion order.
    pub closed spec fn entries(&self) -> Seq<SessionEntry> {
        self.sessions@
    }

    /// Bytes currently reserved for untrained corpora.
    pub closed spec fn in_flight(&self) -> usize {
        self.corpus_bytes_in_flight
    }

    /// Largest dictionary accepted, in bytes.
    pub closed spec fn max_dict_bytes(&self) -> usize {
        self.max_dictionary_bytes
    }

    /// Target size of trained dictionaries, in bytes.
    pub closed spec fn target(&self) -> usize {
        self.target_dict_size
    }

    /// The store's invariant: no session twice, and every corpus below the training
    /// threshold with its reservation bounded by its size.
    pub open spec fn wf(&self) -> bool {
        &&& unique_ids(self.entries())
        &&& forall|i: int| 0 <= i < self.entries().len() ==> entry_ok(#[trigger] self.entries()[i])
    }

    /// The state of `id`, if tracked.
    pub open spec fn state_of(&self, id: SessionId) -> Option<SessionView> {
        lookup(self.entries(), id)
    }

    /// An empty store. Dictionaries larger than `max_dictionary_bytes` are refused;
    /// the target size is clamped to [`MAX_DICT_SIZE`].
    pub fn new(max_dictionary_bytes: usize, target_dict_size: usize) -> (r: Self)
        ensures
            r.wf(),
            r.entries().len() == 0,
            r.in_flight() == 0,
            r.max_dict_bytes() == max_dictionary_bytes,
            r.target() == min_usize(target_dict_size, MAX_DICT_SIZE),
    {
        let target = if target_dict_size <= MAX_DICT_SIZE {
            target_dict_size
        } else {
            MAX_DICT_SIZE
        };
        InMemoryDictionaryStore {
            sessions: Vec::new(),
            max_dictionary_bytes,
            target_dict_size: target,
            corpus_bytes_in_flight: 0,
        }
    }

    /// Number of tracked sessions.
    pub fn session_count(&self) -> (r: usize)
        ensures
            r == self.entries().len(),
    {
        self.sessions.len()
    }

    /// Bytes currently reserved for untrained corpora.
    pub fn corpus_bytes_in_flight(&self) -> (r: usize)
        ensures
            r == self.in_flight(),
    {
        self.corpus_bytes_in_flight
    }

    /// Target size of trained dictionaries.
    pub fn target_dict_size(&self) -> (r: usize)
        ensures
            r == self.target(),
    {
        self.target_dict_size
    }

    fn find(&self, id: SessionId) -> (r: Option<usize>)
        ensures
            match r {
                Some(i) => find_index(self.entries(), id) == i as int && i < self.entries().len()
                    && self.entries()[i as int].id == id,
                None => find_index(self.entries(), id) == -1,
            },
    {
        proof {
            lemma_find_index(self.entries(), id);
        }
        let mut j: usize = self.sessions.len();
        assert(self.sessions@.subrange(0, j as int) =~= self.sessions@);
        while j > 0
            invariant
                j <= self.sessions@.len(),
                find_index(self.sessions@, id) == find_index(self.sessions@.subrange(0, j as int), id),
            decreases j,
        {
            assert(self.sessions@.subrange(0, j as int).drop_last() =~= self.sessions@.subrange(
                0,
                j - 1,
            ));
            if self.sessions[j - 1].id == id {
                return Some(j - 1);
            }
            j = j - 1;
        }
        None
    }

    /// Whether a session is tracked, and whether it has a dictionary.
    pub fn has_dictionary(&self, id: SessionId) -> (r: Option<bool>)
        ensures
            match r {
                Some(b) => self.state_of(id) matches Some(v) && b == v.dict is Some,
                None => self.state_of(id) is None,
            },
    {
        match self.find(id) {
            Some(i) => Some(self.sessions[i].state.dict.is_some()),
            None => None,
        }
    }

    /// The pending corpus size and reserved bytes of a tracked session.
    pub fn pending(&self, id: SessionId) -> (r: Option<(usize, usize)>)
        ensures
            match r {
                Some(p) => self.state_of(id) matches Some(v) && p.0 == v.corpus.len()
                    && p.1 == v.pending_corpus_bytes,
                None => self.state_of(id) is None,
            },
    {
        match self.find(id) {
            Some(i) => {
                proof {
                    lemma_find_index(self.entries(), id);
                }
                Some((self.sessions[i].state.corpus.len(), self.sessions[i].state.pending_corpus_bytes))
            },
            None => None,
        }
    }
}

proof fn lemma_update(s: Seq<SessionEntry>, i: int, e: SessionEntry)
    requires
        unique_ids(s),
        0 <= i < s.len(),
        e.id == s[i].id,
    ensures
        s.remove(i).insert(i, e) =~= s.update(i, e),
        unique_ids(s.update(i, e)),
        same_ids(s, s.update(i, e)),
        forall|k: SessionId|
            #[trigger] lookup(s.update(i, e), k) == if k == e.id {
                Some(session_view(e.state))
            } else {
                lookup(s, k)
            },
{
    let t = s.update(i, e);
    assert(same_ids(s, t));
    assert forall|k: SessionId|
        #[trigger] lookup(t, k) == if k == e.id {
            Some(session_view(e.state))
        } else {
            lookup(s, k)
        } by {
        lemma_find_index_same_ids(s, t, k);
        lemma_find_index(s, k);
    }
}

proof fn lemma_push(s: Seq<SessionEntry>, e: SessionEntry)
    requires
        unique_ids(s),
        find_index(s, e.id) == -1,
    ensures
        unique_ids(s.push(e)),
        forall|k: SessionId|
            #[trigger] lookup(s.push(e), k) == if k == e.id {
                Some(session_view(e.state))
            } else {
                lookup(s, k)
            },
{
    lemma_find_index(s, e.id);
    let t = s.push(e);
    assert forall|k: SessionId|
        #[trigger] lookup(t, k) == if k == e.id {
            Some(session_view(e.state))
        } else {
            lookup(s, k)
        } by {
        lemma_find_index_push(s, e, k);
        lemma_find_index(s, k);
    }
}

/// A session's state after an access at `now`: the tracked state with the new
/// access time, or a fresh empty state.
pub open spec fn touched(st: Option<SessionView>, now: u64) -> SessionView {
    match st {
        Some(v) => SessionView { last_access: now, ..v },
        None => SessionView {
            corpus: Seq::empty(),
            dict: None,
            last_access: now,
            pending_corpus_bytes: 0,
        },
    }
}

impl InMemoryDictionaryStore {
    /// Finds or creates the entry for `id` and stamps its access time.
    fn touch(&mut self, id: SessionId, now: u64) -> (r: usize)
        requires
            old(self).wf(),
        ensures
            final(self).wf(),
            r < final(self).entries().len(),
            final(self).entries()[r as int].id == id,
            find_index(final(self).entries(), id) == r as int,
            final(self).state_of(id) == Some(touched(old(self).state_of(id), now)),
            final(self).in_flight() == old(self).in_flight(),
            final(self).max_dict_bytes() == old(self).max_dict_bytes(),
            final(self).target() == old(self).target(),
            forall|k: SessionId| k != id ==> #[trigger] final(self).state_of(k) == old(self).state_of(k),
    {
        proof {
            lemma_find_index(self.entries(), id);
        }
        match self.find(id) {
            Some(i) => {
                let ghost s0 = self.sessions@;
                let mut e = self.sessions.remove(i);
                e.state.last_access = now;
                proof {
                    lemma_update(s0, i as int, e);
                    assert(entry_ok(s0[i as int]));
                    assert(session_view(e.state) =~= touched(lookup(s0, id), now));
                }
                self.sessions.insert(i, e);
                proof {
                    lemma_find_index(self.entries(), id);
                    assert forall|j: int| 0 <= j < self.entries().len() implies entry_ok(
                        #[trigger] self.entries()[j],
                    ) by {
                        if j != i {
                            assert(self.entries()[j] == s0[j]);
                        }
                    }
                }
                i
            },
            None => {
                let ghost s0 = self.sessions@;
                let e = SessionEntry {
                    id,
                    state: SessionDictState {
                        corpus: Vec::new(),
                        dict: None,
                        last_access: now,
                        pending_corpus_bytes: 0,
                    },
                };
                proof {
                    lemma_push(s0, e);
                    assert(session_view(e.state) =~= touched(lookup(s0, id), now));
                }
                self.sessions.push(e);
                proof {
                    lemma_find_index_push(s0, e, id);
                    assert forall|j: int| 0 <= j < self.entries().len() implies entry_ok(
                        #[trigger] self.entries()[j],
                    ) by {
                        if j < s0.len() {
                            assert(self.entries()[j] == s0[j]);
                        }
                    }
                }
                self.sessions.len() - 1
            },
        }
    }
}

/// Whether a training call admits a sample of `len` bytes into the state `st`
/// (after the access stamp) with `in_flight` bytes already reserved: an admission
/// attempt whose reservation stays within [`TOTAL_CORPUS_BYTE_BUDGET`].
pub open spec fn admits(st: SessionView, in_flight: usize, len: nat) -> bool {
    &&& st.dict is None
    &&& st.corpus.len() < N_TRAIN
    &&& len <= MAX_TRAINING_SAMPLE_SIZE
    &&& in_flight + len <= TOTAL_CORPUS_BYTE_BUDGET
}

/// The state after the sample is (or is not) admitted.
pub open spec fn after_admission(st: SessionView, in_flight: usize, sample: Seq<u8>) -> SessionView {
    if admits(st, in_flight, sample.len()) {
        SessionView {
            corpus: st.corpus.push(sample),
            pending_corpus_bytes: (st.pending_corpus_bytes + sample.len()) as usize,
            ..st
        }
    } else {
        st
    }
}

/// What one training call does to a session and to the reservation counter: the
/// session's new state, the counter's new value, and the job it hands out (the
/// samples in admission order with their reserved byte count), if any.
pub struct TrainStep {
    pub state: SessionView,
    pub in_flight: usize,
    pub job: Option<(Seq<Seq<u8>>, usize)>,
}

/// One training call on a session in state `st` (`None`: untracked) with
/// `in_flight` bytes reserved, feeding `sample` at `now`.
pub open spec fn train_step(st: Option<SessionView>, in_flight: usize, sample: Seq<u8>, now: u64) -> TrainStep {
    let s = touched(st, now);
    let s1 = after_admission(s, in_flight, sample);
    let counter: usize = if admits(s, in_flight, sample.len()) {
        (in_flight + sample.len()) as usize
    } else {
        in_flight
    };
    if s1.corpus.len() < N_TRAIN {
        TrainStep { state: s1, in_flight: counter, job: None }
    } else {
        TrainStep {
            state: SessionView { corpus: Seq::empty(), pending_corpus_bytes: 0, ..s1 },
            in_flight: counter,
            job: Some((s1.corpus, s1.pending_corpus_bytes)),
        }
    }
}

/// The outcome of a series of training calls on one session: its final state, the
/// counter's final value, the job of each call in order, and the samples that
/// were admitted, in order.
pub struct TrainRun {
    pub state: Option<SessionView>,
    pub in_flight: usize,
    pub jobs: Seq<Option<(Seq<Seq<u8>>, usize)>>,
    pub admitted: Seq<Seq<u8>>,
}

/// Training calls feeding `samples[i]` at `times[i]`, one after the other, from the
/// state `st` with `in_flight` bytes reserved.
pub open spec fn train_run(
    st: Option<SessionView>,
    in_flight: usize,
    samples: Seq<Seq<u8>>,
    times: Seq<u64>,
) -> TrainRun
    decreases samples.len(),
{
    if samples.len() == 0 {
        TrainRun { state: st, in_flight, jobs: Seq::empty(), admitted: Seq::empty() }
    } else {
        let prev = train_run(st, in_flight, samples.drop_last(), times.drop_last());
        let t = train_step(prev.state, prev.in_flight, samples.last(), times.last());
        let admitted_now = admits(touched(prev.state, times.last()), prev.in_flight, samples.last().len());
        TrainRun {
            state: Some(t.state),
            in_flight: t.in_flight,
            jobs: prev.jobs.push(t.job),
            admitted: if admitted_now {
                prev.admitted.push(samples.last())
            } else {
                prev.admitted
            },
        }
    }
}

/// Total byte length of the samples.
pub open spec fn total_len(samples: Seq<Seq<u8>>) -> nat
    decreases samples.len(),
{
    if samples.len() == 0 {
        0
    } else {
        total_len(samples.drop_last()) + samples.last().len()
    }
}

/// A session's state after a trained dictionary `d` is taken back: it becomes the
/// dictionary of a tracked session that has none yet.
pub open spec fn with_trained(st: Option<SessionView>, d: Seq<u8>) -> Option<SessionView> {
    match st {
        Some(v) => if v.dict is None {
            Some(SessionView { dict: Some(d), ..v })
        } else {
            Some(v)
        },
        None => None,
    }
}

impl InMemoryDictionaryStore {
    /// Feeds one training sample for a session (creating its state on first use)
    /// and stamps its access time.
    ///
    /// Once the session has a dictionary nothing else happens. Otherwise a sample
    /// within [`MAX_TRAINING_SAMPLE_SIZE`] is admitted while the corpus has room and
    /// the global reservation stays within [`TOTAL_CORPUS_BYTE_BUDGET`]; any other
    /// sample is skipped, not refused. When the corpus reaches [`N_TRAIN`] samples
    /// it is handed out as a [`TrainingJob`] together with its reservation, and the
    /// session starts a fresh corpus; the reservation stays counted until
    /// [`InMemoryDictionaryStore::finish_training`] releases it.
    pub fn train_if_ready(&mut self, session_id: SessionId, sample: Vec<u8>, now: u64) -> (r: Option<TrainingJob>)
        requires
            old(self).wf(),
        ensures
            final(self).wf(),
            final(self).max_dict_bytes() == old(self).max_dict_bytes(),
            final(self).target() == old(self).target(),
            final(self).in_flight() == old(self).in_flight() || final(self).in_flight() <= TOTAL_CORPUS_BYTE_BUDGET,
            forall|k: SessionId| k != session_id ==> #[trigger] final(self).state_of(k) == old(self).state_of(k),
            r matches Some(job) ==> job.session_id == session_id && job.target_dict_size == old(self).target(),
            ({
                let t = train_step(old(self).state_of(session_id), old(self).in_flight(), sample@, now);
                &&& final(self).state_of(session_id) == Some(t.state)
                &&& final(self).in_flight() == t.in_flight
                &&& match r {
                    Some(job) => t.job == Some(
                        (job.samples@.map_values(|v: Vec<u8>| v@), job.reservation.reserved),
                    ),
                    None => t.job is None,
                }
            }),
    {
        let ghost st = touched(old(self).state_of(session_id), now);
        let ghost pre = *self;
        let i = self.touch(session_id, now);
        let ghost mid = *self;
        let ghost s0 = self.sessions@;
        let ghost in0 = self.corpus_bytes_in_flight;
        proof {
            assert(entry_ok(s0[i as int]));
        }
        let mut e = self.sessions.remove(i);
        assert(session_view(e.state) == st);
        let len = sample.len();
        if e.state.dict.is_none() && e.state.corpus.len() < N_TRAIN && len <= MAX_TRAINING_SAMPLE_SIZE {
            if self.corpus_bytes_in_flight <= TOTAL_CORPUS_BYTE_BUDGET && len <= TOTAL_CORPUS_BYTE_BUDGET
                - self.corpus_bytes_in_flight {
                self.corpus_bytes_in_flight = self.corpus_bytes_in_flight + len;
                e.state.pending_corpus_bytes = e.state.pending_corpus_bytes + len;
                let ghost c0 = e.state.corpus@;
                e.state.corpus.push(sample);
                proof {
                    assert(e.state.corpus@.map_values(|v: Vec<u8>| v@) =~= c0.map_values(
                        |v: Vec<u8>| v@,
                    ).push(sample@));
                }
            }
        }
        let ghost st1 = after_admission(st, in0, sample@);
        assert(session_view(e.state) =~= st1);
        if e.state.corpus.len() < N_TRAIN {
            proof {
                lemma_update(s0, i as int, e);
                assert forall|j: int| 0 <= j < s0.update(i as int, e).len() implies entry_ok(
                    #[trigger] s0.update(i as int, e)[j],
                ) by {
                    if j != i {
                        assert(s0.update(i as int, e)[j] == s0[j]);
                    }
                }
            }
            self.sessions.insert(i, e);
            proof {
                assert forall|k: SessionId| k != session_id implies #[trigger] self.state_of(k)
                    == pre.state_of(k) by {
                    assert(mid.state_of(k) == pre.state_of(k));
                }
            }
            return None;
        }
        let reserved = e.state.pending_corpus_bytes;
        e.state.pending_corpus_bytes = 0;
        let samples = e.state.corpus;
        e.state.corpus = Vec::new();
        let ghost fresh = SessionView { corpus: Seq::empty(), pending_corpus_bytes: 0, ..st1 };
        assert(session_view(e.state) =~= fresh);
        proof {
            lemma_update(s0, i as int, e);
            assert forall|j: int| 0 <= j < s0.update(i as int, e).len() implies entry_ok(
                #[trigger] s0.update(i as int, e)[j],
            ) by {
                if j != i {
                    assert(s0.update(i as int, e)[j] == s0[j]);
                }
            }
        }
        self.sessions.insert(i, e);
        proof {
            assert forall|k: SessionId| k != session_id implies #[trigger] self.state_of(k)
                == pre.state_of(k) by {
                assert(mid.state_of(k) == pre.state_of(k));
            }
        }
        Some(
            TrainingJob {
                session_id,
                samples,
                target_dict_size: self.target_dict_size,
                reservation: CorpusBudgetReservation::new(reserved),
            },
        )
    }
}

impl InMemoryDictionaryStore {
    /// The session's dictionary, if it has one; a hit stamps the access time (a
    /// session serving its dictionary is kept alive), a miss changes nothing.
    pub fn get_dictionary(&mut self, session_id: SessionId, now: u64) -> (r: Option<Vec<u8>>)
        requires
            old(self).wf(),
        ensures
            final(self).wf(),
            final(self).in_flight() == old(self).in_flight(),
            final(self).max_dict_bytes() == old(self).max_dict_bytes(),
            final(self).target() == old(self).target(),
            forall|k: SessionId| k != session_id ==> #[trigger] final(self).state_of(k) == old(self).state_of(k),
            match old(self).state_of(session_id) {
                Some(v) => match v.dict {
                    Some(d) => (r matches Some(x) && x@ == d) && final(self).state_of(session_id)
                        == Some(SessionView { last_access: now, ..v }),
                    None => r is None && final(self).state_of(session_id) == old(self).state_of(session_id),
                },
                None => r is None && final(self).state_of(session_id) is None,
            },
    {
        proof {
            lemma_find_index(self.entries(), session_id);
        }
        match self.find(session_id) {
            None => None,
            Some(i) => {
                if self.sessions[i].state.dict.is_none() {
                    return None;
                }
                let ghost s0 = self.sessions@;
                let mut e = self.sessions.remove(i);
                e.state.last_access = now;
                let d: Vec<u8> = match &e.state.dict {
                    Some(d) => vstd::slice::slice_to_vec(d.as_slice()),
                    None => Vec::new(),
                };
                proof {
                    assert(entry_ok(s0[i as int]));
                    lemma_update(s0, i as int, e);
                    assert(session_view(e.state) =~= SessionView {
                        last_access: now,
                        ..lookup(s0, session_id)->0
                    });
                    assert forall|j: int| 0 <= j < s0.update(i as int, e).len() implies entry_ok(
                        #[trigger] s0.update(i as int, e)[j],
                    ) by {
                        if j != i {
                            assert(s0.update(i as int, e)[j] == s0[j]);
                        }
                    }
                }
                self.sessions.insert(i, e);
                Some(d)
            },
        }
    }

    /// Registers a ready-made dictionary for a session. A dictionary over the
    /// store's byte cap is refused and nothing changes; otherwise the session is
    /// tracked (and its access time stamped), and the dictionary is kept only when
    /// the session has none yet: the first dictionary wins.
    pub fn register(&mut self, session_id: SessionId, dict: Vec<u8>, now: u64) -> (r: Result<(), DictionaryError>)
        requires
            old(self).wf(),
        ensures
            final(self).wf(),
            final(self).in_flight() == old(self).in_flight(),
            final(self).max_dict_bytes() == old(self).max_dict_bytes(),
            final(self).target() == old(self).target(),
            dict@.len() > old(self).max_dict_bytes() ==> r == Err::<(), DictionaryError>(
                DictionaryError::Rejected { size: dict@.len() as usize, max: old(self).max_dict_bytes() },
            ) && final(self).entries() == old(self).entries(),
            dict@.len() <= old(self).max_dict_bytes() ==> r is Ok && final(self).state_of(session_id) == Some(
                ({
                    let t = touched(old(self).state_of(session_id), now);
                    if t.dict is Some {
                        t
                    } else {
                        SessionView { dict: Some(dict@), ..t }
                    }
                }),
            ) && forall|k: SessionId| k != session_id ==> #[trigger] final(self).state_of(k) == old(self).state_of(k),
    {
        let size = dict.len();
        if size > self.max_dictionary_bytes {
            return Err(DictionaryError::Rejected { size, max: self.max_dictionary_bytes });
        }
        let ghost pre = *self;
        let ghost t = touched(old(self).state_of(session_id), now);
        let i = self.touch(session_id, now);
        let ghost mid = *self;
        let ghost s0 = self.sessions@;
        let mut e = self.sessions.remove(i);
        assert(session_view(e.state) == t);
        if e.state.dict.is_none() {
            e.state.dict = Some(dict);
        }
        proof {
            assert(entry_ok(s0[i as int]));
            lemma_update(s0, i as int, e);
            assert(session_view(e.state) =~= (if t.dict is Some {
                t
            } else {
                SessionView { dict: Some(dict@), ..t }
            }));
            assert forall|j: int| 0 <= j < s0.update(i as int, e).len() implies entry_ok(
                #[trigger] s0.update(i as int, e)[j],
            ) by {
                if j != i {
                    assert(s0.update(i as int, e)[j] == s0[j]);
                }
            }
        }
        self.sessions.insert(i, e);
        proof {
            assert forall|k: SessionId| k != session_id implies #[trigger] self.state_of(k)
                == pre.state_of(k) by {
                assert(mid.state_of(k) == pre.state_of(k));
            }
        }
        Ok(())
    }

    /// Takes the outcome of a training job back. The job's reservation is released
    /// in every case (saturating). A failed training is reported; a trained
    /// dictionary over the byte cap is refused; otherwise it becomes the session's
    /// dictionary when the session is still tracked and has none yet.
    pub fn finish_training(&mut self, job: TrainingJob, trained: Result<Vec<u8>, String>) -> (r: Result<(), DictionaryError>)
        requires
            old(self).wf(),
        ensures
            final(self).wf(),
            final(self).in_flight() == released(old(self).in_flight(), job.reservation.reserved),
            final(self).max_dict_bytes() == old(self).max_dict_bytes(),
            final(self).target() == old(self).target(),
            forall|k: SessionId| k != job.session_id ==> #[trigger] final(self).state_of(k) == old(self).state_of(k),
            match trained {
                Err(m) => r == Err::<(), DictionaryError>(DictionaryError::TrainingFailed(m))
                    && final(self).state_of(job.session_id) == old(self).state_of(job.session_id),
                Ok(d) => if d@.len() > old(self).max_dict_bytes() {
                    r == Err::<(), DictionaryError>(DictionaryError::Rejected {
                        size: d@.len() as usize,
                        max: old(self).max_dict_bytes(),
                    }) && final(self).state_of(job.session_id) == old(self).state_of(job.session_id)
                } else {
                    r is Ok && final(self).state_of(job.session_id) == with_trained(
                        old(self).state_of(job.session_id),
                        d@,
                    )
                },
            },
    {
        let session_id = job.session_id;
        job.reservation.release(&mut self.corpus_bytes_in_flight);
        let d = match trained {
            Err(m) => {
                return Err(DictionaryError::TrainingFailed(m));
            },
            Ok(d) => d,
        };
        let size = d.len();
        if size > self.max_dictionary_bytes {
            return Err(DictionaryError::Rejected { size, max: self.max_dictionary_bytes });
        }
        proof {
            lemma_find_index(self.entries(), session_id);
        }
        match self.find(session_id) {
            None => Ok(()),
            Some(i) => {
                if self.sessions[i].state.dict.is_some() {
                    return Ok(());
                }
                let ghost s0 = self.sessions@;
                let mut e = self.sessions.remove(i);
                let ghost v = session_view(e.state);
                e.state.dict = Some(d);
                proof {
                    assert(entry_ok(s0[i as int]));
                    lemma_update(s0, i as int, e);
                    assert(session_view(e.state) =~= SessionView { dict: Some(d@), ..v });
                    assert forall|j: int| 0 <= j < s0.update(i as int, e).len() implies entry_ok(
                        #[trigger] s0.update(i as int, e)[j],
                    ) by {
                        if j != i {
                            assert(s0.update(i as int, e)[j] == s0[j]);
                        }
                    }
                }
                self.sessions.insert(i, e);
                Ok(())
            },
        }
    }
}

proof fn lemma_fresh_append(a: Seq<SessionEntry>, b: Seq<SessionEntry>, now: u64, ttl: u64)
    ensures
        fresh_entries(a + b, now, ttl) == fresh_entries(a, now, ttl) + fresh_entries(b, now, ttl),
    decreases b.len(),
{
    if b.len() == 0 {
        assert(a + b =~= a);
        assert(fresh_entries(a, now, ttl) + fresh_entries(b, now, ttl) =~= fresh_entries(a, now, ttl));
    } else {
        assert((a + b).drop_last() =~= a + b.drop_last());
        lemma_fresh_append(a, b.drop_last(), now, ttl);
        if is_fresh(b.last().state.last_access, now, ttl) {
            assert(fresh_entries(a, now, ttl) + fresh_entries(b.drop_last(), now, ttl).push(b.last())
                =~= (fresh_entries(a, now, ttl) + fresh_entries(b.drop_last(), now, ttl)).push(
                b.last(),
            ));
        }
    }
}

proof fn lemma_pending_append(a: Seq<SessionEntry>, b: Seq<SessionEntry>)
    ensures
        pending_total(a + b) == pending_total(a) + pending_total(b),
    decreases b.len(),
{
    if b.len() == 0 {
        assert(a + b =~= a);
    } else {
        assert((a + b).drop_last() =~= a + b.drop_last());
        lemma_pending_append(a, b.drop_last());
    }
}

proof fn lemma_fresh_subseq(s: Seq<SessionEntry>, now: u64, ttl: u64)
    ensures
        forall|j: int|
            0 <= j < fresh_entries(s, now, ttl).len() ==> exists|i: int|
                0 <= i < s.len() && #[trigger] fresh_entries(s, now, ttl)[j] == s[i],
        unique_ids(s) ==> unique_ids(fresh_entries(s, now, ttl)),
        (forall|i: int| 0 <= i < s.len() ==> entry_ok(#[trigger] s[i])) ==> forall|j: int|
            0 <= j < fresh_entries(s, now, ttl).len() ==> entry_ok(#[trigger] fresh_entries(s, now, ttl)[j]),
    decreases s.len(),
{
    if s.len() > 0 {
        let p = s.drop_last();
        lemma_fresh_subseq(p, now, ttl);
        let f = fresh_entries(p, now, ttl);
        assert forall|j: int| 0 <= j < f.len() implies exists|i: int|
            0 <= i < s.len() && #[trigger] f[j] == s[i] by {
            let i = choose|i: int| 0 <= i < p.len() && f[j] == p[i];
            assert(s[i] == p[i]);
        }
        if is_fresh(s.last().state.last_access, now, ttl) {
            let g = f.push(s.last());
            assert forall|j: int| 0 <= j < g.len() implies exists|i: int|
                0 <= i < s.len() && #[trigger] g[j] == s[i] by {
                if j < f.len() {
                    assert(g[j] == f[j]);
                } else {
                    assert(g[j] == s[s.len() - 1]);
                }
            }
            if unique_ids(s) {
                assert forall|a: int, b: int|
                    0 <= a < g.len() && 0 <= b < g.len() && a != b implies (#[trigger] g[a]).id
                    != (#[trigger] g[b]).id by {
                    if a < f.len() && b < f.len() {
                        assert(g[a] == f[a] && g[b] == f[b]);
                    } else if a < f.len() {
                        let ia = choose|i: int| 0 <= i < p.len() && f[a] == p[i];
                        assert(p[ia] == s[ia]);
                        assert(s[ia].id != s[s.len() - 1].id);
                    } else if b < f.len() {
                        let ib = choose|i: int| 0 <= i < p.len() && f[b] == p[i];
                        assert(p[ib] == s[ib]);
                        assert(s[ib].id != s[s.len() - 1].id);
                    }
                }
            }
            if forall|i: int| 0 <= i < s.len() ==> entry_ok(#[trigger] s[i]) {
                assert forall|i: int| 0 <= i < p.len() implies entry_ok(#[trigger] p[i]) by {
                    assert(p[i] == s[i]);
                }
                assert forall|j: int| 0 <= j < g.len() implies entry_ok(#[trigger] g[j]) by {
                    if j < f.len() {
                        assert(g[j] == f[j]);
                    }
                }
            }
        } else {
            if unique_ids(s) {
                assert(unique_ids(p)) by {
                    assert forall|a: int, b: int|
                        0 <= a < p.len() && 0 <= b < p.len() && a != b implies (#[trigger] p[a]).id
                        != (#[trigger] p[b]).id by {
                        assert(p[a] == s[a] && p[b] == s[b]);
                    }
                }
            }
            if forall|i: int| 0 <= i < s.len() ==> entry_ok(#[trigger] s[i]) {
                assert forall|i: int| 0 <= i < p.len() implies entry_ok(#[trigger] p[i]) by {
                    assert(p[i] == s[i]);
                }
            }
        }
        if unique_ids(s) && is_fresh(s.last().state.last_access, now, ttl) {
            assert(unique_ids(p)) by {
                assert forall|a: int, b: int|
                    0 <= a < p.len() && 0 <= b < p.len() && a != b implies (#[trigger] p[a]).id
                    != (#[trigger] p[b]).id by {
                    assert(p[a] == s[a] && p[b] == s[b]);
                }
            }
        }
    }
}

impl InMemoryDictionaryStore {
    /// Evicts every session idle for at least `ttl_millis` at `now` (idle time
    /// saturating at zero), keeping the others in order, then resynchronizes the
    /// reserved-bytes counter to the sum of the remaining sessions' pending bytes.
    pub fn cleanup_expired(&mut self, ttl_millis: u64, now: u64)
        requires
            old(self).wf(),
            pending_total(fresh_entries(old(self).entries(), now, ttl_millis)) <= usize::MAX,
        ensures
            final(self).wf(),
            final(self).entries() == fresh_entries(old(self).entries(), now, ttl_millis),
            final(self).in_flight() == pending_total(final(self).entries()),
            final(self).max_dict_bytes() == old(self).max_dict_bytes(),
            final(self).target() == old(self).target(),
    {
        let ghost orig = self.sessions@;
        proof {
            lemma_fresh_subseq(orig, now, ttl_millis);
        }
        let mut src: Vec<SessionEntry> = Vec::new();
        std::mem::swap(&mut src, &mut self.sessions);
        let mut out: Vec<SessionEntry> = Vec::new();
        let mut total: usize = 0;
        let ghost done: Seq<SessionEntry> = Seq::empty();
        while src.len() > 0
            invariant
                done + src@ == orig,
                out@ == fresh_entries(done, now, ttl_millis),
                total == pending_total(out@),
                pending_total(fresh_entries(orig, now, ttl_millis)) <= usize::MAX,
            decreases src@.len(),
        {
            let ghost rest = src@;
            let e = src.remove(0);
            proof {
                assert(done.push(e) + src@ =~= orig) by {
                    assert(rest =~= seq![e] + src@);
                }
                assert(seq![e].drop_last() =~= Seq::<SessionEntry>::empty());
                lemma_fresh_append(done, seq![e], now, ttl_millis);
                assert(done + seq![e] =~= done.push(e));
                lemma_fresh_append(done.push(e), src@, now, ttl_millis);
                lemma_pending_append(fresh_entries(done.push(e), now, ttl_millis), fresh_entries(src@, now, ttl_millis));
            }
            let idle = now.saturating_sub(e.state.last_access);
            proof {
                assert(seq![e].drop_last() =~= Seq::<SessionEntry>::empty());
                assert(seq![e].last() == e);
                assert(fresh_entries(Seq::<SessionEntry>::empty(), now, ttl_millis) =~= Seq::<SessionEntry>::empty());
                assert((idle < ttl_millis) == is_fresh(e.state.last_access, now, ttl_millis));
            }
            if idle < ttl_millis {
                let ghost o = out@;
                proof {
                    assert(fresh_entries(seq![e], now, ttl_millis) =~= seq![e]);
                    assert(o.push(e) =~= o + seq![e]);
                    lemma_pending_append(o, seq![e]);
                    assert(seq![e].drop_last() =~= Seq::<SessionEntry>::empty());
                    assert(pending_total(Seq::<SessionEntry>::empty()) == 0);
                    assert(seq![e].last() == e);
                    assert(pending_total(seq![e]) == pending_total(seq![e].drop_last()) + (seq![e].last().state.pending_corpus_bytes as nat));
                    assert(pending_total(seq![e]) == e.state.pending_corpus_bytes as nat);
                }
                total = total + e.state.pending_corpus_bytes;
                out.push(e);
            } else {
                proof {
                    assert(fresh_entries(seq![e], now, ttl_millis) =~= Seq::<SessionEntry>::empty());
                    assert(out@ + Seq::<SessionEntry>::empty() =~= out@);
                }
            }
            proof {
                done = done.push(e);
            }
        }
        proof {
            assert(done =~= orig);
        }
        self.sessions = out;
        self.corpus_bytes_in_flight = total;
    }
}

impl InMemoryDictionaryStore {
    /// The bytes still pending in the sessions that survive eviction at `now`
    /// with `ttl_millis`; `None` when that total does not fit in a `usize`.
    pub fn fresh_pending_total(&self, ttl_millis: u64, now: u64) -> (r: Option<usize>)
        ensures
            pending_total(fresh_entries(self.entries(), now, ttl_millis)) <= usize::MAX ==> r == Some(
                pending_total(fresh_entries(self.entries(), now, ttl_millis)) as usize,
            ),
            pending_total(fresh_entries(self.entries(), now, ttl_millis)) > usize::MAX ==> r is None,
    {
        let mut total: usize = 0;
        let mut i: usize = 0;
        let n = self.sessions.len();
        while i < n
            invariant
                n == self.sessions@.len(),
                i <= n,
                total == pending_total(fresh_entries(self.sessions@.subrange(0, i as int), now, ttl_millis)),
            decreases n - i,
        {
            let ghost s = self.sessions@;
            proof {
                assert(s.subrange(0, i + 1).drop_last() =~= s.subrange(0, i as int));
                assert(s.subrange(0, i + 1).last() == s[i as int]);
            }
            let ghost pre = fresh_entries(s.subrange(0, i as int), now, ttl_millis);
            proof {
                assert(pre.push(s[i as int]).drop_last() =~= pre);
            }
            let st = &self.sessions[i].state;
            let idle: u64 = if now >= st.last_access {
                now - st.last_access
            } else {
                0
            };
            if idle < ttl_millis {
                let b = st.pending_corpus_bytes;
                if b > usize::MAX - total {
                    proof {
                        lemma_fresh_total_grows(s, i as int, now, ttl_millis);
                    }
                    return None;
                }
                total = total + b;
            }
            i = i + 1;
        }
        proof {
            assert(self.sessions@.subrange(0, n as int) =~= self.sessions@);
        }
        Some(total)
    }

    /// Evicts idle sessions and resynchronizes the budget (see
    /// [`InMemoryDictionaryStore::cleanup_expired`]) when the surviving pending
    /// bytes fit in a `usize`; otherwise changes nothing and returns `false`.
    pub fn evict_expired_sessions(&mut self, ttl_millis: u64, now: u64) -> (r: bool)
        requires
            old(self).wf(),
        ensures
            final(self).wf(),
            r == (pending_total(fresh_entries(old(self).entries(), now, ttl_millis)) <= usize::MAX),
            r ==> final(self).entries() == fresh_entries(old(self).entries(), now, ttl_millis)
                && final(self).in_flight() == pending_total(final(self).entries()),
            !r ==> *final(self) == *old(self),
            final(self).max_dict_bytes() == old(self).max_dict_bytes(),
            final(self).target() == old(self).target(),
    {
        match self.fresh_pending_total(ttl_millis, now) {
            Some(_) => {
                self.cleanup_expired(ttl_millis, now);
                true
            },
            None => false,
        }
    }
}

/// Adding the entry at `i` (when it survives) to the pending total of the
/// survivors among the first `i` entries gives that of the first `i + 1`, and
/// later entries only add to it.
proof fn lemma_fresh_total_grows(s: Seq<SessionEntry>, i: int, now: u64, ttl: u64)
    requires
        0 <= i < s.len(),
        is_fresh(s[i].state.last_access, now, ttl),
    ensures
        pending_total(fresh_entries(s, now, ttl)) >= pending_total(fresh_entries(s.subrange(0, i), now, ttl))
            + s[i].state.pending_corpus_bytes,
    decreases s.len(),
{
    if s.len() == i + 1 {
        assert(s.drop_last() =~= s.subrange(0, i));
        let pre = fresh_entries(s.subrange(0, i), now, ttl);
        assert(pre.push(s[i]).drop_last() =~= pre);
    } else {
        lemma_fresh_total_grows(s.drop_last(), i, now, ttl);
        assert(s.drop_last().subrange(0, i) =~= s.subrange(0, i));
        assert(s.drop_last()[i] == s[i]);
        let rest = fresh_entries(s.drop_last(), now, ttl);
        if is_fresh(s.last().state.last_access, now, ttl) {
            assert(rest.push(s.last()).drop_last() =~= rest);
        }
    }
}


/// The state of a fresh session after its first `k` samples were admitted, with
/// the last call at `now`.
pub open spec fn collecting(samples: Seq<Seq<u8>>, k: int, now: u64) -> SessionView {
    SessionView {
        corpus: samples.take(k),
        dict: None,
        last_access: now,
        pending_corpus_bytes: total_len(samples.take(k)) as usize,
    }
}

proof fn lemma_total_take(samples: Seq<Seq<u8>>, k: int)
    requires
        0 < k <= samples.len(),
    ensures
        total_len(samples.take(k)) == total_len(samples.take(k - 1)) + samples[k - 1].len(),
        total_len(samples.take(k)) <= total_len(samples),
    decreases samples.len(),
{
    assert(samples.take(k).drop_last() =~= samples.take(k - 1));
    if k < samples.len() {
        lemma_total_take(samples.drop_last(), k);
        assert(samples.drop_last().take(k) =~= samples.take(k));
        assert(samples.drop_last().take(k - 1) =~= samples.take(k - 1));
    } else {
        assert(samples.take(k) =~= samples);
    }
}

proof fn lemma_collecting(samples: Seq<Seq<u8>>, times: Seq<u64>, in_flight: usize, k: int)
    requires
        samples.len() == N_TRAIN,
        times.len() == N_TRAIN,
        forall|i: int| 0 <= i < N_TRAIN ==> #[trigger] samples[i].len() <= MAX_TRAINING_SAMPLE_SIZE,
        in_flight + total_len(samples) <= TOTAL_CORPUS_BYTE_BUDGET,
        0 <= k < N_TRAIN,
    ensures
        ({
            let r = train_run(None, in_flight, samples.take(k), times.take(k));
            &&& r.state == if k == 0 {
                None
            } else {
                Some(collecting(samples, k, times[k - 1]))
            }
            &&& r.in_flight == in_flight + total_len(samples.take(k))
            &&& r.jobs.len() == k
            &&& forall|j: int| 0 <= j < k ==> #[trigger] r.jobs[j] is None
        }),
    decreases k,
{
    if k > 0 {
        lemma_collecting(samples, times, in_flight, k - 1);
        lemma_total_take(samples, k);
        assert(samples.take(k).drop_last() =~= samples.take(k - 1));
        assert(times.take(k).drop_last() =~= times.take(k - 1));
        assert(samples.take(k - 1).push(samples[k - 1]) =~= samples.take(k));
        let prev = train_run(None, in_flight, samples.take(k - 1), times.take(k - 1));
        let r = train_run(None, in_flight, samples.take(k), times.take(k));
        assert(r.jobs =~= prev.jobs.push(None::<(Seq<Seq<u8>>, usize)>));
    }
}

/// Training fires exactly at the threshold. A session with no state is fed
/// [`N_TRAIN`] samples, each within [`MAX_TRAINING_SAMPLE_SIZE`] and together
/// within what the [`TOTAL_CORPUS_BYTE_BUDGET`] leaves free. After each of the
/// first `N_TRAIN - 1` calls no job was handed out, the session has no
/// dictionary, its corpus is the samples fed so far and their bytes are reserved.
/// The `N_TRAIN`-th call hands out all the samples, in order, with all their
/// reserved bytes, and starts an empty corpus; taking that job back with a trained
/// dictionary gives the session that dictionary and releases every reserved byte.
pub proof fn lemma_training_threshold(
    samples: Seq<Seq<u8>>,
    times: Seq<u64>,
    in_flight: usize,
    dict: Seq<u8>,
)
    requires
        samples.len() == N_TRAIN,
        times.len() == N_TRAIN,
        forall|i: int| 0 <= i < N_TRAIN ==> #[trigger] samples[i].len() <= MAX_TRAINING_SAMPLE_SIZE,
        in_flight + total_len(samples) <= TOTAL_CORPUS_BYTE_BUDGET,
    ensures
        forall|k: int|
            0 < k < N_TRAIN ==> {
                let r = #[trigger] train_run(None, in_flight, samples.take(k), times.take(k));
                &&& r.state == Some(collecting(samples, k, times[k - 1]))
                &&& r.in_flight == in_flight + total_len(samples.take(k))
                &&& r.jobs.len() == k
                &&& forall|j: int| 0 <= j < k ==> #[trigger] r.jobs[j] is None
            },
        ({
            let r = train_run(None, in_flight, samples, times);
            let emptied = SessionView {
                corpus: Seq::empty(),
                dict: None,
                last_access: times[N_TRAIN - 1],
                pending_corpus_bytes: 0,
            };
            &&& r.jobs.len() == N_TRAIN
            &&& forall|j: int| 0 <= j < N_TRAIN - 1 ==> #[trigger] r.jobs[j] is None
            &&& r.jobs[N_TRAIN - 1] == Some((samples, total_len(samples) as usize))
            &&& r.state == Some(emptied)
            &&& r.in_flight == in_flight + total_len(samples)
            &&& with_trained(r.state, dict) == Some(SessionView { dict: Some(dict), ..emptied })
            &&& released(r.in_flight, total_len(samples) as usize) == in_flight
        }),
{
    assert forall|k: int| 0 < k < N_TRAIN implies {
        let r = #[trigger] train_run(None, in_flight, samples.take(k), times.take(k));
        &&& r.state == Some(collecting(samples, k, times[k - 1]))
        &&& r.in_flight == in_flight + total_len(samples.take(k))
        &&& r.jobs.len() == k
        &&& forall|j: int| 0 <= j < k ==> #[trigger] r.jobs[j] is None
    } by {
        lemma_collecting(samples, times, in_flight, k);
    }
    let n: int = N_TRAIN as int;
    lemma_collecting(samples, times, in_flight, n - 1);
    lemma_total_take(samples, n);
    assert(samples.take(n) =~= samples);
    assert(times.take(n) =~= times);
    assert(samples.drop_last() =~= samples.take(n - 1));
    assert(times.drop_last() =~= times.take(n - 1));
    assert(samples.take(n - 1).push(samples[n - 1]) =~= samples);
    let prev = train_run(None, in_flight, samples.take(n - 1), times.take(n - 1));
    let r = train_run(None, in_flight, samples, times);
    assert(r.jobs =~= prev.jobs.push(Some((samples, total_len(samples) as usize))));
}


/// The samples of all the jobs handed out, in order.
pub open spec fn job_samples(jobs: Seq<Option<(Seq<Seq<u8>>, usize)>>) -> Seq<Seq<u8>>
    decreases jobs.len(),
{
    if jobs.len() == 0 {
        Seq::empty()
    } else {
        job_samples(jobs.drop_last()) + match jobs.last() {
            Some(job) => job.0,
            None => Seq::empty(),
        }
    }
}

/// How many jobs were handed out.
pub open spec fn jobs_fired(jobs: Seq<Option<(Seq<Seq<u8>>, usize)>>) -> nat
    decreases jobs.len(),
{
    if jobs.len() == 0 {
        0
    } else {
        jobs_fired(jobs.drop_last()) + if jobs.last() is Some {
            1nat
        } else {
            0nat
        }
    }
}

proof fn lemma_total_concat(a: Seq<Seq<u8>>, b: Seq<Seq<u8>>)
    ensures
        total_len(a + b) == total_len(a) + total_len(b),
    decreases b.len(),
{
    if b.len() > 0 {
        lemma_total_concat(a, b.drop_last());
        assert((a + b).drop_last() =~= a + b.drop_last());
    } else {
        assert(a + b =~= a);
    }
}

/// What a run of training calls on one session does, whatever is skipped. From a
/// session with no state, calls feeding `samples[i]` at `times[i]` give:
/// - one job slot per call; every job handed out holds exactly [`N_TRAIN`]
///   samples and reserves exactly their bytes;
/// - the session never gets a dictionary from training calls alone; its corpus
///   holds fewer than [`N_TRAIN`] samples and reserves exactly their bytes, and it
///   was last accessed at the last call;
/// - the samples of the jobs, in order, followed by the corpus are exactly the
///   admitted samples: `admitted.len() / N_TRAIN` jobs were handed out and the
///   corpus is the `admitted.len() % N_TRAIN` samples admitted last;
/// - the counter grew by exactly the bytes of the admitted samples;
/// - the last call admits its sample exactly when the sample is within
///   [`MAX_TRAINING_SAMPLE_SIZE`] and the counter leaves room for it under
///   [`TOTAL_CORPUS_BYTE_BUDGET`]; otherwise it is skipped and nothing but the
///   access time changes;
/// - the last call hands out a job exactly when it admits the sample that makes
///   the number admitted a multiple of [`N_TRAIN`].
pub proof fn lemma_training_run(samples: Seq<Seq<u8>>, times: Seq<u64>, in_flight: usize)
    requires
        samples.len() == times.len(),
    ensures
        ({
            let r = train_run(None, in_flight, samples, times);
            &&& r.jobs.len() == samples.len()
            &&& forall|j: int|
                0 <= j < r.jobs.len() ==> (#[trigger] r.jobs[j] matches Some(job) ==> job.0.len()
                    == N_TRAIN && job.1 == total_len(job.0))
            &&& r.in_flight == in_flight + total_len(r.admitted)
            &&& jobs_fired(r.jobs) == r.admitted.len() / (N_TRAIN as nat)
            &&& samples.len() == 0 ==> r.state is None && r.admitted.len() == 0
            &&& samples.len() > 0 ==> (r.state matches Some(v) && v.dict is None && v.corpus.len()
                < N_TRAIN && v.corpus.len() == r.admitted.len() % (N_TRAIN as nat)
                && v.pending_corpus_bytes == total_len(v.corpus) && v.last_access == times.last()
                && job_samples(r.jobs) + v.corpus == r.admitted)
        }),
        samples.len() > 0 ==> ({
            let prev = train_run(None, in_flight, samples.drop_last(), times.drop_last());
            let r = train_run(None, in_flight, samples, times);
            let fits = samples.last().len() <= MAX_TRAINING_SAMPLE_SIZE && prev.in_flight
                + samples.last().len() <= TOTAL_CORPUS_BYTE_BUDGET;
            &&& r.admitted == if fits {
                prev.admitted.push(samples.last())
            } else {
                prev.admitted
            }
            &&& (r.jobs.last() is Some <==> fits && r.admitted.len() % (N_TRAIN as nat) == 0)
            &&& !fits ==> r.state == Some(touched(prev.state, times.last()))
        }),
    decreases samples.len(),
{
    let r = train_run(None, in_flight, samples, times);
    let n: nat = N_TRAIN as nat;
    if samples.len() == 0 {
        assert(job_samples(r.jobs) =~= Seq::<Seq<u8>>::empty());
    } else {
        lemma_training_run(samples.drop_last(), times.drop_last(), in_flight);
        let prev = train_run(None, in_flight, samples.drop_last(), times.drop_last());
        let x = samples.last();
        let now = times.last();
        let st = touched(prev.state, now);
        let fits = x.len() <= MAX_TRAINING_SAMPLE_SIZE && prev.in_flight + x.len()
            <= TOTAL_CORPUS_BYTE_BUDGET;
        let c0 = st.corpus;
        // The previous corpus: empty for a new session.
        if prev.state is None {
            assert(prev.admitted.len() == 0);
            assert(job_samples(prev.jobs) =~= Seq::<Seq<u8>>::empty()) by {
                assert(prev.jobs.len() == 0);
            }
            assert(c0 =~= Seq::<Seq<u8>>::empty());
            assert(total_len(c0) == 0);
            assert(jobs_fired(prev.jobs) == 0);
        }
        assert(c0.len() < N_TRAIN);
        assert(st.dict is None);
        assert(job_samples(prev.jobs) + c0 == prev.admitted);
        assert(st.pending_corpus_bytes == total_len(c0));
        assert(admits(st, prev.in_flight, x.len()) == fits);
        assert(r.jobs.drop_last() =~= prev.jobs);
        assert(r.jobs.last() == train_step(prev.state, prev.in_flight, x, now).job);
        lemma_total_concat(job_samples(prev.jobs), c0);
        assert(job_samples(prev.jobs).len() == n * jobs_fired(prev.jobs)) by {
            lemma_job_samples_len(prev.jobs);
        }
        if fits {
            assert(r.admitted =~= prev.admitted.push(x));
            assert(c0.push(x).drop_last() =~= c0);
            assert(total_len(c0.push(x)) == total_len(c0) + x.len());
            assert(prev.admitted.push(x).drop_last() =~= prev.admitted);
            assert(total_len(r.admitted) == total_len(prev.admitted) + x.len());
            if c0.len() + 1 == N_TRAIN {
                assert(job_samples(r.jobs) =~= job_samples(prev.jobs) + c0.push(x));
                assert(job_samples(r.jobs) + Seq::<Seq<u8>>::empty() =~= r.admitted);
                assert(r.admitted.len() == n * (jobs_fired(prev.jobs) + 1));
                assert(r.admitted.len() % n == 0 && r.admitted.len() / n == jobs_fired(prev.jobs)
                    + 1) by (nonlinear_arith)
                    requires
                        r.admitted.len() == n * (jobs_fired(prev.jobs) + 1),
                        n == 32,
                ;
            } else {
                assert(job_samples(r.jobs) =~= job_samples(prev.jobs));
                assert(job_samples(r.jobs) + c0.push(x) =~= r.admitted);
                assert(r.admitted.len() == n * jobs_fired(prev.jobs) + c0.len() + 1);
                assert(r.admitted.len() % n == c0.len() + 1 && r.admitted.len() / n
                    == jobs_fired(prev.jobs)) by (nonlinear_arith)
                    requires
                        r.admitted.len() == n * jobs_fired(prev.jobs) + c0.len() + 1,
                        c0.len() + 1 < n,
                        n == 32,
                ;
            }
        } else {
            assert(r.admitted == prev.admitted);
            assert(job_samples(r.jobs) =~= job_samples(prev.jobs));
            assert(prev.admitted.len() == n * jobs_fired(prev.jobs) + c0.len());
            assert(prev.admitted.len() % n == c0.len() && prev.admitted.len() / n
                == jobs_fired(prev.jobs)) by (nonlinear_arith)
                requires
                    prev.admitted.len() == n * jobs_fired(prev.jobs) + c0.len(),
                    c0.len() < n,
                    n == 32,
            ;
        }
        assert forall|j: int|
            0 <= j < r.jobs.len() implies (#[trigger] r.jobs[j] matches Some(job) ==> job.0.len()
            == N_TRAIN && job.1 == total_len(job.0)) by {
            if j < prev.jobs.len() {
                assert(r.jobs[j] == prev.jobs[j]);
            }
        }
    }
}

proof fn lemma_job_samples_len(jobs: Seq<Option<(Seq<Seq<u8>>, usize)>>)
    requires
        forall|j: int|
            0 <= j < jobs.len() ==> (#[trigger] jobs[j] matches Some(job) ==> job.0.len() == N_TRAIN),
    ensures
        job_samples(jobs).len() == (N_TRAIN as nat) * jobs_fired(jobs),
    decreases jobs.len(),
{
    if jobs.len() > 0 {
        let d = jobs.drop_last();
        assert forall|j: int| 0 <= j < d.len() implies (#[trigger] d[j] matches Some(job)
            ==> job.0.len() == N_TRAIN) by {
            assert(d[j] == jobs[j]);
        }
        lemma_job_samples_len(d);
        assert(jobs[jobs.len() - 1] == jobs.last());
        assert((N_TRAIN as nat) * (jobs_fired(d) + 1) == (N_TRAIN as nat) * jobs_fired(d) + 32)
            by (nonlinear_arith);
    }
}

} // verus!
