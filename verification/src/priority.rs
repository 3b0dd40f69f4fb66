//! Priority ordering of frames through a bounded reorder buffer.
//!
//! Frames arrive in stream order. Up to `buffer_size` of them are held at once;
//! whenever the buffer is full (or the input is exhausted) the highest-ranked
//! buffered frame is emitted. A frame ranks above another when its priority is
//! higher, or when the priorities are equal and its sequence number is lower
//! (first-in, first-out within a priority tier).
use vstd::prelude::*;
use vstd::multiset::*;

verus! {

broadcast use {vstd::seq_lib::group_to_multiset_ensures, vstd::multiset::group_multiset_axioms};

/// A frame as the reorder buffer sees it: its priority, its sequence number in the
/// stream, and its already-serialized payload.
pub struct PrioritizedFrame {
    pub priority: u8,
    pub sequence: u64,
    pub payload: Vec<u8>,
}

/// `a` leaves the buffer before `b`: higher priority first, then lower sequence.
pub open spec fn ranks_above(a: PrioritizedFrame, b: PrioritizedFrame) -> bool {
    a.priority > b.priority || (a.priority == b.priority && a.sequence < b.sequence)
}

/// Index of the first highest-ranked frame of a non-empty buffer.
pub open spec fn max_index(s: Seq<PrioritizedFrame>) -> int
    decreases s.len(),
{
    if s.len() <= 1 {
        0
    } else {
        let m = max_index(s.drop_last());
        if ranks_above(s.last(), s[m]) {
            s.len() - 1
        } else {
            m
        }
    }
}

/// Moves frames from the front of `rest` into `buf` until `buf` holds `k` frames
/// or `rest` is empty.
pub open spec fn fill(buf: Seq<PrioritizedFrame>, rest: Seq<PrioritizedFrame>, k: nat) -> (
    Seq<PrioritizedFrame>,
    Seq<PrioritizedFrame>,
)
    decreases rest.len(),
{
    if buf.len() >= k || rest.len() == 0 {
        (buf, rest)
    } else {
        fill(buf.push(rest[0]), rest.drop_first(), k)
    }
}

/// Total size is unchanged by [`fill`].
pub proof fn lemma_fill_len(buf: Seq<PrioritizedFrame>, rest: Seq<PrioritizedFrame>, k: nat)
    ensures
        fill(buf, rest, k).0.len() + fill(buf, rest, k).1.len() == buf.len() + rest.len(),
        fill(buf, rest, k).0.len() >= buf.len(),
        k > 0 && buf.len() + rest.len() > 0 ==> fill(buf, rest, k).0.len() > 0,
    decreases rest.len(),
{
    if !(buf.len() >= k || rest.len() == 0) {
        lemma_fill_len(buf.push(rest[0]), rest.drop_first(), k);
    }
}

/// [`max_index`] is a valid index.
pub proof fn lemma_max_index_range(s: Seq<PrioritizedFrame>)
    requires
        s.len() > 0,
    ensures
        0 <= max_index(s) < s.len(),
    decreases s.len(),
{
    if s.len() > 1 {
        lemma_max_index_range(s.drop_last());
    }
}

/// The frames emitted from buffer `buf` and pending input `rest`, in emission order.
pub open spec fn drain(buf: Seq<PrioritizedFrame>, rest: Seq<PrioritizedFrame>, k: nat) -> Seq<
    PrioritizedFrame,
>
    decreases buf.len() + rest.len(),
{
    let f = fill(buf, rest, k);
    if f.0.len() == 0 {
        Seq::empty()
    } else {
        proof {
            lemma_fill_len(buf, rest, k);
            lemma_max_index_range(f.0);
        }
        seq![f.0[max_index(f.0)]] + drain(f.0.remove(max_index(f.0)), f.1, k)
    }
}

/// The order in which a reorder buffer of `k` frames emits the stream `frames`.
pub open spec fn priority_order(frames: Seq<PrioritizedFrame>, k: nat) -> Seq<PrioritizedFrame> {
    drain(Seq::empty(), frames, k)
}

/// No frame ranks above the frame at [`max_index`].
pub proof fn lemma_max_index_is_max(s: Seq<PrioritizedFrame>)
    requires
        s.len() > 0,
    ensures
        forall|j: int| 0 <= j < s.len() ==> !ranks_above(#[trigger] s[j], s[max_index(s)]),
    decreases s.len(),
{
    if s.len() > 1 {
        let t = s.drop_last();
        lemma_max_index_is_max(t);
        lemma_max_index_range(t);
        let m = max_index(t);
        assert forall|j: int| 0 <= j < s.len() implies !ranks_above(#[trigger] s[j], s[max_index(s)]) by {
            if j < s.len() - 1 {
                assert(s[j] == t[j]);
                assert(!ranks_above(t[j], t[m]));
            }
        }
    }
}

/// [`fill`] only moves frames between its two parts.
pub proof fn lemma_fill_multiset(buf: Seq<PrioritizedFrame>, rest: Seq<PrioritizedFrame>, k: nat)
    ensures
        fill(buf, rest, k).0.to_multiset().add(fill(buf, rest, k).1.to_multiset())
            == buf.to_multiset().add(rest.to_multiset()),
    decreases rest.len(),
{
    if !(buf.len() >= k || rest.len() == 0) {
        lemma_fill_multiset(buf.push(rest[0]), rest.drop_first(), k);
        assert(rest =~= seq![rest[0]] + rest.drop_first());
        vstd::seq_lib::lemma_multiset_commutative(seq![rest[0]], rest.drop_first());
        assert(seq![rest[0]].to_multiset() =~= Multiset::empty().insert(rest[0])) by {
            assert(seq![rest[0]] =~= Seq::<PrioritizedFrame>::empty().push(rest[0]));
        }
        assert(buf.push(rest[0]).to_multiset().add(rest.drop_first().to_multiset())
            =~= buf.to_multiset().add(rest.to_multiset()));
    }
}

/// Reordering neither loses nor duplicates frames: what comes out is what went in.
pub proof fn lemma_drain_multiset(buf: Seq<PrioritizedFrame>, rest: Seq<PrioritizedFrame>, k: nat)
    requires
        k > 0,
    ensures
        drain(buf, rest, k).to_multiset() == buf.to_multiset().add(rest.to_multiset()),
    decreases buf.len() + rest.len(),
{
    lemma_fill_multiset(buf, rest, k);
    let f = fill(buf, rest, k);
    if f.0.len() == 0 {
        lemma_fill_len(buf, rest, k);
        assert(buf.len() == 0 && rest.len() == 0);
        assert(buf.to_multiset() =~= Multiset::empty());
        assert(rest.to_multiset() =~= Multiset::empty());
        assert(drain(buf, rest, k).to_multiset() =~= Multiset::empty());
    } else {
        lemma_fill_len(buf, rest, k);
        lemma_max_index_range(f.0);
        let m = max_index(f.0);
        lemma_drain_multiset(f.0.remove(m), f.1, k);
        vstd::seq_lib::lemma_multiset_commutative(seq![f.0[m]], drain(f.0.remove(m), f.1, k));
        assert(seq![f.0[m]].to_multiset() =~= Multiset::empty().insert(f.0[m])) by {
            assert(seq![f.0[m]] =~= Seq::<PrioritizedFrame>::empty().push(f.0[m]));
        }
        assert(f.0.to_multiset().remove(f.0[m]).insert(f.0[m]) =~= f.0.to_multiset());
    }
}

/// No frame of `s` ranks above an earlier one: `s` is in emission order.
pub open spec fn is_priority_sorted(s: Seq<PrioritizedFrame>) -> bool {
    forall|i: int, j: int| 0 <= i < j < s.len() ==> !ranks_above(#[trigger] s[j], #[trigger] s[i])
}

/// With no pending input, [`fill`] leaves the buffer as it is.
proof fn lemma_fill_no_rest(buf: Seq<PrioritizedFrame>, k: nat)
    ensures
        fill(buf, Seq::empty(), k) == (buf, Seq::<PrioritizedFrame>::empty()),
{
}

/// When the buffer can hold everything, [`fill`] moves all pending input into it.
proof fn lemma_fill_all(buf: Seq<PrioritizedFrame>, rest: Seq<PrioritizedFrame>, k: nat)
    requires
        buf.len() + rest.len() <= k,
    ensures
        fill(buf, rest, k) == (buf + rest, Seq::<PrioritizedFrame>::empty()),
    decreases rest.len(),
{
    if rest.len() == 0 {
        assert(buf + rest =~= buf);
    } else {
        lemma_fill_all(buf.push(rest[0]), rest.drop_first(), k);
        assert(buf.push(rest[0]) + rest.drop_first() =~= buf + rest);
    }
}

/// Draining a buffer with no pending input emits its frames sorted.
proof fn lemma_drain_buffer_sorted(buf: Seq<PrioritizedFrame>, k: nat)
    requires
        k > 0,
    ensures
        is_priority_sorted(drain(buf, Seq::empty(), k)),
    decreases buf.len(),
{
    lemma_fill_no_rest(buf, k);
    if buf.len() > 0 {
        lemma_max_index_range(buf);
        lemma_max_index_is_max(buf);
        let m = max_index(buf);
        let rem = buf.remove(m);
        let tail = drain(rem, Seq::empty(), k);
        lemma_drain_buffer_sorted(rem, k);
        lemma_drain_multiset(rem, Seq::empty(), k);
        assert(Seq::<PrioritizedFrame>::empty().to_multiset() =~= Multiset::empty());
        let out = drain(buf, Seq::empty(), k);
        assert(out == seq![buf[m]] + tail);
        assert forall|i: int, j: int| 0 <= i < j < out.len() implies !ranks_above(
            #[trigger] out[j],
            #[trigger] out[i],
        ) by {
            if i == 0 {
                let y = tail[j - 1];
                assert(out[j] == y);
                assert(tail.to_multiset().count(y) > 0);
                assert(rem.to_multiset().count(y) > 0);
                assert(rem.contains(y));
                let w = choose|w: int| 0 <= w < rem.len() && rem[w] == y;
                if w < m {
                    assert(rem[w] == buf[w]);
                } else {
                    assert(rem[w] == buf[w + 1]);
                }
            } else {
                assert(out[i] == tail[i - 1]);
                assert(out[j] == tail[j - 1]);
            }
        }
    }
}

/// Reordering is a permutation: every frame of the input is emitted exactly as
/// often as it was received.
pub proof fn lemma_priority_order_is_permutation(frames: Seq<PrioritizedFrame>, k: nat)
    requires
        k > 0,
    ensures
        priority_order(frames, k).to_multiset() == frames.to_multiset(),
        priority_order(frames, k).len() == frames.len(),
{
    lemma_drain_multiset(Seq::empty(), frames, k);
    assert(Seq::<PrioritizedFrame>::empty().to_multiset() =~= Multiset::empty());
    assert(Multiset::<PrioritizedFrame>::empty().add(frames.to_multiset()) =~= frames.to_multiset());
    vstd::seq_lib::to_multiset_len(priority_order(frames, k));
    vstd::seq_lib::to_multiset_len(frames);
}

/// A buffer large enough to hold the whole stream emits it fully sorted:
/// highest priority first, and first-in first-out among equal priorities.
pub proof fn lemma_priority_order_sorted_when_buffer_holds_all(
    frames: Seq<PrioritizedFrame>,
    k: nat,
)
    requires
        k > 0,
        frames.len() <= k,
    ensures
        is_priority_sorted(priority_order(frames, k)),
{
    lemma_fill_all(Seq::empty(), frames, k);
    assert(Seq::<PrioritizedFrame>::empty() + frames =~= frames);
    lemma_fill_no_rest(frames, k);
    lemma_drain_buffer_sorted(frames, k);
    assert(priority_order(frames, k) == drain(frames, Seq::empty(), k));
}

/// Index of the highest-ranked frame of `buf` (the first one, among equals).
fn max_index_exec(buf: &Vec<PrioritizedFrame>) -> (m: usize)
    requires
        buf@.len() > 0,
    ensures
        m as int == max_index(buf@),
{
    let mut m: usize = 0;
    let mut i: usize = 1;
    while i < buf.len()
        invariant
            1 <= i <= buf@.len(),
            m as int == max_index(buf@.subrange(0, i as int)),
            m < i,
        decreases buf@.len() - i,
    {
        let ghost t = buf@.subrange(0, i as int + 1);
        assert(t.drop_last() =~= buf@.subrange(0, i as int));
        let a = &buf[i];
        let b = &buf[m];
        if a.priority > b.priority || (a.priority == b.priority && a.sequence < b.sequence) {
            m = i;
        }
        i = i + 1;
    }
    assert(buf@.subrange(0, buf@.len() as int) =~= buf@);
    m
}

/// Emits `frames` through a reorder buffer of `buffer_size` frames, returning them
/// in emission order.
pub fn reorder_by_priority(frames: Vec<PrioritizedFrame>, buffer_size: usize) -> (out: Vec<
    PrioritizedFrame,
>)
    requires
        buffer_size > 0,
    ensures
        out@ == priority_order(frames@, buffer_size as nat),
{
    let ghost k = buffer_size as nat;
    let ghost target = priority_order(frames@, k);
    let mut rest = frames;
    let mut buf: Vec<PrioritizedFrame> = Vec::new();
    let mut out: Vec<PrioritizedFrame> = Vec::new();
    assert(out@ + drain(buf@, rest@, k) =~= target);
    loop
        invariant
            k == buffer_size as nat,
            k > 0,
            out@ + drain(buf@, rest@, k) == target,
            target == priority_order(frames@, k),
        decreases buf@.len() + rest@.len(),
    {
        let ghost total = buf@.len() + rest@.len();
        while buf.len() < buffer_size && rest.len() > 0
            invariant
                k == buffer_size as nat,
                out@ + drain(buf@, rest@, k) == target,
                buf@.len() + rest@.len() == total,
            decreases rest@.len(),
        {
            let ghost (b0, r0) = (buf@, rest@);
            let x = rest.remove(0);
            buf.push(x);
            assert(rest@ =~= r0.drop_first());
            assert(fill(b0, r0, k) == fill(buf@, rest@, k));
        }
        if buf.len() == 0 {
            assert(fill(buf@, rest@, k) == (buf@, rest@));
            assert(out@ =~= target);
            return out;
        }
        let m = max_index_exec(&buf);
        proof {
            lemma_max_index_range(buf@);
        }
        let ghost b0 = buf@;
        assert(fill(buf@, rest@, k) == (buf@, rest@));
        let x = buf.remove(m);
        let ghost o0 = out@;
        out.push(x);
        assert(drain(b0, rest@, k) == seq![b0[m as int]] + drain(buf@, rest@, k));
        assert(out@ + drain(buf@, rest@, k) =~= o0 + drain(b0, rest@, k));
    }
}

} // verus!
