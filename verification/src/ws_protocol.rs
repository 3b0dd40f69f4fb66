//! The WebSocket streaming protocol: stream options, protocol messages, the frame
//! messages of a stream and its completion checksum.
use vstd::prelude::*;
use vstd::string::*;
use sha2::Digest;
use crate::framework::JsonData;
use crate::json::{json_text, to_json_string};
use crate::text::push_char;

verus! {

broadcast use vstd::seq_lib::group_seq_properties;

/// Options of a stream requested over a WebSocket.
#[derive(Debug, Clone)]
pub struct StreamOptions {
    /// Largest frame size, in bytes.
    pub max_frame_size: usize,
    /// Frames per second the client asks for; `None` lets the server decide.
    pub client_fps: Option<u32>,
    /// Whether compression may be used.
    pub compression: bool,
    /// Priority overrides by JSON path.
    pub priority_mapping: Option<Vec<(String, u8)>>,
}

impl Default for StreamOptions {
    /// 64 KiB frames, automatic rate, compression on, no priority overrides.
    fn default() -> (r: Self)
        ensures
            r.max_frame_size == 65536,
            r.client_fps is None,
            r.compression,
            r.priority_mapping is None,
    {
        StreamOptions { max_frame_size: 65536, client_fps: None, compression: true, priority_mapping: None }
    }
}

/// Messages of the WebSocket streaming protocol.
#[derive(Debug)]
pub enum WsMessage {
    /// A client asks for a stream of `data`.
    StreamInit { session_id: String, data: JsonData, options: StreamOptions },
    /// One frame of a stream.
    StreamFrame { session_id: String, frame_id: u32, priority: u8, payload: JsonData, is_complete: bool },
    /// A client acknowledges a frame.
    FrameAck { session_id: String, frame_id: u32, processing_time_ms: u64 },
    /// A stream is complete; `checksum` covers its frames.
    StreamComplete { session_id: String, checksum: String },
    /// An error report.
    Error { session_id: Option<String>, error: String, code: u16 },
    /// Keep-alive request.
    Ping { timestamp: u64 },
    /// Keep-alive answer.
    Pong { timestamp: u64 },
}

/// What SHA-256 (`sha2::Sha256`) computes for a message: the 32-byte digest.
pub uninterp spec fn spec_sha256(data: Seq<u8>) -> Seq<u8>;

/// The SHA-256 digest of `data` with the `sha2` crate; feeding the same bytes in
/// several updates gives the same digest as one update with all of them.
#[verifier::external_body]
fn sha256(data: &[u8]) -> (r: [u8; 32])
    ensures
        r@ == spec_sha256(data@),
{
    sha2::Sha256::digest(data).into()
}

/// Lower-case hexadecimal digit of `d < 16`.
pub open spec fn hex_nibble(d: u8) -> char {
    if d < 10 {
        (d + 48) as char
    } else {
        (d + 87) as char
    }
}

/// Two lower-case hexadecimal digits per byte (`{:02x}`).
pub open spec fn hex_text(bytes: Seq<u8>) -> Seq<char>
    decreases bytes.len(),
{
    if bytes.len() == 0 {
        Seq::empty()
    } else {
        hex_text(bytes.drop_last()) + seq![hex_nibble(bytes.last() / 16), hex_nibble(bytes.last() % 16)]
    }
}

/// The `k` low bytes of `n`, least significant first.
pub open spec fn low_bytes(n: nat, k: nat) -> Seq<u8>
    decreases k,
{
    if k == 0 {
        Seq::empty()
    } else {
        seq![(n % 256) as u8] + low_bytes(n / 256, (k - 1) as nat)
    }
}

proof fn lemma_low_bytes_len(n: nat, k: nat)
    ensures
        low_bytes(n, k).len() == k,
    decreases k,
{
    if k > 0 {
        lemma_low_bytes_len(n / 256, (k - 1) as nat);
    }
}

/// The eight little-endian bytes of a 64-bit value (`u64::to_le_bytes`).
pub open spec fn le_bytes(n: u64) -> Seq<u8> {
    low_bytes(n as nat, 8)
}

/// The frames' bytes one after another.
pub open spec fn concat_all(frames: Seq<Seq<u8>>) -> Seq<u8>
    decreases frames.len(),
{
    if frames.len() == 0 {
        Seq::empty()
    } else {
        concat_all(frames.drop_last()) + frames.last()
    }
}

/// The views of a list of byte vectors.
pub open spec fn byte_views(v: Seq<Vec<u8>>) -> Seq<Seq<u8>> {
    v.map_values(|b: Vec<u8>| b@)
}

/// The checksum of a stream: `sha256:` and the hexadecimal SHA-256 of all frame
/// bytes followed by the frame count as eight little-endian bytes.
pub open spec fn stream_checksum(frames: Seq<Seq<u8>>) -> Seq<char> {
    "sha256:"@ + hex_text(spec_sha256(concat_all(frames) + le_bytes(frames.len() as u64)))
}

fn hex_nibble_exec(d: u8) -> (c: char)
    requires
        d < 16,
    ensures
        c == hex_nibble(d),
{
    if d < 10 {
        (d + 48) as char
    } else {
        (d + 87) as char
    }
}

fn le_bytes_exec(n: u64) -> (r: Vec<u8>)
    ensures
        r@ == le_bytes(n),
{
    let mut r: Vec<u8> = Vec::new();
    let mut x: u64 = n;
    let mut i: usize = 0;
    while i < 8
        invariant
            i <= 8,
            r@ + low_bytes(x as nat, (8 - i) as nat) == low_bytes(n as nat, 8),
        decreases 8 - i,
    {
        let ghost r0 = r@;
        r.push((x % 256) as u8);
        proof {
            assert(low_bytes(x as nat, (8 - i) as nat) == seq![(x % 256) as u8] + low_bytes(
                (x / 256) as nat,
                (8 - i - 1) as nat,
            ));
            assert(r@ + low_bytes((x / 256) as nat, (8 - i - 1) as nat) =~= r0 + low_bytes(
                x as nat,
                (8 - i) as nat,
            ));
        }
        x = x / 256;
        i = i + 1;
    }
    assert(low_bytes(x as nat, 0) =~= Seq::<u8>::empty());
    assert(r@ =~= le_bytes(n));
    r
}

/// The checksum of a stream's frames (see [`stream_checksum`]).
pub fn calculate_stream_checksum(frames_data: &[Vec<u8>]) -> (r: String)
    requires
        frames_data@.len() <= u64::MAX,
    ensures
        r@ == stream_checksum(byte_views(frames_data@)),
{
    let mut all: Vec<u8> = Vec::new();
    let n = frames_data.len();
    let mut i: usize = 0;
    while i < n
        invariant
            n == frames_data@.len(),
            i <= n,
            all@ == concat_all(byte_views(frames_data@.subrange(0, i as int))),
        decreases n - i,
    {
        let f = &frames_data[i];
        let ghost a0 = all@;
        let mut k: usize = 0;
        while k < f.len()
            invariant
                k <= f@.len(),
                all@ == a0 + f@.subrange(0, k as int),
            decreases f@.len() - k,
        {
            all.push(f[k]);
            assert(all@ =~= a0 + f@.subrange(0, k + 1));
            k = k + 1;
        }
        proof {
            assert(f@.subrange(0, f@.len() as int) =~= f@);
            let t = byte_views(frames_data@.subrange(0, i + 1));
            assert(t.drop_last() =~= byte_views(frames_data@.subrange(0, i as int)));
            assert(t.last() == f@);
        }
        i = i + 1;
    }
    assert(frames_data@.subrange(0, n as int) =~= frames_data@);
    let count = le_bytes_exec(n as u64);
    proof {
        lemma_low_bytes_len(n as nat, 8);
    }
    let ghost a1 = all@;
    let mut k: usize = 0;
    while k < 8
        invariant
            count@.len() == 8,
            k <= 8,
            all@ == a1 + count@.subrange(0, k as int),
        decreases 8 - k,
    {
        all.push(count[k]);
        assert(all@ =~= a1 + count@.subrange(0, k + 1));
        k = k + 1;
    }
    assert(count@.subrange(0, 8) =~= count@);
    let digest = sha256(all.as_slice());
    let mut out = String::from_str("sha256:");
    let ghost o0 = out@;
    let mut j: usize = 0;
    while j < 32
        invariant
            digest@.len() == 32,
            j <= 32,
            out@ == o0 + hex_text(digest@.subrange(0, j as int)),
        decreases 32 - j,
    {
        let b = digest[j];
        push_char(&mut out, hex_nibble_exec(b / 16));
        push_char(&mut out, hex_nibble_exec(b % 16));
        proof {
            let t = digest@.subrange(0, j + 1);
            assert(t.drop_last() =~= digest@.subrange(0, j as int));
            assert(t.last() == b);
            assert(out@ =~= o0 + hex_text(t));
        }
        j = j + 1;
    }
    assert(digest@.subrange(0, 32) =~= digest@);
    out
}

/// A frame of a stream plan: its data and priority.
#[derive(Debug)]
pub struct PlannedFrame {
    /// The frame's JSON data.
    pub data: JsonData,
    /// The frame's priority.
    pub priority: u8,
}

/// Whether `m` is the frame message for planned frame `f` numbered `id` of
/// session `sid`, complete when `last`.
pub open spec fn is_frame_message(m: WsMessage, sid: Seq<char>, id: int, f: PlannedFrame, last: bool) -> bool {
    match m {
        WsMessage::StreamFrame { session_id, frame_id, priority, payload, is_complete } => {
            &&& session_id@ == sid
            &&& frame_id == id
            &&& priority == f.priority
            &&& payload == f.data
            &&& is_complete == last
        },
        _ => false,
    }
}

/// Whether `m` is the completion message of session `sid` with checksum `c`.
pub open spec fn is_complete_message(m: WsMessage, sid: Seq<char>, c: Seq<char>) -> bool {
    match m {
        WsMessage::StreamComplete { session_id, checksum } => session_id@ == sid && checksum@ == c,
        _ => false,
    }
}

/// The JSON bytes of each planned frame's data.
pub open spec fn plan_payload_bytes(plan: Seq<PlannedFrame>) -> Seq<Seq<u8>> {
    plan.map_values(|f: PlannedFrame| vstd::utf8::encode_utf8(json_text(f.data)))
}

/// The messages of a stream, in sending order: one `StreamFrame` per planned
/// frame (numbered from 0, the last one marked complete), then `StreamComplete`
/// with the checksum of the frames' JSON bytes.
pub fn plan_stream_messages(session_id: &str, plan: Vec<PlannedFrame>) -> (r: Vec<WsMessage>)
    requires
        plan@.len() <= u32::MAX,
    ensures
        r@.len() == plan@.len() + 1,
        forall|i: int|
            0 <= i < plan@.len() ==> is_frame_message(
                #[trigger] r@[i],
                session_id@,
                i,
                plan@[i],
                i == plan@.len() - 1,
            ),
        is_complete_message(r@[plan@.len() as int], session_id@, stream_checksum(plan_payload_bytes(plan@))),
{
    let ghost all = plan@;
    let n = plan.len();
    let mut plan = plan;
    let mut frames_data: Vec<Vec<u8>> = Vec::new();
    let mut out: Vec<WsMessage> = Vec::new();
    let mut i: usize = 0;
    while plan.len() > 0
        invariant
            n == all.len(),
            n <= u32::MAX,
            i + plan@.len() == n,
            plan@ == all.subrange(i as int, n as int),
            out@.len() == i,
            byte_views(frames_data@) == plan_payload_bytes(all).subrange(0, i as int),
            forall|j: int|
                0 <= j < i ==> is_frame_message(#[trigger] out@[j], session_id@, j, all[j], j == n - 1),
        decreases plan@.len(),
    {
        let f = plan.remove(0);
        let text = to_json_string(&f.data);
        let bytes = vstd::slice::slice_to_vec(text.as_str().as_bytes());
        let ghost fb = bytes@;
        assert(fb == vstd::utf8::encode_utf8(json_text(f.data)));
        let ghost fd0 = frames_data@;
        frames_data.push(bytes);
        assert(byte_views(frames_data@) =~= byte_views(fd0).push(fb));
        let is_last = i == n - 1;
        out.push(
            WsMessage::StreamFrame {
                session_id: String::from_str(session_id),
                frame_id: i as u32,
                priority: f.priority,
                payload: f.data,
                is_complete: is_last,
            },
        );
        proof {
            assert(all[i as int] == f);
            assert(byte_views(frames_data@) =~= plan_payload_bytes(all).subrange(0, i + 1));
            assert(plan@ =~= all.subrange(i + 1, n as int));
        }
        i = i + 1;
    }
    assert(plan_payload_bytes(all).subrange(0, n as int) =~= plan_payload_bytes(all));
    let checksum = calculate_stream_checksum(frames_data.as_slice());
    out.push(WsMessage::StreamComplete { session_id: String::from_str(session_id), checksum });
    out
}

} // verus!
