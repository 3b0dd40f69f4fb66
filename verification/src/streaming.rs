//! Wire framing of frame streams over HTTP: formats, per-frame and per-batch
//! payloads, batching, and the `Accept` entries considered for negotiation.
//!
//! Frames reach this module already serialized as JSON bytes; this module decides
//! how those bytes are delimited on the wire.
use vstd::prelude::*;
use crate::priority::{PrioritizedFrame, priority_order, reorder_by_priority};
use crate::text::{
    chars_of, contains_chars, eq_ignore_ascii_case, eq_ignore_ascii_case_seq, find_char,
    first_index_of, lemma_split_acc_len, pieces_view, slice_range, split_chars, split_seq,
    string_of, trim_chars, trim_seq,
};



verus! {

broadcast use vstd::seq_lib::group_seq_properties;

/// Streaming format types.
#[derive(Debug, Clone, Copy, PartialEq, Eq)]
pub enum StreamFormat {
    /// Standard JSON array streaming
    Json,
    /// Newline-delimited JSON
    NdJson,
    /// Server-Sent Events
    ServerSentEvents,
    /// Binary PJS protocol
    Binary,
}

/// MIME type of each [`StreamFormat`].
pub open spec fn format_content_type(f: StreamFormat) -> Seq<char> {
    match f {
        StreamFormat::Json => "application/json"@,
        StreamFormat::NdJson => "application/x-ndjson"@,
        StreamFormat::ServerSentEvents => "text/event-stream"@,
        StreamFormat::Binary => "application/octet-stream"@,
    }
}

impl StreamFormat {
    /// MIME type that corresponds to this streaming format.
    pub fn content_type(&self) -> (r: &'static str)
        ensures
            r@ == format_content_type(*self),
    {
        match self {
            StreamFormat::Json => "application/json",
            StreamFormat::NdJson => "application/x-ndjson",
            StreamFormat::ServerSentEvents => "text/event-stream",
            StreamFormat::Binary => "application/octet-stream",
        }
    }
}

/// `"data: "` as bytes.
pub open spec fn sse_prefix() -> Seq<u8> {
    seq![100u8, 97u8, 116u8, 97u8, 58u8, 32u8]
}

/// `"\n"` as bytes.
pub open spec fn newline() -> Seq<u8> {
    seq![10u8]
}

/// `"\n\n"` as bytes.
pub open spec fn blank_line() -> Seq<u8> {
    seq![10u8, 10u8]
}

/// Wire bytes of one frame whose JSON serialization is `json`.
pub open spec fn frame_wire(json: Seq<u8>, f: StreamFormat) -> Seq<u8> {
    match f {
        StreamFormat::Json | StreamFormat::Binary => json,
        StreamFormat::NdJson => json + newline(),
        StreamFormat::ServerSentEvents => sse_prefix() + json + blank_line(),
    }
}

/// Concatenation of `f(x)` over the elements of `s`, in order.
pub open spec fn concat_wire(s: Seq<Seq<u8>>, f: StreamFormat) -> Seq<u8>
    decreases s.len(),
{
    if s.len() == 0 {
        Seq::empty()
    } else {
        concat_wire(s.drop_last(), f) + frame_wire(s.last(), f)
    }
}

/// `items` joined by commas.
pub open spec fn comma_join(s: Seq<Seq<u8>>) -> Seq<u8>
    decreases s.len(),
{
    if s.len() == 0 {
        Seq::empty()
    } else if s.len() == 1 {
        s[0]
    } else {
        comma_join(s.drop_last()) + seq![44u8] + s.last()
    }
}

/// Wire bytes of one batch of frames whose JSON serializations are `jsons`: one
/// object per line for `Json` and `NdJson`, one event per frame for
/// `ServerSentEvents`, and a single JSON array for `Binary`.
pub open spec fn batch_wire(jsons: Seq<Seq<u8>>, f: StreamFormat) -> Seq<u8> {
    match f {
        StreamFormat::Json | StreamFormat::NdJson => concat_wire(jsons, StreamFormat::NdJson),
        StreamFormat::ServerSentEvents => concat_wire(jsons, StreamFormat::ServerSentEvents),
        StreamFormat::Binary => seq![91u8] + comma_join(jsons) + seq![93u8],
    }
}

fn push_all(out: &mut Vec<u8>, bytes: &[u8])
    ensures
        final(out)@ == old(out)@ + bytes@,
{
    let mut i: usize = 0;
    while i < bytes.len()
        invariant
            i <= bytes@.len(),
            out@ == old(out)@ + bytes@.subrange(0, i as int),
        decreases bytes@.len() - i,
    {
        out.push(bytes[i]);
        i = i + 1;
    }
    assert(bytes@.subrange(0, bytes@.len() as int) =~= bytes@);
}

fn push_sse_prefix(out: &mut Vec<u8>)
    ensures
        final(out)@ == old(out)@ + sse_prefix(),
{
    out.push(100u8);
    out.push(97u8);
    out.push(116u8);
    out.push(97u8);
    out.push(58u8);
    out.push(32u8);
    assert(out@ =~= old(out)@ + sse_prefix());
}

/// Appends the wire bytes of one frame to `out`.
fn push_frame_wire(out: &mut Vec<u8>, json: &[u8], format: StreamFormat)
    ensures
        final(out)@ == old(out)@ + frame_wire(json@, format),
{
    let ghost o = out@;
    match format {
        StreamFormat::Json | StreamFormat::Binary => {
            push_all(out, json);
        },
        StreamFormat::NdJson => {
            push_all(out, json);
            out.push(10u8);
            assert(out@ =~= o + (json@ + newline()));
        },
        StreamFormat::ServerSentEvents => {
            push_sse_prefix(out);
            push_all(out, json);
            out.push(10u8);
            out.push(10u8);
            assert(out@ =~= o + (sse_prefix() + json@ + blank_line()));
        },
    }
}

/// Serializes one frame: its JSON, a trailing newline for `NdJson`, or an
/// SSE `data:` event for `ServerSentEvents`.
pub fn format_frame_owned(json: &[u8], format: StreamFormat) -> (r: Vec<u8>)
    ensures
        r@ == frame_wire(json@, format),
{
    let mut out: Vec<u8> = Vec::new();
    push_frame_wire(&mut out, json, format);
    assert(out@ =~= frame_wire(json@, format));
    out
}

/// Views of a vector of byte vectors.
pub open spec fn bytes_view(v: Seq<Vec<u8>>) -> Seq<Seq<u8>> {
    v.map_values(|b: Vec<u8>| b@)
}

/// Serializes a batch of frames (see [`batch_wire`]).
pub fn format_batch_owned(jsons: &Vec<Vec<u8>>, format: StreamFormat) -> (r: Vec<u8>)
    ensures
        r@ == batch_wire(bytes_view(jsons@), format),
{
    let ghost s = bytes_view(jsons@);
    let mut out: Vec<u8> = Vec::new();
    match format {
        StreamFormat::Binary => {
            out.push(91u8);
            let mut i: usize = 0;
            while i < jsons.len()
                invariant
                    s == bytes_view(jsons@),
                    i <= jsons@.len(),
                    out@ == seq![91u8] + comma_join(s.subrange(0, i as int)),
                decreases jsons@.len() - i,
            {
                let ghost o = out@;
                assert(s.subrange(0, i + 1).drop_last() =~= s.subrange(0, i as int));
                if i > 0 {
                    out.push(44u8);
                }
                push_all(&mut out, &jsons[i]);
                if i == 0 {
                    assert(out@ =~= seq![91u8] + comma_join(s.subrange(0, i + 1)));
                } else {
                    assert(out@ =~= seq![91u8] + comma_join(s.subrange(0, i + 1)));
                }
                i = i + 1;
            }
            out.push(93u8);
            assert(s.subrange(0, jsons@.len() as int) =~= s);
            assert(out@ =~= batch_wire(s, format));
        },
        _ => {
            let per_frame = match format {
                StreamFormat::ServerSentEvents => StreamFormat::ServerSentEvents,
                _ => StreamFormat::NdJson,
            };
            let mut i: usize = 0;
            while i < jsons.len()
                invariant
                    s == bytes_view(jsons@),
                    i <= jsons@.len(),
                    out@ == concat_wire(s.subrange(0, i as int), per_frame),
                decreases jsons@.len() - i,
            {
                assert(s.subrange(0, i + 1).drop_last() =~= s.subrange(0, i as int));
                push_frame_wire(&mut out, &jsons[i], per_frame);
                i = i + 1;
            }
            assert(s.subrange(0, jsons@.len() as int) =~= s);
        },
    }
    out
}

/// Optional payload compression of the streaming pipeline.
///
/// This build carries no payload compressor, so the bytes pass through unchanged
/// whatever `enabled` says.
pub fn maybe_compress(bytes: Vec<u8>, enabled: bool) -> (r: Vec<u8>)
    ensures
        r@ == bytes@,
{
    let _ = enabled;
    bytes
}

/// Batching as `BatchFrameStream` performs it: frames accumulate in `acc`, a batch
/// is emitted as soon as it holds `n` frames (every frame when `n` is 0), and a
/// non-empty remainder is emitted at the end.
pub open spec fn group<T>(s: Seq<T>, n: nat, acc: Seq<T>) -> Seq<Seq<T>>
    decreases s.len(),
{
    if s.len() == 0 {
        if acc.len() > 0 {
            seq![acc]
        } else {
            Seq::empty()
        }
    } else if acc.len() + 1 >= n {
        seq![acc.push(s[0])] + group(s.drop_first(), n, Seq::empty())
    } else {
        group(s.drop_first(), n, acc.push(s[0]))
    }
}

/// The batches that a stream of frames `s` is cut into with batch size `n`.
pub open spec fn batches_of<T>(s: Seq<T>, n: nat) -> Seq<Seq<T>> {
    group(s, n, Seq::empty())
}

/// Wire payloads of a batch stream over frames `jsons`.
pub open spec fn batch_stream_wire(jsons: Seq<Seq<u8>>, f: StreamFormat, n: nat) -> Seq<Seq<u8>> {
    batches_of(jsons, n).map_values(|b: Seq<Seq<u8>>| batch_wire(b, f))
}

/// Splits `frames` into the batches that `BatchFrameStream` emits and serializes
/// each batch.
pub fn batch_payloads(frames: Vec<Vec<u8>>, format: StreamFormat, batch_size: usize) -> (r: Vec<
    Vec<u8>,
>)
    ensures
        bytes_view(r@) == batch_stream_wire(bytes_view(frames@), format, batch_size as nat),
{
    let ghost n = batch_size as nat;
    let ghost f = |b: Seq<Seq<u8>>| batch_wire(b, format);
    let ghost target = batch_stream_wire(bytes_view(frames@), format, n);
    let mut out: Vec<Vec<u8>> = Vec::new();
    let mut batch: Vec<Vec<u8>> = Vec::new();
    let mut src = frames;
    while src.len() > 0
        invariant
            n == batch_size as nat,
            f == (|b: Seq<Seq<u8>>| batch_wire(b, format)),
            target == batch_stream_wire(bytes_view(frames@), format, n),
            bytes_view(out@) + group(bytes_view(src@), n, bytes_view(batch@)).map_values(f)
                == target,
        decreases src@.len(),
    {
        let ghost (o0, s0, b0) = (bytes_view(out@), bytes_view(src@), bytes_view(batch@));
        let x = src.remove(0);
        batch.push(x);
        assert(bytes_view(src@) =~= s0.drop_first());
        assert(bytes_view(batch@) =~= b0.push(s0[0]));
        if batch.len() >= batch_size {
            let bytes = format_batch_owned(&batch, format);
            out.push(bytes);
            batch = Vec::new();
            assert(bytes_view(batch@) =~= Seq::<Seq<u8>>::empty());
            assert(bytes_view(out@) =~= o0.push(batch_wire(b0.push(s0[0]), format)));
            assert(group(s0, n, b0) == seq![b0.push(s0[0])] + group(s0.drop_first(), n, Seq::empty()));
            assert((seq![b0.push(s0[0])] + group(s0.drop_first(), n, Seq::empty())).map_values(f)
                =~= seq![f(b0.push(s0[0]))] + group(s0.drop_first(), n, Seq::empty()).map_values(f));
            assert(o0.push(batch_wire(b0.push(s0[0]), format)) + group(s0.drop_first(), n, Seq::empty()).map_values(f)
                =~= o0 + (seq![f(b0.push(s0[0]))] + group(s0.drop_first(), n, Seq::empty()).map_values(f)));
        } else {
            assert(group(s0, n, b0) == group(s0.drop_first(), n, b0.push(s0[0])));
        }
    }
    let ghost (o0, b0) = (bytes_view(out@), bytes_view(batch@));
    assert(bytes_view(src@) =~= Seq::<Seq<u8>>::empty());
    if batch.len() > 0 {
        let bytes = format_batch_owned(&batch, format);
        out.push(bytes);
        assert(group(Seq::<Seq<u8>>::empty(), n, b0) == seq![b0]);
        assert(seq![b0].map_values(f) =~= seq![f(b0)]);
        assert(bytes_view(out@) =~= o0 + seq![f(b0)]);
    } else {
        assert(group(Seq::<Seq<u8>>::empty(), n, b0).map_values(f) =~= Seq::<Seq<u8>>::empty());
        assert(bytes_view(out@) =~= o0 + Seq::<Seq<u8>>::empty());
    }
    out
}

/// Batching keeps every frame, in order, and cuts full batches of `max(n, 1)`
/// frames with only the last batch possibly shorter.
proof fn lemma_group_shape<T>(s: Seq<T>, n: nat, acc: Seq<T>)
    requires
        acc.len() < (if n == 0 {
            1
        } else {
            n
        }),
    ensures
        group(s, n, acc).flatten() == acc + s,
        forall|j: int| 0 <= j < group(s, n, acc).len() ==> #[trigger] group(s, n, acc)[j].len() > 0,
        forall|j: int|
            0 <= j < group(s, n, acc).len() ==> #[trigger] group(s, n, acc)[j].len() <= (if n == 0 {
                1
            } else {
                n
            }),
        forall|j: int|
            0 <= j < group(s, n, acc).len() - 1 ==> #[trigger] group(s, n, acc)[j].len() == (if n
                == 0 {
                1
            } else {
                n
            }),
    decreases s.len(),
{
    let g = group(s, n, acc);
    if s.len() == 0 {
        if acc.len() > 0 {
            assert(seq![acc].drop_first() =~= Seq::<Seq<T>>::empty());
            assert(g.flatten() == acc + Seq::<Seq<T>>::empty().flatten());
            assert(acc + s =~= acc);
            assert(acc + Seq::<T>::empty() =~= acc);
        } else {
            assert(acc + s =~= Seq::<T>::empty());
        }
    } else if acc.len() + 1 >= n {
        let rest = group(s.drop_first(), n, Seq::empty());
        lemma_group_shape(s.drop_first(), n, Seq::empty());
        assert(g == seq![acc.push(s[0])] + rest);
        assert(g.drop_first() =~= rest);
        assert(g.flatten() == acc.push(s[0]) + rest.flatten());
        assert(Seq::<T>::empty() + s.drop_first() =~= s.drop_first());
        assert(acc.push(s[0]) + s.drop_first() =~= acc + s);
        assert forall|j: int| 0 <= j < g.len() implies #[trigger] g[j].len() > 0 by {
            if j > 0 {
                assert(g[j] == rest[j - 1]);
            }
        }
        assert forall|j: int| 0 <= j < g.len() implies #[trigger] g[j].len() <= (if n == 0 {
            1
        } else {
            n
        }) by {
            if j > 0 {
                assert(g[j] == rest[j - 1]);
            }
        }
        assert forall|j: int| 0 <= j < g.len() - 1 implies #[trigger] g[j].len() == (if n == 0 {
            1
        } else {
            n
        }) by {
            if j > 0 {
                assert(g[j] == rest[j - 1]);
            }
        }
    } else {
        lemma_group_shape(s.drop_first(), n, acc.push(s[0]));
        assert(acc.push(s[0]) + s.drop_first() =~= acc + s);
    }
}

/// Batching law: the batches of a stream concatenate back to the stream, no
/// batch is empty, and every batch but the last holds exactly `max(n, 1)` frames
/// (the last holds at most that many).
pub proof fn lemma_batches_partition_stream<T>(s: Seq<T>, n: nat)
    ensures
        batches_of(s, n).flatten() == s,
        forall|j: int| 0 <= j < batches_of(s, n).len() ==> #[trigger] batches_of(s, n)[j].len() > 0,
        forall|j: int|
            0 <= j < batches_of(s, n).len() ==> #[trigger] batches_of(s, n)[j].len() <= (if n
                == 0 {
                1
            } else {
                n
            }),
        forall|j: int|
            0 <= j < batches_of(s, n).len() - 1 ==> #[trigger] batches_of(s, n)[j].len() == (if n
                == 0 {
                1
            } else {
                n
            }),
{
    lemma_group_shape(s, n, Seq::empty());
    assert(Seq::<T>::empty() + s =~= s);
}

/// `Json` and `NdJson` batches are the same bytes, one object per line; only the
/// advertised content type differs.
pub proof fn lemma_json_and_ndjson_batches_coincide(jsons: Seq<Seq<u8>>)
    ensures
        batch_wire(jsons, StreamFormat::Json) == batch_wire(jsons, StreamFormat::NdJson),
        batch_wire(jsons, StreamFormat::Json) == concat_wire(jsons, StreamFormat::NdJson),
{
}

/// A text batch is the concatenation of its frames each framed on its own, so
/// cutting a stream into batches never changes the bytes on the wire.
pub proof fn lemma_batch_wire_concatenates(a: Seq<Seq<u8>>, b: Seq<Seq<u8>>, f: StreamFormat)
    requires
        f != StreamFormat::Binary,
    ensures
        batch_wire(a + b, f) == batch_wire(a, f) + batch_wire(b, f),
    decreases b.len(),
{
    let g = if f == StreamFormat::ServerSentEvents {
        StreamFormat::ServerSentEvents
    } else {
        StreamFormat::NdJson
    };
    lemma_concat_wire_append(a, b, g);
}

proof fn lemma_concat_wire_append(a: Seq<Seq<u8>>, b: Seq<Seq<u8>>, f: StreamFormat)
    ensures
        concat_wire(a + b, f) == concat_wire(a, f) + concat_wire(b, f),
    decreases b.len(),
{
    if b.len() == 0 {
        assert(a + b =~= a);
        assert(concat_wire(a, f) + concat_wire(b, f) =~= concat_wire(a, f));
    } else {
        lemma_concat_wire_append(a, b.drop_last(), f);
        assert((a + b).drop_last() =~= a + b.drop_last());
        assert((a + b).last() == b.last());
    }
}

/// Wire payloads of an adaptive stream: every frame on its own.
pub open spec fn adaptive_stream_wire(jsons: Seq<Seq<u8>>, f: StreamFormat) -> Seq<Seq<u8>> {
    jsons.map_values(|j: Seq<u8>| frame_wire(j, f))
}

/// Adaptive frame stream: emits every frame on its own, optionally compressed.
///
/// `buffer_size` is how many frames are prefetched per wake-up of the executor;
/// it does not change what is emitted.
pub struct AdaptiveFrameStream<S> {
    inner: S,
    format: StreamFormat,
    compression: bool,
    buffer_size: usize,
}

impl<S> AdaptiveFrameStream<S> {
    /// The wire format of the stream.
    pub closed spec fn spec_format(&self) -> StreamFormat {
        self.format
    }

    /// Whether payload compression is requested.
    pub closed spec fn spec_compression(&self) -> bool {
        self.compression
    }

    /// Frames prefetched per executor wake-up.
    pub closed spec fn spec_buffer_size(&self) -> usize {
        self.buffer_size
    }

    /// The wrapped frame source.
    pub closed spec fn spec_inner(&self) -> S {
        self.inner
    }

    /// Wrap a frame stream and produce frame bytes in `format`.
    pub fn new(stream: S, format: StreamFormat) -> (r: Self)
        ensures
            r.spec_inner() == stream,
            r.spec_format() == format,
            !r.spec_compression(),
            r.spec_buffer_size() == 10,
    {
        AdaptiveFrameStream { inner: stream, format, compression: false, buffer_size: 10 }
    }

    /// Toggle compression of each frame payload.
    pub fn with_compression(self, enabled: bool) -> (r: Self)
        ensures
            r.spec_inner() == self.spec_inner(),
            r.spec_format() == self.spec_format(),
            r.spec_compression() == enabled,
            r.spec_buffer_size() == self.spec_buffer_size(),
    {
        AdaptiveFrameStream { compression: enabled, ..self }
    }

    /// Override how many frames are prefetched per executor wake-up.
    pub fn with_buffer_size(self, size: usize) -> (r: Self)
        ensures
            r.spec_inner() == self.spec_inner(),
            r.spec_format() == self.spec_format(),
            r.spec_compression() == self.spec_compression(),
            r.spec_buffer_size() == size,
    {
        AdaptiveFrameStream { buffer_size: size, ..self }
    }

    /// The wire format of the stream.
    pub fn format(&self) -> (r: StreamFormat)
        ensures
            r == self.spec_format(),
    {
        self.format
    }

    /// Consumes the builder, handing back its source and settings.
    pub fn into_parts(self) -> (r: (S, StreamFormat, bool, usize))
        ensures
            r == (self.spec_inner(), self.spec_format(), self.spec_compression(),
                self.spec_buffer_size()),
    {
        (self.inner, self.format, self.compression, self.buffer_size)
    }

    /// Payload of one frame of this stream.
    pub fn frame_payload(&self, json: &[u8]) -> (r: Vec<u8>)
        ensures
            r@ == frame_wire(json@, self.spec_format()),
    {
        let bytes = format_frame_owned(json, self.format);
        maybe_compress(bytes, self.compression)
    }
}

/// Payloads of an adaptive stream over the frames `jsons`.
pub fn adaptive_payloads(jsons: &Vec<Vec<u8>>, format: StreamFormat, compression: bool) -> (r: Vec<
    Vec<u8>,
>)
    ensures
        bytes_view(r@) == adaptive_stream_wire(bytes_view(jsons@), format),
{
    let mut out: Vec<Vec<u8>> = Vec::new();
    let mut i: usize = 0;
    while i < jsons.len()
        invariant
            i <= jsons@.len(),
            bytes_view(out@) == adaptive_stream_wire(bytes_view(jsons@), format).subrange(0, i as int),
        decreases jsons@.len() - i,
    {
        let bytes = format_frame_owned(&jsons[i], format);
        let ghost prev = bytes_view(out@);
        let c = maybe_compress(bytes, compression);
        let ghost cv = c@;
        out.push(c);
        assert(bytes_view(out@) =~= prev.push(cv));
        assert(bytes_view(jsons@)[i as int] == jsons@[i as int]@);
        assert(bytes_view(out@) =~= adaptive_stream_wire(bytes_view(jsons@), format).subrange(
            0,
            i + 1,
        ));
        i = i + 1;
    }
    assert(adaptive_stream_wire(bytes_view(jsons@), format).subrange(0, jsons@.len() as int)
        =~= adaptive_stream_wire(bytes_view(jsons@), format));
    out
}

/// Batch frame stream for improved throughput.
pub struct BatchFrameStream<S> {
    inner: S,
    format: StreamFormat,
    batch_size: usize,
}

/// Content type a batch stream advertises: `Json` batches hold one object per line,
/// so they are announced as `application/x-ndjson`.
pub open spec fn batch_content_type(f: StreamFormat) -> Seq<char> {
    match f {
        StreamFormat::Json => "application/x-ndjson"@,
        _ => format_content_type(f),
    }
}

impl<S> BatchFrameStream<S> {
    /// The wire format of the stream.
    pub closed spec fn spec_format(&self) -> StreamFormat {
        self.format
    }

    /// Frames per batch.
    pub closed spec fn spec_batch_size(&self) -> usize {
        self.batch_size
    }

    /// The wrapped frame source.
    pub closed spec fn spec_inner(&self) -> S {
        self.inner
    }

    /// Wrap a frame stream and emit batches of up to `batch_size` frames.
    pub fn new(stream: S, format: StreamFormat, batch_size: usize) -> (r: Self)
        ensures
            r.spec_inner() == stream,
            r.spec_format() == format,
            r.spec_batch_size() == batch_size,
    {
        BatchFrameStream { inner: stream, format, batch_size }
    }

    /// Returns the `Content-Type` that accurately describes what this stream emits.
    pub fn content_type(&self) -> (r: &'static str)
        ensures
            r@ == batch_content_type(self.spec_format()),
    {
        match self.format {
            StreamFormat::Json => "application/x-ndjson",
            other => other.content_type(),
        }
    }

    /// Consumes the builder, handing back its source and settings.
    pub fn into_parts(self) -> (r: (S, StreamFormat, usize))
        ensures
            r == (self.spec_inner(), self.spec_format(), self.spec_batch_size()),
    {
        (self.inner, self.format, self.batch_size)
    }
}

/// Priority-based frame stream that orders frames by importance.
pub struct PriorityFrameStream<S> {
    inner: S,
    format: StreamFormat,
    buffer_size: usize,
}

impl<S> PriorityFrameStream<S> {
    /// The wire format of the stream.
    pub closed spec fn spec_format(&self) -> StreamFormat {
        self.format
    }

    /// Size of the reorder buffer.
    pub closed spec fn spec_buffer_size(&self) -> usize {
        self.buffer_size
    }

    /// The wrapped frame source.
    pub closed spec fn spec_inner(&self) -> S {
        self.inner
    }

    /// Wrap a frame stream that reorders frames by priority before emitting them.
    pub fn new(stream: S, format: StreamFormat, buffer_size: usize) -> (r: Self)
        ensures
            r.spec_inner() == stream,
            r.spec_format() == format,
            r.spec_buffer_size() == buffer_size,
    {
        PriorityFrameStream { inner: stream, format, buffer_size }
    }

    /// Consumes the builder, handing back its source and settings.
    pub fn into_parts(self) -> (r: (S, StreamFormat, usize))
        ensures
            r == (self.spec_inner(), self.spec_format(), self.spec_buffer_size()),
    {
        (self.inner, self.format, self.buffer_size)
    }
}

/// Wire payloads of a priority stream: frames reordered through the buffer, each
/// framed on its own.
pub open spec fn priority_stream_wire(frames: Seq<PrioritizedFrame>, f: StreamFormat, k: nat) -> Seq<
    Seq<u8>,
> {
    priority_order(frames, k).map_values(|p: PrioritizedFrame| frame_wire(p.payload@, f))
}

/// Payloads of a priority stream over `frames` with a reorder buffer of
/// `buffer_size` frames.
pub fn priority_payloads(frames: Vec<PrioritizedFrame>, format: StreamFormat, buffer_size: usize) -> (r: Vec<
    Vec<u8>,
>)
    requires
        buffer_size > 0,
    ensures
        bytes_view(r@) == priority_stream_wire(frames@, format, buffer_size as nat),
{
    let ordered = reorder_by_priority(frames, buffer_size);
    let ghost g = |p: PrioritizedFrame| frame_wire(p.payload@, format);
    let mut out: Vec<Vec<u8>> = Vec::new();
    let mut i: usize = 0;
    while i < ordered.len()
        invariant
            i <= ordered@.len(),
            g == (|p: PrioritizedFrame| frame_wire(p.payload@, format)),
            bytes_view(out@) == ordered@.map_values(g).subrange(0, i as int),
        decreases ordered@.len() - i,
    {
        let bytes = format_frame_owned(&ordered[i].payload, format);
        let ghost prev = bytes_view(out@);
        let ghost bv = bytes@;
        out.push(bytes);
        assert(bytes_view(out@) =~= prev.push(bv));
        assert(ordered@.map_values(g)[i as int] == g(ordered@[i as int]));
        assert(bytes_view(out@) =~= ordered@.map_values(g).subrange(0, i + 1));
        i = i + 1;
    }
    assert(ordered@.map_values(g).subrange(0, ordered@.len() as int) =~= ordered@.map_values(g));
    out
}

/// The format a frame-streaming route serves for a negotiated format: there is no
/// binary representation of a frame page, so `Binary` falls back to `Json`.
pub fn route_stream_format(negotiated: StreamFormat) -> (r: StreamFormat)
    ensures
        r == (if negotiated == StreamFormat::Binary {
            StreamFormat::Json
        } else {
            negotiated
        }),
{
    match negotiated {
        StreamFormat::Binary => StreamFormat::Json,
        other => other,
    }
}

/// Most `Accept` entries considered during content negotiation.
pub const MAX_ACCEPT_ENTRIES: usize = 16;

/// Whether a media range may take part in negotiation: concrete ranges always,
/// wildcards only as exactly `*/*` or `application/*` (ASCII case-insensitive).
pub open spec fn supported_media_range(m: Seq<char>) -> bool {
    !m.contains('*') || eq_ignore_ascii_case_seq(m, "*/*"@) || eq_ignore_ascii_case_seq(
        m,
        "application/*"@,
    )
}

/// Executable [`supported_media_range`] on characters.
fn supported_media_range_chars(m: &[char]) -> (r: bool)
    ensures
        r == supported_media_range(m@),
{
    let star = find_char(m, '*');
    proof {
        crate::text::lemma_first_index_of(m@, '*');
    }
    if star.is_none() {
        assert(!m@.contains('*'));
        return true;
    }
    assert(m@.contains('*')) by {
        let i = star.unwrap() as int;
        assert(m@[i] == '*');
    }
    let all = chars_of("*/*");
    let app = chars_of("application/*");
    eq_ignore_ascii_case(m, &all) || eq_ignore_ascii_case(m, &app)
}

/// Whether `media_range` is eligible for negotiation (see [`supported_media_range`]).
pub fn is_supported_media_range(media_range: &str) -> (r: bool)
    ensures
        r == supported_media_range(media_range@),
{
    let m = chars_of(media_range);
    supported_media_range_chars(&m)
}

/// Text of a `name=value` parameter before its first `=` (all of it without one).
pub open spec fn before_eq(p: Seq<char>) -> Seq<char> {
    match first_index_of(p, '=') {
        Some(i) => p.subrange(0, i),
        None => p,
    }
}

/// Text of a `name=value` parameter after its first `=` (empty without one).
pub open spec fn after_eq(p: Seq<char>) -> Seq<char> {
    match first_index_of(p, '=') {
        Some(i) => p.subrange(i + 1, p.len() as int),
        None => Seq::empty(),
    }
}

/// The raw value of the first parameter named `q` (case-insensitively), trimmed.
pub open spec fn find_q(params: Seq<Seq<char>>) -> Option<Seq<char>>
    decreases params.len(),
{
    if params.len() == 0 {
        None
    } else if eq_ignore_ascii_case_seq(trim_seq(before_eq(params[0])), "q"@) {
        Some(trim_seq(after_eq(params[0])))
    } else {
        find_q(params.drop_first())
    }
}

/// The media range and raw `q` value of one `Accept` entry, or `None` when the
/// entry is empty or its media range is not eligible.
pub open spec fn accept_entry(e: Seq<char>) -> Option<(Seq<char>, Option<Seq<char>>)> {
    let parts = split_seq(e, ';');
    let mr = trim_seq(parts[0]);
    if mr.len() == 0 || !supported_media_range(mr) {
        None
    } else {
        Some((mr, find_q(parts.drop_first())))
    }
}

/// Eligible entries of a list of raw `Accept` entries, in order.
pub open spec fn collect_accept_entries(es: Seq<Seq<char>>) -> Seq<(Seq<char>, Option<Seq<char>>)>
    decreases es.len(),
{
    if es.len() == 0 {
        Seq::empty()
    } else {
        collect_accept_entries(es.drop_last()) + match accept_entry(es.last()) {
            Some(x) => seq![x],
            None => Seq::empty(),
        }
    }
}

/// The entries of an `Accept` header value that take part in negotiation: the first
/// [`MAX_ACCEPT_ENTRIES`] comma-separated entries whose media range is non-empty and
/// eligible, each with the raw value of its `q` parameter if it has one.
pub open spec fn accept_entries_spec(accept: Seq<char>) -> Seq<(Seq<char>, Option<Seq<char>>)> {
    let es = split_seq(accept, ',');
    collect_accept_entries(
        if es.len() > MAX_ACCEPT_ENTRIES {
            es.take(MAX_ACCEPT_ENTRIES as int)
        } else {
            es
        },
    )
}

/// One `Accept` entry considered for negotiation.
pub struct AcceptEntry {
    /// Trimmed media range, e.g. `text/event-stream`.
    pub media_range: String,
    /// Trimmed raw value of the entry's `q` parameter, if present.
    pub q: Option<String>,
}

impl AcceptEntry {
    /// The entry as plain character sequences.
    pub open spec fn view_pair(&self) -> (Seq<char>, Option<Seq<char>>) {
        (
            self.media_range@,
            match self.q {
                Some(q) => Some(q@),
                None => None,
            },
        )
    }
}

fn find_q_exec(parts: &Vec<Vec<char>>, from: usize) -> (r: Option<Vec<char>>)
    requires
        from <= parts@.len(),
    ensures
        match r {
            Some(v) => find_q(pieces_view(parts@).skip(from as int)) == Some(v@),
            None => find_q(pieces_view(parts@).skip(from as int)) is None,
        },
    decreases parts@.len() - from,
{
    let ghost ps = pieces_view(parts@).skip(from as int);
    if from >= parts.len() {
        assert(ps.len() == 0);
        return None;
    }
    let p = &parts[from];
    let plen = p.len();
    assert(ps[0] == p@);
    let eq = find_char(p, '=');
    let (name, value) = match eq {
        Some(i) => {
            proof {
                crate::text::lemma_first_index_of(p@, '=');
                assert(first_index_of(p@, '=') == Some(i as int));
            }
            assert(i < p@.len());
            (slice_range(p, 0, i), slice_range(p, i + 1, plen))
        },
        None => (slice_range(p, 0, p.len()), Vec::new()),
    };
    assert(p@.subrange(0, p@.len() as int) =~= p@);
    assert(name@ == before_eq(p@));
    assert(value@ =~= after_eq(p@));
    let tn = trim_chars(&name);
    let q = chars_of("q");
    if eq_ignore_ascii_case(&tn, &q) {
        let tv = trim_chars(&value);
        Some(tv)
    } else {
        assert(ps.drop_first() =~= pieces_view(parts@).skip(from + 1));
        find_q_exec(parts, from + 1)
    }
}

fn accept_entry_exec(e: &Vec<char>) -> (r: Option<AcceptEntry>)
    ensures
        match r {
            Some(x) => accept_entry(e@) == Some(x.view_pair()),
            None => accept_entry(e@) is None,
        },
{
    let parts = split_chars(e, ';');
    proof {
        lemma_split_acc_len(e@, ';', Seq::empty());
    }
    assert(pieces_view(parts@)[0] == parts@[0]@);
    let mr = trim_chars(&parts[0]);
    if mr.len() == 0 || !supported_media_range_chars(&mr) {
        return None;
    }
    let q = find_q_exec(&parts, 1);
    assert(pieces_view(parts@).skip(1) =~= pieces_view(parts@).drop_first());
    let q_string = match q {
        Some(v) => Some(string_of(&v)),
        None => None,
    };
    Some(AcceptEntry { media_range: string_of(&mr), q: q_string })
}

/// The entries of an `Accept` header value that take part in negotiation
/// (see [`accept_entries_spec`]).
pub fn accept_entries(accept: &str) -> (r: Vec<AcceptEntry>)
    ensures
        r@.map_values(|x: AcceptEntry| x.view_pair()) == accept_entries_spec(accept@),
{
    let a = chars_of(accept);
    let es = split_chars(&a, ',');
    let ghost all = pieces_view(es@);
    let n = if es.len() > MAX_ACCEPT_ENTRIES {
        MAX_ACCEPT_ENTRIES
    } else {
        es.len()
    };
    let ghost considered = if all.len() > MAX_ACCEPT_ENTRIES {
        all.take(MAX_ACCEPT_ENTRIES as int)
    } else {
        all
    };
    assert(considered =~= all.subrange(0, n as int));
    let mut out: Vec<AcceptEntry> = Vec::new();
    let mut i: usize = 0;
    while i < n
        invariant
            n <= es@.len(),
            all == pieces_view(es@),
            i <= n,
            out@.map_values(|x: AcceptEntry| x.view_pair()) == collect_accept_entries(
                all.subrange(0, i as int),
            ),
        decreases n - i,
    {
        let ghost prev = out@.map_values(|x: AcceptEntry| x.view_pair());
        assert(all.subrange(0, i + 1).drop_last() =~= all.subrange(0, i as int));
        assert(all.subrange(0, i + 1).last() == es@[i as int]@);
        match accept_entry_exec(&es[i]) {
            Some(x) => {
                let ghost xv = x.view_pair();
                out.push(x);
                assert(out@.map_values(|x: AcceptEntry| x.view_pair()) =~= prev + seq![xv]);
            },
            None => {
                assert(prev + Seq::empty() =~= prev);
            },
        }
        i = i + 1;
    }
    out
}

/// Media types this route can serve, in tie-break preference order, each with the
/// format it selects.
pub fn supported_media_types() -> (r: Vec<(&'static str, StreamFormat)>)
    ensures
        r@.len() == 4,
        r@[0].0@ == "application/json"@ && r@[0].1 == StreamFormat::Json,
        r@[1].0@ == "text/event-stream"@ && r@[1].1 == StreamFormat::ServerSentEvents,
        r@[2].0@ == "application/x-ndjson"@ && r@[2].1 == StreamFormat::NdJson,
        r@[3].0@ == "application/octet-stream"@ && r@[3].1 == StreamFormat::Binary,
{
    let mut v = Vec::new();
    v.push(("application/json", StreamFormat::Json));
    v.push(("text/event-stream", StreamFormat::ServerSentEvents));
    v.push(("application/x-ndjson", StreamFormat::NdJson));
    v.push(("application/octet-stream", StreamFormat::Binary));
    v
}

/// The format for the outcome of negotiation: the supported media type at
/// `chosen`, or `Json` when nothing was chosen.
pub fn format_for_negotiation(chosen: Option<usize>) -> (r: StreamFormat)
    ensures
        r == match chosen {
            Some(1) => StreamFormat::ServerSentEvents,
            Some(2) => StreamFormat::NdJson,
            Some(3) => StreamFormat::Binary,
            _ => StreamFormat::Json,
        },
{
    match chosen {
        Some(1) => StreamFormat::ServerSentEvents,
        Some(2) => StreamFormat::NdJson,
        Some(3) => StreamFormat::Binary,
        _ => StreamFormat::Json,
    }
}

/// Headers of a streaming response with content type `content_type`: the type,
/// `Cache-Control: no-cache`, and for event streams `X-Accel-Buffering: no`.
pub fn streaming_response_headers(content_type: &'static str, event_stream: bool) -> (r: Vec<
    (&'static str, &'static str),
>)
    ensures
        r@.len() == (if event_stream {
            3int
        } else {
            2int
        }),
        r@[0].0@ == "content-type"@ && r@[0].1@ == content_type@,
        r@[1].0@ == "cache-control"@ && r@[1].1@ == "no-cache"@,
        event_stream ==> r@[2].0@ == "x-accel-buffering"@ && r@[2].1@ == "no"@,
{
    let mut v = Vec::new();
    v.push(("content-type", content_type));
    v.push(("cache-control", "no-cache"));
    if event_stream {
        v.push(("x-accel-buffering", "no"));
    }
    v
}


proof fn lemma_one_empty_frame_batches()
    ensures
        batch_wire(seq![Seq::<u8>::empty()], StreamFormat::Json).len() == 1,
        batch_wire(seq![Seq::<u8>::empty()], StreamFormat::NdJson).len() == 1,
        batch_wire(seq![Seq::<u8>::empty()], StreamFormat::ServerSentEvents).len() == 8,
        batch_wire(seq![Seq::<u8>::empty()], StreamFormat::Binary).len() == 2,
        concat_wire(seq![Seq::<u8>::empty()], StreamFormat::NdJson).len() == 1,
{
    let w = seq![Seq::<u8>::empty()];
    assert(w.drop_last() =~= Seq::<Seq<u8>>::empty());
    assert(w.last() == Seq::<u8>::empty());
    assert(concat_wire(w.drop_last(), StreamFormat::NdJson) == Seq::<u8>::empty());
    assert(concat_wire(w.drop_last(), StreamFormat::ServerSentEvents) == Seq::<u8>::empty());
    assert(frame_wire(w.last(), StreamFormat::NdJson) =~= newline());
    assert(frame_wire(w.last(), StreamFormat::ServerSentEvents) =~= sse_prefix() + blank_line());
    assert(concat_wire(w, StreamFormat::NdJson) =~= newline());
    assert(concat_wire(w, StreamFormat::ServerSentEvents) =~= sse_prefix() + blank_line());
    assert(comma_join(w) == w[0]);
}

/// What a batch stream announces is fixed by the bytes it sends: two formats
/// whose batches are the same bytes for every list of frames announce the same
/// content type.
pub proof fn lemma_batch_content_type_follows_bytes(f: StreamFormat, g: StreamFormat)
    requires
        forall|jsons: Seq<Seq<u8>>| #[trigger] batch_wire(jsons, f) == batch_wire(jsons, g),
    ensures
        batch_content_type(f) == batch_content_type(g),
{
    let w = seq![Seq::<u8>::empty()];
    lemma_one_empty_frame_batches();
    assert(batch_wire(w, f) == batch_wire(w, g));
}

/// A batch stream whose batches are the frames' JSON texts one per line, for
/// every list of frames, announces `application/x-ndjson`.
pub proof fn lemma_line_batches_announce_ndjson(f: StreamFormat)
    requires
        forall|jsons: Seq<Seq<u8>>| #[trigger] batch_wire(jsons, f) == concat_wire(jsons, StreamFormat::NdJson),
    ensures
        batch_content_type(f) == "application/x-ndjson"@,
{
    let w = seq![Seq::<u8>::empty()];
    lemma_one_empty_frame_batches();
    assert(batch_wire(w, f) == concat_wire(w, StreamFormat::NdJson));
}

/// A single frame carries its JSON text intact: as JSON or binary the wire is
/// exactly that text; as NDJSON it is the text and one `\n`; as SSE it is
/// `data: `, the text, and `\n\n`.
pub proof fn lemma_frame_wire_carries_json(json: Seq<u8>)
    ensures
        frame_wire(json, StreamFormat::Json) == json,
        frame_wire(json, StreamFormat::Binary) == json,
        frame_wire(json, StreamFormat::NdJson).len() == json.len() + 1,
        frame_wire(json, StreamFormat::NdJson).subrange(0, json.len() as int) == json,
        frame_wire(json, StreamFormat::NdJson).last() == 10u8,
        frame_wire(json, StreamFormat::ServerSentEvents).len() == json.len() + 8,
        frame_wire(json, StreamFormat::ServerSentEvents).subrange(0, 6) == seq![100u8, 97u8, 116u8, 97u8, 58u8, 32u8],
        frame_wire(json, StreamFormat::ServerSentEvents).subrange(6, json.len() + 6int) == json,
        frame_wire(json, StreamFormat::ServerSentEvents).subrange(json.len() + 6int, json.len() + 8int) == seq![10u8, 10u8],
{
    let nd = frame_wire(json, StreamFormat::NdJson);
    assert(nd.subrange(0, json.len() as int) =~= json);
    let sse = frame_wire(json, StreamFormat::ServerSentEvents);
    assert(sse.subrange(0, 6) =~= seq![100u8, 97u8, 116u8, 97u8, 58u8, 32u8]);
    assert(sse.subrange(6, json.len() + 6int) =~= json);
    assert(sse.subrange(json.len() + 6int, json.len() + 8int) =~= seq![10u8, 10u8]);
}


proof fn lemma_collected_entries_eligible(es: Seq<Seq<char>>)
    ensures
        collect_accept_entries(es).len() <= es.len(),
        forall|k: int|
            0 <= k < collect_accept_entries(es).len() ==> (#[trigger] collect_accept_entries(es)[k]).0.len() > 0
                && supported_media_range(collect_accept_entries(es)[k].0),
    decreases es.len(),
{
    if es.len() > 0 {
        let p = es.drop_last();
        lemma_collected_entries_eligible(p);
        let prev = collect_accept_entries(p);
        let c = collect_accept_entries(es);
        assert forall|k: int| 0 <= k < c.len() implies (#[trigger] c[k]).0.len() > 0
            && supported_media_range(c[k].0) by {
            if k < prev.len() {
                assert(c[k] == prev[k]);
            } else {
                assert(accept_entry(es.last()) is Some);
                assert(c[k] == accept_entry(es.last())->0);
            }
        }
    }
}

/// Negotiation looks at no more than [`MAX_ACCEPT_ENTRIES`] entries, and every
/// entry it keeps has a non-empty, eligible media range.
pub proof fn lemma_accept_entries_bounded_and_eligible(accept: Seq<char>)
    ensures
        accept_entries_spec(accept).len() <= MAX_ACCEPT_ENTRIES,
        forall|k: int|
            0 <= k < accept_entries_spec(accept).len() ==> (#[trigger] accept_entries_spec(accept)[k]).0.len()
                > 0 && supported_media_range(accept_entries_spec(accept)[k].0),
{
    let es = split_seq(accept, ',');
    let considered = if es.len() > MAX_ACCEPT_ENTRIES {
        es.take(MAX_ACCEPT_ENTRIES as int)
    } else {
        es
    };
    lemma_collected_entries_eligible(considered);
}

} // verus!
