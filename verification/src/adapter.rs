//! The universal streaming adapter: content negotiation, adapter configuration and
//! the responses it builds for frames, errors and health checks.
use vstd::prelude::*;
use vstd::string::*;
use std::marker::PhantomData;
use crate::framework::{JsonData, ResponseBody, UniversalRequest, UniversalResponse, header_lookup};
use crate::json::{json_text, quoted, integer_text, to_json_string};
use crate::string_map::StringMap;
use crate::text::{chars_of, contains_chars, contains_seq};
use crate::ids::{SessionId, uuid_hyphenated};

verus! {

broadcast use vstd::seq_lib::group_seq_properties;

/// Wire formats a streaming response can take.
#[derive(Debug, Clone, Copy, PartialEq, Eq, Structural)]
pub enum StreamingFormat {
    Json,
    Ndjson,
    ServerSentEvents,
    Binary,
}

/// The content type of a format.
pub open spec fn streaming_content_type(f: StreamingFormat) -> Seq<char> {
    match f {
        StreamingFormat::Json => "application/json"@,
        StreamingFormat::Ndjson => "application/x-ndjson"@,
        StreamingFormat::ServerSentEvents => "text/event-stream"@,
        StreamingFormat::Binary => "application/octet-stream"@,
    }
}

/// The format an `Accept` text asks for: event streams first, then NDJSON, then
/// binary, and JSON otherwise (by substring).
pub open spec fn format_for_accept(accept: Seq<char>) -> StreamingFormat {
    if contains_seq(accept, "text/event-stream"@) {
        StreamingFormat::ServerSentEvents
    } else if contains_seq(accept, "application/x-ndjson"@) {
        StreamingFormat::Ndjson
    } else if contains_seq(accept, "application/octet-stream"@) {
        StreamingFormat::Binary
    } else {
        StreamingFormat::Json
    }
}

impl StreamingFormat {
    /// The content type of this format.
    pub fn content_type(&self) -> (r: &'static str)
        ensures
            r@ == streaming_content_type(*self),
    {
        match self {
            StreamingFormat::Json => "application/json",
            StreamingFormat::Ndjson => "application/x-ndjson",
            StreamingFormat::ServerSentEvents => "text/event-stream",
            StreamingFormat::Binary => "application/octet-stream",
        }
    }

    /// The format an `Accept` header asks for.
    pub fn from_accept_header(accept: &str) -> (r: StreamingFormat)
        ensures
            r == format_for_accept(accept@),
    {
        let a = chars_of(accept);
        if contains_chars(&a, &chars_of("text/event-stream")) {
            StreamingFormat::ServerSentEvents
        } else if contains_chars(&a, &chars_of("application/x-ndjson")) {
            StreamingFormat::Ndjson
        } else if contains_chars(&a, &chars_of("application/octet-stream")) {
            StreamingFormat::Binary
        } else {
            StreamingFormat::Json
        }
    }
}

/// The format to answer a request in: from its `Accept` header, JSON without one.
pub fn auto_stream_format(request: &UniversalRequest) -> (r: StreamingFormat)
    ensures
        r == match header_lookup(request.headers.pairs(), "accept"@) {
            Some(a) => format_for_accept(a),
            None => StreamingFormat::Json,
        },
{
    match request.get_header("accept") {
        Some(a) => StreamingFormat::from_accept_header(a.as_str()),
        None => StreamingFormat::Json,
    }
}

/// Configuration of a universal adapter.
#[derive(Debug, Clone)]
pub struct AdapterConfig {
    /// Name of the framework served.
    pub framework_name: String,
    /// Whether streaming responses are supported.
    pub supports_streaming: bool,
    /// Whether server-sent events are supported.
    pub supports_sse: bool,
    /// Content type used when none is given.
    pub default_content_type: String,
    /// Headers added to streaming responses.
    pub default_headers: StringMap,
}

impl Default for AdapterConfig {
    /// The `universal` framework, streaming and events supported, JSON content
    /// type, no extra headers.
    fn default() -> (r: Self)
        ensures
            r.framework_name@ == "universal"@,
            r.supports_streaming,
            r.supports_sse,
            r.default_content_type@ == "application/json"@,
            r.default_headers.wf(),
            r.default_headers@ == Map::<Seq<char>, Seq<char>>::empty(),
    {
        AdapterConfig {
            framework_name: String::from_str("universal"),
            supports_streaming: true,
            supports_sse: true,
            default_content_type: String::from_str("application/json"),
            default_headers: StringMap::new(),
        }
    }
}

/// A frame handed to an adapter: its JSON data, priority and metadata.
#[derive(Debug)]
pub struct StreamFrame {
    /// The frame's JSON data.
    pub data: JsonData,
    /// The frame's priority.
    pub priority: u8,
    /// Metadata attached to the frame.
    pub metadata: StringMap,
}

/// The JSON text of metadata pairs as an object of strings.
pub open spec fn metadata_text(pairs: Seq<(String, String)>) -> Seq<char>
    decreases pairs.len(),
{
    if pairs.len() == 0 {
        Seq::empty()
    } else if pairs.len() == 1 {
        quoted(pairs[0].0@) + seq![':'] + quoted(pairs[0].1@)
    } else {
        metadata_text(pairs.drop_last()) + seq![','] + quoted(pairs.last().0@) + seq![':']
            + quoted(pairs.last().1@)
    }
}

/// The JSON text of a frame: `{"data":…,"priority":…,"metadata":{…}}`.
pub open spec fn frame_text(f: StreamFrame) -> Seq<char> {
    seq!['{'] + quoted("data"@) + seq![':'] + json_text(f.data) + seq![','] + quoted("priority"@)
        + seq![':'] + integer_text(f.priority as i64) + seq![','] + quoted("metadata"@) + seq![
        ':',
        '{',
    ] + metadata_text(f.metadata.pairs()) + seq!['}', '}']
}

/// The members of the metadata object: each pair as a string member.
fn metadata_members(pairs: Vec<(String, String)>) -> (r: Vec<(String, JsonData)>)
    ensures
        crate::json::members_text(r@) == metadata_text(pairs@),
{
    let ghost all = pairs@;
    let n0 = pairs.len();
    let mut pairs = pairs;
    let mut meta: Vec<(String, JsonData)> = Vec::new();
    let mut i: usize = 0;
    while pairs.len() > 0
        invariant
            all.len() == n0,
            i + pairs@.len() == all.len(),
            pairs@ == all.subrange(i as int, all.len() as int),
            meta@.len() == i,
            crate::json::members_text(meta@) == metadata_text(all.subrange(0, i as int)),
        decreases pairs@.len(),
    {
        let (k, v) = pairs.remove(0);
        let ghost m0 = meta@;
        let ghost gk = k@;
        let ghost gv = v@;
        meta.push((k, JsonData::String(v)));
        proof {
            assert(meta@.subrange(0, meta@.len() - 1) =~= m0);
            assert(json_text(meta@[i as int].1) == quoted(gv));
            assert(meta@[i as int].0@ == gk);
            let t = all.subrange(0, i + 1);
            assert(t.drop_last() =~= all.subrange(0, i as int));
            assert(t.last().0@ == gk && t.last().1@ == gv);
            if i == 0 {
                assert(all.subrange(0, 0) =~= Seq::<(String, String)>::empty());
                assert(crate::json::members_text(meta@) == quoted(gk) + seq![':'] + quoted(gv));
            } else {
                assert(crate::json::members_text(meta@) == crate::json::members_text(m0) + seq![',']
                    + quoted(gk) + seq![':'] + quoted(gv));
            }
            assert(pairs@ =~= all.subrange(i + 1, all.len() as int));
        }
        i = i + 1;
    }
    assert(all.subrange(0, i as int) =~= all);
    meta
}

/// The JSON value of a frame, consuming it.
fn frame_json(f: StreamFrame) -> (r: JsonData)
    ensures
        json_text(r) == frame_text(f),
{
    let ghost f0 = f;
    let meta = metadata_members(f.metadata.into_entries());
    let mut members: Vec<(String, JsonData)> = Vec::new();
    members.push((String::from_str("data"), f.data));
    members.push((String::from_str("priority"), JsonData::Integer(f.priority as i64)));
    members.push((String::from_str("metadata"), JsonData::Object(meta)));
    proof {
        let m = members@;
        let m2 = m.subrange(0, 2);
        assert(m2.subrange(0, 1) =~= seq![m[0]]);
        assert(m2[1] == m[1]);
        assert(m2[0] == m[0]);
        assert(crate::json::members_text(m2.subrange(0, 1)) == quoted(m[0].0@) + seq![':'] + json_text(m[0].1));
        assert(crate::json::members_text(m2) == crate::json::members_text(m2.subrange(0, 1)) + seq![','] + quoted(m[1].0@) + seq![':'] + json_text(m[1].1));
        assert(m.subrange(0, 2) == m2);
        assert(crate::json::members_text(m) == crate::json::members_text(m2) + seq![','] + quoted(m[2].0@) + seq![':'] + json_text(m[2].1));
        assert(json_text(m[1].1) == integer_text(f0.priority as i64));
        assert(json_text(m[2].1) == seq!['{'] + crate::json::members_text(meta@) + seq!['}']);
        assert(json_text(JsonData::Object(members)) =~= frame_text(f0));
    }
    JsonData::Object(members)
}

/// The bytes of the frames' JSON texts, one after another.
pub open spec fn frames_bytes(fs: Seq<StreamFrame>) -> Seq<u8>
    decreases fs.len(),
{
    if fs.len() == 0 {
        Seq::empty()
    } else {
        frames_bytes(fs.drop_last()) + vstd::utf8::encode_utf8(frame_text(fs.last()))
    }
}

/// The server-sent event carrying a frame.
pub open spec fn frame_event(f: StreamFrame) -> Seq<char> {
    "data: "@ + frame_text(f) + "\n\n"@
}

/// A framework-neutral streaming adapter.
pub struct UniversalAdapter<Req, Res, E> {
    config: AdapterConfig,
    _phantom: PhantomData<(Req, Res, E)>,
}

impl<Req, Res, E> UniversalAdapter<Req, Res, E> {
    /// The adapter's configuration.
    pub closed spec fn spec_config(&self) -> AdapterConfig {
        self.config
    }

    /// An adapter with the default configuration.
    pub fn new() -> (r: Self)
        ensures
            r.spec_config().framework_name@ == "universal"@,
            r.spec_config().supports_streaming,
            r.spec_config().supports_sse,
            r.spec_config().default_content_type@ == "application/json"@,
            r.spec_config().default_headers.wf(),
            r.spec_config().default_headers@ == Map::<Seq<char>, Seq<char>>::empty(),
    {
        UniversalAdapter { config: AdapterConfig::default(), _phantom: PhantomData }
    }

    /// An adapter with the given configuration.
    pub fn with_config(config: AdapterConfig) -> (r: Self)
        ensures
            r.spec_config() == config,
    {
        UniversalAdapter { config, _phantom: PhantomData }
    }

    /// Replaces the configuration.
    pub fn set_config(&mut self, config: AdapterConfig)
        ensures
            final(self).spec_config() == config,
    {
        self.config = config;
    }

    /// Adds (or replaces) a header sent with streaming responses.
    pub fn add_default_header(&mut self, name: &str, value: &str)
        requires
            old(self).spec_config().default_headers.wf(),
        ensures
            final(self).spec_config().default_headers.wf(),
            final(self).spec_config().default_headers@ == old(self).spec_config().default_headers@.insert(
                name@,
                value@,
            ),
            final(self).spec_config().framework_name == old(self).spec_config().framework_name,
            final(self).spec_config().supports_streaming == old(self).spec_config().supports_streaming,
            final(self).spec_config().supports_sse == old(self).spec_config().supports_sse,
            final(self).spec_config().default_content_type == old(self).spec_config().default_content_type,
    {
        self.config.default_headers.insert(String::from_str(name), String::from_str(value));
    }

    /// The adapter's configuration.
    pub fn config(&self) -> (r: &AdapterConfig)
        ensures
            *r == self.spec_config(),
    {
        &self.config
    }

    /// Whether streaming responses are supported.
    pub fn supports_streaming(&self) -> (r: bool)
        ensures
            r == self.spec_config().supports_streaming,
    {
        self.config.supports_streaming
    }

    /// Whether server-sent events are supported.
    pub fn supports_sse(&self) -> (r: bool)
        ensures
            r == self.spec_config().supports_sse,
    {
        self.config.supports_sse
    }

    /// The name of the framework this adapter serves, as configured.
    pub fn framework_name(&self) -> (r: &str)
        ensures
            r@ == self.spec_config().framework_name@,
    {
        self.config.framework_name.as_str()
    }

    /// The response carrying `frames` in `format`: a JSON array of the frames; NDJSON
    /// lines (with the configured default headers); one server-sent event per frame
    /// (with the session id in `X-PJS-Session-ID`); or the frames' JSON bytes one
    /// after another (with the configured default headers).
    pub fn create_streaming_response(&self, session_id: SessionId, frames: Vec<StreamFrame>, format: StreamingFormat) -> (r: UniversalResponse)
        requires
            self.spec_config().default_headers.wf(),
        ensures
            r.status_code == 200,
            r.headers.wf(),
            r.content_type@ == streaming_content_type(format),
            format == StreamingFormat::Json ==> r.headers@ == Map::<Seq<char>, Seq<char>>::empty()
                && (r.body matches ResponseBody::Json(JsonData::Array(items)) && items@.len() == frames@.len()
                && forall|i: int| 0 <= i < frames@.len() ==> json_text(#[trigger] items@[i]) == frame_text(frames@[i])),
            format == StreamingFormat::Ndjson ==> r.headers@ == self.spec_config().default_headers@
                && (r.body matches ResponseBody::ServerSentEvents(lines) && lines@.len() == frames@.len()
                && forall|i: int| 0 <= i < frames@.len() ==> (#[trigger] lines@[i])@ == frame_text(frames@[i])),
            format == StreamingFormat::ServerSentEvents ==> r.headers@ == Map::<Seq<char>, Seq<char>>::empty().insert(
                "X-PJS-Session-ID"@,
                uuid_hyphenated(session_id.0),
            ) && (r.body matches ResponseBody::ServerSentEvents(events) && events@.len() == frames@.len()
                && forall|i: int| 0 <= i < frames@.len() ==> (#[trigger] events@[i])@ == frame_event(frames@[i])),
            format == StreamingFormat::Binary ==> r.headers@ == self.spec_config().default_headers@
                && (r.body matches ResponseBody::Binary(bytes) && bytes@ == frames_bytes(frames@)),
    {
        let ghost all = frames@;
        let n0 = frames.len();
        let mut frames = frames;
        let mut items: Vec<JsonData> = Vec::new();
        let mut lines: Vec<String> = Vec::new();
        let mut bytes: Vec<u8> = Vec::new();
        let mut i: usize = 0;
        while frames.len() > 0
            invariant
                all.len() == n0,
                i + frames@.len() == all.len(),
                frames@ == all.subrange(i as int, all.len() as int),
                items@.len() == i,
                lines@.len() == i,
                forall|j: int| 0 <= j < i ==> json_text(#[trigger] items@[j]) == frame_text(all[j]),
                forall|j: int| 0 <= j < i ==> (#[trigger] lines@[j])@ == match format {
                    StreamingFormat::ServerSentEvents => frame_event(all[j]),
                    _ => frame_text(all[j]),
                },
                bytes@ == frames_bytes(all.subrange(0, i as int)),
            decreases frames@.len(),
        {
            let f = frames.remove(0);
            let ghost gf = f;
            let item = frame_json(f);
            let text = to_json_string(&item);
            let tb = text.as_str().as_bytes();
            let mut k: usize = 0;
            let ghost b0 = bytes@;
            while k < tb.len()
                invariant
                    k <= tb@.len(),
                    bytes@ == b0 + tb@.subrange(0, k as int),
                decreases tb@.len() - k,
            {
                bytes.push(tb[k]);
                proof {
                    assert(bytes@ =~= b0 + tb@.subrange(0, k + 1));
                }
                k = k + 1;
            }
            proof {
                assert(tb@.subrange(0, tb@.len() as int) =~= tb@);
                let t = all.subrange(0, i + 1);
                assert(t.drop_last() =~= all.subrange(0, i as int));
                assert(t.last() == gf);
                assert(all[i as int] == gf);
            }
            match format {
                StreamingFormat::ServerSentEvents => {
                    let ev = String::from_str("data: ").concat(text.as_str()).concat("\n\n");
                    lines.push(ev);
                },
                _ => {
                    lines.push(text);
                },
            }
            items.push(item);
            proof {
                assert(frames@ =~= all.subrange(i + 1, all.len() as int));
            }
            i = i + 1;
        }
        assert(all.subrange(0, i as int) =~= all);
        match format {
            StreamingFormat::Json => UniversalResponse::json(JsonData::Array(items)),
            StreamingFormat::Ndjson => UniversalResponse {
                status_code: 200,
                headers: self.config.default_headers.duplicate(),
                body: ResponseBody::ServerSentEvents(lines),
                content_type: String::from_str("application/x-ndjson"),
            },
            StreamingFormat::ServerSentEvents => {
                let id = session_id.to_string();
                UniversalResponse::server_sent_events(lines).with_header("X-PJS-Session-ID", id.as_str())
            },
            StreamingFormat::Binary => UniversalResponse {
                status_code: 200,
                headers: self.config.default_headers.duplicate(),
                body: ResponseBody::Binary(bytes),
                content_type: String::from_str("application/octet-stream"),
            },
        }
    }
}

/// Builder of [`UniversalAdapter`]s.
#[derive(Debug, Clone)]
pub struct UniversalAdapterBuilder {
    config: AdapterConfig,
}

impl UniversalAdapterBuilder {
    /// The configuration being built.
    pub closed spec fn spec_config(&self) -> AdapterConfig {
        self.config
    }

    /// A builder starting from the default configuration.
    pub fn new() -> (r: Self)
        ensures
            r.spec_config().framework_name@ == "universal"@,
            r.spec_config().supports_streaming,
            r.spec_config().supports_sse,
            r.spec_config().default_content_type@ == "application/json"@,
            r.spec_config().default_headers.wf(),
            r.spec_config().default_headers@ == Map::<Seq<char>, Seq<char>>::empty(),
    {
        UniversalAdapterBuilder { config: AdapterConfig::default() }
    }

    /// Sets the framework name.
    pub fn framework_name(self, name: &str) -> (r: Self)
        ensures
            r.spec_config() == (AdapterConfig { framework_name: r.spec_config().framework_name, ..self.spec_config() }),
            r.spec_config().framework_name@ == name@,
    {
        let mut this = self;
        this.config.framework_name = String::from_str(name);
        this
    }

    /// Sets streaming support.
    pub fn streaming_support(self, enabled: bool) -> (r: Self)
        ensures
            r.spec_config() == (AdapterConfig { supports_streaming: enabled, ..self.spec_config() }),
    {
        let mut this = self;
        this.config.supports_streaming = enabled;
        this
    }

    /// Sets server-sent event support.
    pub fn sse_support(self, enabled: bool) -> (r: Self)
        ensures
            r.spec_config() == (AdapterConfig { supports_sse: enabled, ..self.spec_config() }),
    {
        let mut this = self;
        this.config.supports_sse = enabled;
        this
    }

    /// Sets the default content type.
    pub fn default_content_type(self, content_type: &str) -> (r: Self)
        ensures
            r.spec_config() == (AdapterConfig { default_content_type: r.spec_config().default_content_type, ..self.spec_config() }),
            r.spec_config().default_content_type@ == content_type@,
    {
        let mut this = self;
        this.config.default_content_type = String::from_str(content_type);
        this
    }

    /// Adds (or replaces) a default header.
    pub fn default_header(self, name: &str, value: &str) -> (r: Self)
        requires
            self.spec_config().default_headers.wf(),
        ensures
            r.spec_config().default_headers.wf(),
            r.spec_config().default_headers@ == self.spec_config().default_headers@.insert(name@, value@),
            r.spec_config().framework_name == self.spec_config().framework_name,
            r.spec_config().supports_streaming == self.spec_config().supports_streaming,
            r.spec_config().supports_sse == self.spec_config().supports_sse,
            r.spec_config().default_content_type == self.spec_config().default_content_type,
    {
        let mut this = self;
        this.config.default_headers.insert(String::from_str(name), String::from_str(value));
        this
    }

    /// The adapter with the built configuration.
    pub fn build<Req, Res, E>(self) -> (r: UniversalAdapter<Req, Res, E>)
        ensures
            r.spec_config() == self.spec_config(),
    {
        UniversalAdapter::with_config(self.config)
    }
}

/// The error response of an adapter: the given status and a JSON object with the
/// message under `error` and the status under `status`.
pub fn default_error_response(status: u16, message: String) -> (r: UniversalResponse)
    ensures
        r.status_code == status,
        r.headers.wf() && r.headers@ == Map::<Seq<char>, Seq<char>>::empty(),
        r.content_type@ == "application/json"@,
        r.body matches ResponseBody::Json(j) && json_text(j) == seq!['{'] + quoted("error"@) + seq![':']
            + quoted(message@) + seq![','] + quoted("status"@) + seq![':'] + integer_text(status as i64)
            + seq!['}'],
{
    let ghost msg = message@;
    let mut members: Vec<(String, JsonData)> = Vec::new();
    members.push((String::from_str("error"), JsonData::String(message)));
    members.push((String::from_str("status"), JsonData::Integer(status as i64)));
    proof {
        let m = members@;
        assert(m.subrange(0, 1) =~= seq![m[0]]);
        assert(crate::json::members_text(m.subrange(0, 1)) == quoted(m[0].0@) + seq![':'] + json_text(m[0].1));
        assert(json_text(m[0].1) == quoted(msg));
        assert(json_text(m[1].1) == integer_text(status as i64));
    }
    let j = JsonData::Object(members);
    assert(json_text(j) =~= seq!['{'] + quoted("error"@) + seq![':'] + quoted(msg) + seq![','] + quoted(
        "status"@,
    ) + seq![':'] + integer_text(status as i64) + seq!['}']);
    let mut r = UniversalResponse::json(j);
    r.status_code = status;
    r
}

/// The JSON text of a boolean.
pub open spec fn bool_text(b: bool) -> Seq<char> {
    if b {
        "true"@
    } else {
        "false"@
    }
}

/// The member text of a four-member object, written out.
proof fn lemma_four_members(m: Seq<(String, JsonData)>)
    requires
        m.len() == 4,
    ensures
        crate::json::members_text(m) == quoted(m[0].0@) + seq![':'] + json_text(m[0].1) + seq![',']
            + quoted(m[1].0@) + seq![':'] + json_text(m[1].1) + seq![','] + quoted(m[2].0@) + seq![':']
            + json_text(m[2].1) + seq![','] + quoted(m[3].0@) + seq![':'] + json_text(m[3].1),
{
    let m1 = m.subrange(0, 1);
    let m2 = m.subrange(0, 2);
    let m3 = m.subrange(0, 3);
    assert(m2.subrange(0, 1) =~= m1);
    assert(m3.subrange(0, 2) =~= m2);
    assert(m.subrange(0, 3) =~= m3);
    assert(crate::json::members_text(m1) == quoted(m[0].0@) + seq![':'] + json_text(m[0].1));
    assert(crate::json::members_text(m2) == crate::json::members_text(m1) + seq![','] + quoted(m[1].0@)
        + seq![':'] + json_text(m[1].1));
    assert(crate::json::members_text(m3) == crate::json::members_text(m2) + seq![','] + quoted(m[2].0@)
        + seq![':'] + json_text(m[2].1));
    assert(crate::json::members_text(m) == crate::json::members_text(m3) + seq![','] + quoted(m[3].0@)
        + seq![':'] + json_text(m[3].1));
    assert(crate::json::members_text(m) =~= quoted(m[0].0@) + seq![':'] + json_text(m[0].1) + seq![',']
        + quoted(m[1].0@) + seq![':'] + json_text(m[1].1) + seq![','] + quoted(m[2].0@) + seq![':']
        + json_text(m[2].1) + seq![','] + quoted(m[3].0@) + seq![':'] + json_text(m[3].1));
}

/// The JSON text of the health-check object.
pub open spec fn health_json_text(framework: Seq<char>, streaming: bool, sse: bool) -> Seq<char> {
    seq!['{'] + (quoted("status"@) + seq![':'] + quoted("healthy"@) + seq![','] + quoted("framework"@)
        + seq![':'] + quoted(framework) + seq![','] + quoted("streaming_support"@) + seq![':']
        + bool_text(streaming) + seq![','] + quoted("sse_support"@) + seq![':'] + bool_text(sse))
        + seq!['}']
}

/// The health-check response of an adapter: a `200` JSON object with `status`
/// `"healthy"`, the framework's name and its streaming and SSE support, and the
/// header `X-Health-Check: pjs`.
pub fn default_health_response(framework: &str, streaming: bool, sse: bool) -> (r: UniversalResponse)
    ensures
        r.status_code == 200,
        r.headers.wf() && r.headers@ == Map::<Seq<char>, Seq<char>>::empty().insert(
            "X-Health-Check"@,
            "pjs"@,
        ),
        r.content_type@ == "application/json"@,
        r.body matches ResponseBody::Json(j) && json_text(j) == health_json_text(framework@, streaming, sse),
{
    let mut members: Vec<(String, JsonData)> = Vec::new();
    members.push((String::from_str("status"), JsonData::String(String::from_str("healthy"))));
    members.push((String::from_str("framework"), JsonData::String(String::from_str(framework))));
    members.push((String::from_str("streaming_support"), JsonData::Bool(streaming)));
    members.push((String::from_str("sse_support"), JsonData::Bool(sse)));
    let j = JsonData::Object(members);
    proof {
        let m = members@;
        lemma_four_members(m);
        assert(json_text(j) == seq!['{'] + crate::json::members_text(m) + seq!['}']);
    }
    let r = UniversalResponse::json(j);
    r.with_header("X-Health-Check", "pjs")
}


/// Whether `t` occurs nowhere in `a`.
pub open spec fn nowhere_in(a: Seq<char>, t: Seq<char>) -> bool {
    forall|i: int| 0 <= i && i + t.len() <= a.len() ==> #[trigger] a.subrange(i, i + t.len()) != t
}

proof fn lemma_occurs_in_middle(before: Seq<char>, t: Seq<char>, after: Seq<char>)
    ensures
        contains_seq(before + t + after, t),
{
    let a = before + t + after;
    assert(a.subrange(before.len() as int, (before.len() + t.len()) as int) =~= t);
    assert(crate::text::occurs_at(a, t, before.len() as int));
}

proof fn lemma_nowhere_not_contained(a: Seq<char>, t: Seq<char>)
    requires
        nowhere_in(a, t),
    ensures
        !contains_seq(a, t),
{
    if contains_seq(a, t) {
        let i = choose|i: int| crate::text::occurs_at(a, t, i);
        assert(a.subrange(i, i + t.len()) == t);
    }
}

/// An `Accept` text that mentions `text/event-stream` anywhere, whatever precedes
/// or follows it, asks for Server-Sent Events.
pub proof fn lemma_event_stream_anywhere(before: Seq<char>, after: Seq<char>)
    ensures
        format_for_accept(before + "text/event-stream"@ + after) == StreamingFormat::ServerSentEvents,
{
    lemma_occurs_in_middle(before, "text/event-stream"@, after);
}

/// An `Accept` text that mentions `application/x-ndjson` anywhere and
/// `text/event-stream` nowhere asks for NDJSON.
pub proof fn lemma_ndjson_anywhere(before: Seq<char>, after: Seq<char>)
    requires
        nowhere_in(before + "application/x-ndjson"@ + after, "text/event-stream"@),
    ensures
        format_for_accept(before + "application/x-ndjson"@ + after) == StreamingFormat::Ndjson,
{
    lemma_occurs_in_middle(before, "application/x-ndjson"@, after);
    lemma_nowhere_not_contained(before + "application/x-ndjson"@ + after, "text/event-stream"@);
}

/// An `Accept` text that mentions `application/octet-stream` anywhere and neither
/// event streams nor NDJSON asks for the binary format.
pub proof fn lemma_octet_stream_anywhere(before: Seq<char>, after: Seq<char>)
    requires
        nowhere_in(before + "application/octet-stream"@ + after, "text/event-stream"@),
        nowhere_in(before + "application/octet-stream"@ + after, "application/x-ndjson"@),
    ensures
        format_for_accept(before + "application/octet-stream"@ + after) == StreamingFormat::Binary,
{
    let a = before + "application/octet-stream"@ + after;
    lemma_occurs_in_middle(before, "application/octet-stream"@, after);
    lemma_nowhere_not_contained(a, "text/event-stream"@);
    lemma_nowhere_not_contained(a, "application/x-ndjson"@);
}

/// An `Accept` text that names none of the streaming media types gets JSON.
pub proof fn lemma_accept_without_streaming_types(a: Seq<char>)
    requires
        nowhere_in(a, "text/event-stream"@),
        nowhere_in(a, "application/x-ndjson"@),
        nowhere_in(a, "application/octet-stream"@),
    ensures
        format_for_accept(a) == StreamingFormat::Json,
{
    lemma_nowhere_not_contained(a, "text/event-stream"@);
    lemma_nowhere_not_contained(a, "application/x-ndjson"@);
    lemma_nowhere_not_contained(a, "application/octet-stream"@);
}

/// A streaming format is only ever picked when the client named it: unless the
/// answer is JSON, the `Accept` text contains the content type of the format
/// chosen.
pub proof fn lemma_accept_names_the_chosen_format(a: Seq<char>)
    ensures
        format_for_accept(a) != StreamingFormat::Json ==> exists|before: Seq<char>, after: Seq<char>|
            a == before + streaming_content_type(format_for_accept(a)) + after,
{
    let f = format_for_accept(a);
    if f != StreamingFormat::Json {
        let t = streaming_content_type(f);
        assert(contains_seq(a, t));
        let i = choose|i: int| crate::text::occurs_at(a, t, i);
        let before = a.subrange(0, i);
        let after = a.subrange(i + t.len(), a.len() as int);
        assert(a =~= before + t + after);
    }
}

} // verus!
