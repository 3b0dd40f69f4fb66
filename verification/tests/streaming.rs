use pjson_rs::priority::{reorder_by_priority, PrioritizedFrame};
use pjson_rs::streaming::{
    accept_entries, adaptive_payloads, batch_payloads, format_batch_owned, format_for_negotiation,
    format_frame_owned, is_supported_media_range, priority_payloads, route_stream_format,
    streaming_response_headers, supported_media_types, StreamFormat,
};

fn pf(priority: u8, sequence: u64) -> PrioritizedFrame {
    PrioritizedFrame {
        priority,
        sequence,
        payload: format!("{{\"s\":{sequence}}}").into_bytes(),
    }
}

#[test]
fn test_stream_format_detection() {
    let entries = accept_entries("text/event-stream");
    assert_eq!(entries.len(), 1);
    assert_eq!(entries[0].media_range, "text/event-stream");
    let types = supported_media_types();
    let chosen = types
        .iter()
        .position(|(mt, _)| *mt == entries[0].media_range);
    assert!(matches!(
        format_for_negotiation(chosen),
        StreamFormat::ServerSentEvents
    ));
}

#[test]
fn content_types_of_formats() {
    assert_eq!(StreamFormat::Json.content_type(), "application/json");
    assert_eq!(StreamFormat::NdJson.content_type(), "application/x-ndjson");
    assert_eq!(StreamFormat::ServerSentEvents.content_type(), "text/event-stream");
    assert_eq!(StreamFormat::Binary.content_type(), "application/octet-stream");
}

#[test]
fn frame_wire_formats() {
    assert_eq!(format_frame_owned(b"{}", StreamFormat::Json), b"{}".to_vec());
    assert_eq!(format_frame_owned(b"{}", StreamFormat::NdJson), b"{}\n".to_vec());
    assert_eq!(
        format_frame_owned(b"{}", StreamFormat::ServerSentEvents),
        b"data: {}\n\n".to_vec()
    );
    let batch = vec![b"1".to_vec(), b"2".to_vec()];
    assert_eq!(format_batch_owned(&batch, StreamFormat::Binary), b"[1,2]".to_vec());
    assert_eq!(format_batch_owned(&batch, StreamFormat::Json), b"1\n2\n".to_vec());
    assert_eq!(
        format_batch_owned(&batch, StreamFormat::ServerSentEvents),
        b"data: 1\n\ndata: 2\n\n".to_vec()
    );
    assert_eq!(format_batch_owned(&vec![], StreamFormat::Binary), b"[]".to_vec());
}

#[test]
fn batches_are_full_except_the_last() {
    let frames: Vec<Vec<u8>> = (0..5).map(|i| format!("{i}").into_bytes()).collect();
    let out = batch_payloads(frames, StreamFormat::Binary, 2);
    assert_eq!(
        out,
        vec![b"[0,1]".to_vec(), b"[2,3]".to_vec(), b"[4]".to_vec()]
    );
    let out = batch_payloads(vec![b"7".to_vec()], StreamFormat::NdJson, 0);
    assert_eq!(out, vec![b"7\n".to_vec()]);
    assert!(batch_payloads(vec![], StreamFormat::Json, 3).is_empty());
}

#[test]
fn adaptive_payloads_frame_each_json() {
    let jsons = vec![b"{\"a\":1}".to_vec(), b"2".to_vec()];
    let out = adaptive_payloads(&jsons, StreamFormat::NdJson, true);
    assert_eq!(out, vec![b"{\"a\":1}\n".to_vec(), b"2\n".to_vec()]);
}

#[test]
fn reorder_buffer_emits_highest_priority_first() {
    let frames = vec![pf(1, 0), pf(5, 1), pf(3, 2), pf(5, 3)];
    let out = reorder_by_priority(frames, 10);
    let order: Vec<(u8, u64)> = out.iter().map(|f| (f.priority, f.sequence)).collect();
    assert_eq!(order, vec![(5, 1), (5, 3), (3, 2), (1, 0)]);
}

#[test]
fn small_reorder_buffer_only_sorts_within_its_window() {
    let frames = vec![pf(1, 0), pf(5, 1), pf(9, 2)];
    let out = reorder_by_priority(frames, 1);
    let order: Vec<u64> = out.iter().map(|f| f.sequence).collect();
    assert_eq!(order, vec![0, 1, 2]);
    let frames = vec![pf(1, 0), pf(5, 1), pf(9, 2)];
    let out = reorder_by_priority(frames, 2);
    let order: Vec<u64> = out.iter().map(|f| f.sequence).collect();
    assert_eq!(order, vec![1, 2, 0]);
}

#[test]
fn priority_payloads_follow_the_reorder() {
    let out = priority_payloads(vec![pf(1, 0), pf(2, 1)], StreamFormat::NdJson, 4);
    assert_eq!(out, vec![b"{\"s\":1}\n".to_vec(), b"{\"s\":0}\n".to_vec()]);
}

#[test]
fn negotiation_helpers() {
    assert_eq!(route_stream_format(StreamFormat::Binary), StreamFormat::Json);
    assert_eq!(route_stream_format(StreamFormat::NdJson), StreamFormat::NdJson);
    assert_eq!(format_for_negotiation(None), StreamFormat::Json);
    assert_eq!(format_for_negotiation(Some(2)), StreamFormat::NdJson);
    assert!(is_supported_media_range("text/event-stream"));
    assert!(is_supported_media_range("*/*"));
    assert!(!is_supported_media_range("text/*"));
    assert!(is_supported_media_range("image/png"));
    let h = streaming_response_headers("text/event-stream", true);
    assert_eq!(h.len(), 3);
    assert_eq!(h[2], ("x-accel-buffering", "no"));
    assert_eq!(streaming_response_headers("application/json", false).len(), 2);
}

#[test]
fn accept_entries_keep_q_and_drop_unsupported() {
    let entries = accept_entries("text/*, application/json;q=0.5 , text/event-stream; Q = 1");
    assert_eq!(entries.len(), 2);
    assert_eq!(entries[0].media_range, "application/json");
    assert_eq!(entries[0].q, Some("0.5".to_string()));
    assert_eq!(entries[1].media_range, "text/event-stream");
    assert_eq!(entries[1].q, Some("1".to_string()));
    let many = vec!["application/json"; 20].join(",");
    assert_eq!(accept_entries(&many).len(), 16);
}
