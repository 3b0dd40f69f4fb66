use pjson_rs::framework::JsonData;
use pjson_rs::json::to_json_string;
use pjson_rs::ws_client::{apply_frame_to_data, stream_request, ClientSessions};
use pjson_rs::ws_protocol::{
    calculate_stream_checksum, plan_stream_messages, PlannedFrame, StreamOptions, WsMessage,
};
use pjson_rs::ws_server::{
    connection_step, looks_like_origin, route_message, upgrade_decision, ConnectionAction,
    ConnectionEvent, ConnectionTable, MessageRoute, OriginAllowList, UpgradeDecision,
};

fn obj(members: &[(&str, &str)]) -> JsonData {
    JsonData::Object(
        members
            .iter()
            .map(|(k, v)| (k.to_string(), JsonData::String(v.to_string())))
            .collect(),
    )
}

#[test]
fn test_checksum_calculation() {
    let empty_frames: Vec<Vec<u8>> = vec![];
    let checksum = calculate_stream_checksum(&empty_frames);
    assert!(checksum.starts_with("sha256:"));

    let single_frame = vec![vec![1, 2, 3, 4]];
    let checksum1 = calculate_stream_checksum(&single_frame);
    assert!(checksum1.starts_with("sha256:"));

    let multi_frames = vec![vec![1, 2], vec![3, 4], vec![5, 6]];
    let checksum2 = calculate_stream_checksum(&multi_frames);
    assert!(checksum2.starts_with("sha256:"));

    let same_frames = vec![vec![1, 2], vec![3, 4], vec![5, 6]];
    let checksum3 = calculate_stream_checksum(&same_frames);
    assert_eq!(checksum2, checksum3);

    let diff_frames = vec![vec![1, 2], vec![3, 4], vec![5, 7]];
    let checksum4 = calculate_stream_checksum(&diff_frames);
    assert_ne!(checksum2, checksum4);

    let reordered_frames = vec![vec![3, 4], vec![1, 2], vec![5, 6]];
    let checksum5 = calculate_stream_checksum(&reordered_frames);
    assert_ne!(checksum2, checksum5);
}

#[test]
fn checksum_of_no_frames_is_sha256_of_eight_zero_bytes() {
    assert_eq!(
        calculate_stream_checksum(&[]),
        "sha256:af5570f5a1810b7af78caf4bc70a660f0df51e42baf91d4de5b2328de0e83dfc"
    );
    assert_eq!(calculate_stream_checksum(&[vec![1]]).len(), 7 + 64);
}

#[test]
fn test_apply_frame_to_data() {
    let mut data = obj(&[("existing", "value")]);
    let payload = obj(&[("new", "data"), ("existing", "updated")]);
    apply_frame_to_data(&mut data, payload);
    assert_eq!(
        to_json_string(&data),
        "{\"existing\":\"updated\",\"new\":\"data\"}"
    );
}

#[test]
fn non_object_payload_replaces_the_data() {
    let mut data = obj(&[("a", "b")]);
    apply_frame_to_data(&mut data, JsonData::Integer(3));
    assert!(matches!(data, JsonData::Integer(3)));
    let mut data = JsonData::Null;
    apply_frame_to_data(&mut data, obj(&[("x", "y")]));
    assert_eq!(to_json_string(&data), "{\"x\":\"y\"}");
}

#[test]
fn stream_plan_numbers_frames_and_ends_with_checksum() {
    let plan = vec![
        PlannedFrame {
            data: JsonData::Integer(1),
            priority: 9,
        },
        PlannedFrame {
            data: JsonData::Bool(false),
            priority: 3,
        },
    ];
    let msgs = plan_stream_messages("s1", plan);
    assert_eq!(msgs.len(), 3);
    match &msgs[0] {
        WsMessage::StreamFrame {
            session_id,
            frame_id,
            priority,
            is_complete,
            ..
        } => {
            assert_eq!(session_id, "s1");
            assert_eq!(*frame_id, 0);
            assert_eq!(*priority, 9);
            assert!(!*is_complete);
        }
        _ => panic!("expected a frame"),
    }
    match &msgs[1] {
        WsMessage::StreamFrame {
            frame_id,
            is_complete,
            ..
        } => {
            assert_eq!(*frame_id, 1);
            assert!(*is_complete);
        }
        _ => panic!("expected a frame"),
    }
    match &msgs[2] {
        WsMessage::StreamComplete {
            session_id,
            checksum,
        } => {
            assert_eq!(session_id, "s1");
            assert_eq!(
                checksum,
                &calculate_stream_checksum(&[b"1".to_vec(), b"false".to_vec()])
            );
        }
        _ => panic!("expected completion"),
    }
}

#[test]
fn client_session_reconstructs_and_acknowledges() {
    let mut sessions = ClientSessions::new();
    sessions.open_session("s".to_string(), 100);
    let reply = sessions.handle_incoming_message(
        WsMessage::StreamFrame {
            session_id: "s".to_string(),
            frame_id: 0,
            priority: 5,
            payload: obj(&[("a", "1")]),
            is_complete: false,
        },
        110,
        115,
    );
    match reply {
        Some(WsMessage::FrameAck {
            session_id,
            frame_id,
            processing_time_ms,
        }) => {
            assert_eq!(session_id, "s");
            assert_eq!(frame_id, 0);
            assert_eq!(processing_time_ms, 5);
        }
        _ => panic!("expected an ack"),
    }
    assert!(!sessions.is_stream_complete("s"));
    sessions.handle_incoming_message(
        WsMessage::StreamFrame {
            session_id: "s".to_string(),
            frame_id: 1,
            priority: 5,
            payload: obj(&[("b", "2")]),
            is_complete: true,
        },
        120,
        129,
    );
    assert!(sessions.is_stream_complete("s"));
    assert_eq!(
        to_json_string(sessions.current_data("s").unwrap()),
        "{\"a\":\"1\",\"b\":\"2\"}"
    );
    let stats = sessions.stream_stats("s", 200).unwrap();
    assert_eq!(stats.total_frames, 2);
    assert_eq!(stats.processed_frames, 2);
    assert!(stats.is_complete);
    assert_eq!(stats.duration_ms, 100);
    assert_eq!(stats.average_processing_time_ms, Some(7));
    assert!(sessions.stream_stats("unknown", 200).is_none());
    assert!(!sessions.is_stream_complete("unknown"));
}

#[test]
fn client_answers_ping_and_marks_completion() {
    let mut sessions = ClientSessions::new();
    sessions.open_session("c".to_string(), 0);
    match sessions.handle_incoming_message(WsMessage::Ping { timestamp: 42 }, 0, 0) {
        Some(WsMessage::Pong { timestamp }) => assert_eq!(timestamp, 42),
        _ => panic!("expected a pong"),
    }
    let r = sessions.handle_incoming_message(
        WsMessage::StreamComplete {
            session_id: "c".to_string(),
            checksum: "sha256:x".to_string(),
        },
        0,
        0,
    );
    assert!(r.is_none());
    assert!(sessions.is_stream_complete("c"));
}

#[test]
fn stream_request_carries_a_fresh_uuid_and_default_options() {
    let (id, msg) = stream_request(JsonData::Integer(1), None).unwrap();
    assert_eq!(id.len(), 36);
    match msg {
        WsMessage::StreamInit {
            session_id,
            options,
            ..
        } => {
            assert_eq!(session_id, id);
            assert_eq!(options.max_frame_size, 65536);
            assert!(options.compression);
        }
        _ => panic!("expected init"),
    }
    let opts = StreamOptions {
        max_frame_size: 10,
        client_fps: Some(30),
        compression: false,
        priority_mapping: None,
    };
    let (_, msg) = stream_request(JsonData::Null, Some(opts)).unwrap();
    match msg {
        WsMessage::StreamInit { options, .. } => assert_eq!(options.client_fps, Some(30)),
        _ => panic!("expected init"),
    }
}

#[test]
fn origin_allowlists() {
    let deny = OriginAllowList::resolve(&[]);
    assert!(matches!(deny, OriginAllowList::DenyAll));
    assert!(!deny.allows(b"https://a.example"));
    let any = OriginAllowList::resolve(&["*".to_string()]);
    assert!(any.allows(b"https://anything.example"));
    let mixed = OriginAllowList::resolve(&["*".to_string(), "https://a.example".to_string()]);
    assert!(matches!(mixed, OriginAllowList::DenyAll));
    let list = OriginAllowList::resolve(&[
        "https://a.example".to_string(),
        "bad\norigin".to_string(),
    ]);
    match &list {
        OriginAllowList::Explicit(v) => assert_eq!(v, &vec!["https://a.example".to_string()]),
        _ => panic!("expected explicit"),
    }
    assert!(list.allows(b"https://a.example"));
    assert!(!list.allows(b"https://A.example"));
    assert!(looks_like_origin("https://a.example"));
    assert!(looks_like_origin("null"));
    assert!(!looks_like_origin("https://a.example/path"));
    assert!(!looks_like_origin("HTTPS://a.example"));
    assert!(!looks_like_origin("a.example"));
}

#[test]
fn upgrade_decisions() {
    let list = OriginAllowList::resolve(&["https://a.example".to_string()]);
    assert_eq!(
        upgrade_decision(Err("slow down".to_string()), None, &list),
        UpgradeDecision::TooManyRequests("slow down".to_string())
    );
    assert_eq!(
        upgrade_decision(Ok(()), Some(b"https://b.example".as_slice()), &list),
        UpgradeDecision::Forbidden
    );
    assert_eq!(
        upgrade_decision(Ok(()), Some(b"https://a.example".as_slice()), &list),
        UpgradeDecision::Accept
    );
    assert_eq!(upgrade_decision(Ok(()), None, &list), UpgradeDecision::Accept);
}

#[test]
fn connection_loop_steps() {
    assert_eq!(
        connection_step(ConnectionEvent::InboundText {
            text: "hi".to_string(),
            rate: Ok(())
        }),
        ConnectionAction::Dispatch("hi".to_string())
    );
    assert_eq!(
        connection_step(ConnectionEvent::InboundBinary {
            len: 9,
            rate: Err("too big".to_string())
        }),
        ConnectionAction::ClosePolicyViolation("too big".to_string())
    );
    assert_eq!(
        connection_step(ConnectionEvent::InboundPing(vec![1, 2])),
        ConnectionAction::SendPong(vec![1, 2])
    );
    assert_eq!(
        connection_step(ConnectionEvent::Broadcast(None)),
        ConnectionAction::Continue
    );
    assert_eq!(connection_step(ConnectionEvent::Exhausted), ConnectionAction::Stop);
    assert_eq!(
        connection_step(ConnectionEvent::BroadcastLagged(3)),
        ConnectionAction::Continue
    );
}

#[test]
fn messages_from_clients_are_routed() {
    match route_message(WsMessage::FrameAck {
        session_id: "s".to_string(),
        frame_id: 4,
        processing_time_ms: 8,
    }) {
        MessageRoute::Acknowledge { frame_id, .. } => assert_eq!(frame_id, 4),
        _ => panic!("expected ack"),
    }
    match route_message(WsMessage::Error {
        session_id: Some("ab".to_string()),
        error: "é".to_string(),
        code: 7,
    }) {
        MessageRoute::ClientError {
            session_id_len,
            code,
            error_len,
        } => {
            assert_eq!(session_id_len, Some(2));
            assert_eq!(code, 7);
            assert_eq!(error_len, 2);
        }
        _ => panic!("expected client error"),
    }
    assert!(matches!(
        route_message(WsMessage::Pong { timestamp: 1 }),
        MessageRoute::Unhandled
    ));
    assert!(matches!(
        route_message(WsMessage::Ping { timestamp: 5 }),
        MessageRoute::Ping(5)
    ));
}

#[test]
fn connection_table_returns_recorded_sessions() {
    let mut t = ConnectionTable::new();
    t.add_connection("c1".to_string());
    t.add_connection("c2".to_string());
    assert_eq!(t.active_count(), 2);
    t.record_session("c1", "s1".to_string());
    t.record_session("c2", "s2".to_string());
    t.record_session("c1", "s3".to_string());
    let removed = t.remove_connection("c1");
    assert_eq!(removed, vec!["s1".to_string(), "s3".to_string()]);
    assert_eq!(t.active_count(), 1);
    assert_eq!(t.remove_connection("zz"), Vec::<String>::new());
}

use pjson_rs::ws_protocol::PlannedFrame as Planned;
use pjson_rs::ws_sessions::{StreamSessionError, StreamSessions, HIGH_PRIORITY};

#[test]
fn stream_sessions_create_start_ack_and_remove() {
    let mut sessions = StreamSessions::new();
    let id = sessions.create_session(obj(&[("k", "v")]), StreamOptions::default(), 10).unwrap();
    assert_eq!(id.len(), 36);
    assert!(sessions.contains(&id));
    assert_eq!(sessions.session_count(), 1);

    let (msgs, was_streaming) = sessions.start_streaming(&id).unwrap();
    assert!(!was_streaming);
    assert_eq!(msgs.len(), 2);
    match &msgs[0] {
        WsMessage::StreamFrame {
            session_id,
            frame_id,
            priority,
            payload,
            is_complete,
        } => {
            assert_eq!(session_id, &id);
            assert_eq!(*frame_id, 0);
            assert_eq!(*priority, HIGH_PRIORITY);
            assert_eq!(to_json_string(payload), "{\"k\":\"v\"}");
            assert!(*is_complete);
        }
        _ => panic!("expected a frame"),
    }
    let expected = plan_stream_messages(
        &id,
        vec![Planned {
            data: obj(&[("k", "v")]),
            priority: HIGH_PRIORITY,
        }],
    );
    match (&msgs[1], &expected[1]) {
        (
            WsMessage::StreamComplete { checksum: a, .. },
            WsMessage::StreamComplete { checksum: b, .. },
        ) => assert_eq!(a, b),
        _ => panic!("expected completion"),
    }
    let (_, was_streaming) = sessions.start_streaming(&id).unwrap();
    assert!(was_streaming);

    assert_eq!(sessions.handle_frame_ack(&id, 0), Ok(()));
    assert_eq!(
        sessions.handle_frame_ack("nope", 0),
        Err(StreamSessionError::InvalidSession("nope".to_string()))
    );
    assert!(matches!(
        sessions.start_streaming("nope"),
        Err(StreamSessionError::InvalidSession(_))
    ));
    assert!(sessions.remove_session(&id));
    assert!(!sessions.remove_session(&id));
    assert_eq!(sessions.session_count(), 0);
}

#[test]
fn stream_sessions_expire_by_age() {
    let mut sessions = StreamSessions::new();
    let old_id = sessions.create_session(JsonData::Null, StreamOptions::default(), 0).unwrap();
    let new_id = sessions.create_session(JsonData::Null, StreamOptions::default(), 900).unwrap();
    let removed = sessions.cleanup_expired_sessions(500, 1000);
    assert_eq!(removed, vec![old_id.clone()]);
    assert!(!sessions.contains(&old_id));
    assert!(sessions.contains(&new_id));
    let none = sessions.cleanup_expired_sessions(100, 1000);
    assert!(none.is_empty());
    let edge = sessions.cleanup_expired_sessions(99, 1000);
    assert_eq!(edge, vec![new_id]);
}
