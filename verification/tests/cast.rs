//! Messages to receivers, and the dialogue with them.

use rockcast::cast::channel::{
    asks_for_pong, decode_body, decode_header, encode_frame, handle_heartbeat, json_command,
    short_payload, typed_json, wait_step, ChannelError, Heartbeat, NS_CONNECTION, NS_HEARTBEAT,
    NS_MEDIA, NS_RECEIVER, RECEIVER_ID, SENDER_ID,
};
use rockcast::cast::client::commands;
use rockcast::cast::client::media::{
    candidate_content_types, classify_media_status, read_load_reply, LoadProgress,
};
use rockcast::cast::client::replies::{Awaiting, CastChannel, Received, Reply};
use rockcast::cast::client::service::{
    ping_due, CastDeviceInfo, CastError, CastPlay, CastService, PlayAction, PlayEvent,
};
use rockcast::cast::client::session::{parse_dmr, AppSession};
use rockcast::cast::discovery::{DiscoveredDevice, DiscoveryError};
use rockcast::cast::proto::{
    encode_auth_challenge, read_varint, write_varint, CastMessage, Payload, PayloadType,
    ProtoError,
};
use rockcast::json::{parse_json, write_json, Json};

fn status(state: &str) -> Json {
    let text = format!(
        "{{\"type\":\"MEDIA_STATUS\",\"requestId\":7,\"status\":[{{\"mediaSessionId\":2,\
         \"playerState\":\"{state}\",\"media\":{{\"contentId\":\"http://127.0.0.1/stream\"}}}}]}}"
    );
    parse_json(&text).unwrap()
}

#[test]
fn client_opus_candidates_include_ogg_variants() {
    let values = candidate_content_types("audio/ogg; codecs=opus");
    assert!(values.iter().any(|v| v == "audio/ogg; codecs=opus"));
    assert!(values.iter().any(|v| v == "audio/ogg"));
    assert!(values.iter().any(|v| v == "application/ogg"));
    assert!(values.iter().any(|v| v == "audio/opus"));
}

#[test]
fn media_opus_candidates_include_ogg_variants() {
    let values = candidate_content_types("audio/ogg; codecs=opus");
    assert!(values.iter().any(|v| v == "audio/ogg; codecs=opus"));
    assert!(values.iter().any(|v| v == "audio/ogg"));
    assert!(values.iter().any(|v| v == "application/ogg"));
    assert!(values.iter().any(|v| v == "audio/opus"));
}

#[test]
fn candidates_end_with_mpeg() {
    assert_eq!(
        candidate_content_types(" Audio/AACP "),
        vec!["audio/aacp".to_string(), "audio/mpeg".to_string()]
    );
    assert_eq!(candidate_content_types("audio/mpeg"), vec!["audio/mpeg".to_string()]);
    assert_eq!(candidate_content_types(""), vec!["audio/mpeg".to_string()]);
}

#[test]
fn client_idle_status_is_not_treated_as_success() {
    let payload = status("IDLE");
    assert_eq!(
        classify_media_status(&payload, 7, "http://127.0.0.1/stream").unwrap(),
        LoadProgress::Pending
    );
}

#[test]
fn media_idle_status_is_not_treated_as_success() {
    let payload = status("IDLE");
    assert_eq!(
        classify_media_status(&payload, 7, "http://127.0.0.1/stream").unwrap(),
        LoadProgress::Pending
    );
}

#[test]
fn client_buffering_status_is_treated_as_success() {
    let payload = status("BUFFERING");
    assert_eq!(
        classify_media_status(&payload, 7, "http://127.0.0.1/stream").unwrap(),
        LoadProgress::Ready(Some(2))
    );
}

#[test]
fn media_buffering_status_is_treated_as_success() {
    let payload = status("BUFFERING");
    assert_eq!(
        classify_media_status(&payload, 7, "http://127.0.0.1/stream").unwrap(),
        LoadProgress::Ready(Some(2))
    );
}

#[test]
fn an_idle_receiver_is_given_up() {
    let v = status("IDLE");
    let mut hits = 0u32;
    for _ in 0..9 {
        assert!(matches!(
            read_load_reply(&v, 7, "http://127.0.0.1/stream", &mut hits),
            Ok(None)
        ));
    }
    match read_load_reply(&v, 7, "http://127.0.0.1/stream", &mut hits) {
        Err(e) => assert_eq!(e.message(), "Cast stayed IDLE too long after LOAD"),
        other => panic!("{other:?}"),
    }
}

#[test]
fn a_refused_load_fails() {
    let v = parse_json("{\"type\":\"LOAD_FAILED\",\"requestId\":7}").unwrap();
    let mut hits = 0u32;
    match read_load_reply(&v, 7, "u", &mut hits) {
        Err(e) => assert_eq!(e.message(), "Cast rejected LOAD: LOAD_FAILED"),
        other => panic!("{other:?}"),
    }
    assert!(matches!(read_load_reply(&v, 8, "u", &mut hits), Ok(None)));
}

#[test]
fn roundtrip_string() {
    let msg = CastMessage::string(
        "sender-0",
        "receiver-0",
        "urn:x-cast:com.google.cast.tp.heartbeat",
        r#"{"type":"PING"}"#,
    );
    let encoded = msg.encode();
    let decoded = CastMessage::decode(&encoded).unwrap();
    assert_eq!(decoded.source_id, "sender-0");
    assert_eq!(decoded.destination_id, "receiver-0");
    match decoded.payload {
        Payload::String(s) => assert!(s.contains("PING")),
        _ => panic!("expected string"),
    }
}

#[test]
fn binary_messages_come_back() {
    let msg = CastMessage::binary("a", "b", "ns", vec![0, 255, 7]);
    let decoded = CastMessage::decode(&msg.encode()).unwrap();
    assert_eq!(decoded.namespace, "ns");
    match decoded.payload {
        Payload::Binary(b) => assert_eq!(b, vec![0, 255, 7]),
        _ => panic!("expected bytes"),
    }
    assert_eq!(PayloadType::String.number(), 0);
    assert_eq!(PayloadType::Binary.number(), 1);
}

#[test]
fn messages_are_written_field_by_field() {
    let msg = CastMessage::string("s", "d", "n", "p");
    assert_eq!(
        msg.encode(),
        vec![
            0x08, 0, 0x12, 1, b's', 0x1a, 1, b'd', 0x22, 1, b'n', 0x28, 0, 0x32, 1, b'p'
        ]
    );
    assert_eq!(encode_auth_challenge(), vec![0x0a, 0]);
}

#[test]
fn damaged_messages_are_refused() {
    let good = CastMessage::string("s", "d", "n", "p").encode();
    assert_eq!(
        CastMessage::decode(&good[..good.len() - 1]).unwrap_err(),
        ProtoError::Truncated
    );
    assert_eq!(CastMessage::decode(&[0x08, 0]).unwrap_err(), ProtoError::MissingPayload);
    assert_eq!(
        CastMessage::decode(&[0x12, 1, 0xFF, 0x28, 0]).unwrap_err(),
        ProtoError::Utf8
    );
    assert_eq!(
        CastMessage::decode(&[0xFF; 11]).unwrap_err(),
        ProtoError::BadVarint
    );
}

/// A message with something put in behind its names.
fn with_middle(middle: &[u8]) -> Vec<u8> {
    let mut out = vec![0x08, 0, 0x12, 1, b's', 0x1a, 1, b'd', 0x22, 1, b'n'];
    out.extend_from_slice(middle);
    out.extend_from_slice(&[0x28, 0, 0x32, 1, b'p']);
    out
}

#[test]
fn unknown_fields_are_skipped() {
    let unknown: [&[u8]; 6] = [
        // A number, eight bytes, a run of bytes and four bytes, under the number 9.
        &[0x48, 0x96, 0x01],
        &[0x49, 1, 2, 3, 4, 5, 6, 7, 8],
        &[0x4a, 3, 1, 2, 3],
        &[0x4d, 1, 2, 3, 4],
        // A number under 16, whose key has two bytes.
        &[0x80, 0x01, 5],
        // A number where the source would be a text.
        &[0x10, 7],
    ];
    for middle in unknown {
        let m = CastMessage::decode(&with_middle(middle)).unwrap();
        assert_eq!((m.source_id.as_str(), m.namespace.as_str()), ("s", "n"));
        assert!(matches!(&m.payload, Payload::String(p) if p == "p"));
    }
}

#[test]
fn a_later_field_replaces_an_earlier_one() {
    let m = CastMessage::decode(&with_middle(&[0x12, 2, b'x', b'y'])).unwrap();
    assert_eq!(m.source_id, "xy");
    assert_eq!(m.destination_id, "d");
    let m = CastMessage::decode(&with_middle(&[0x28, 1, 0x32, 1, b'q'])).unwrap();
    assert!(matches!(&m.payload, Payload::String(p) if p == "p"));
}

#[test]
fn numbers_of_varying_length() {
    let mut out: Vec<u8> = Vec::new();
    write_varint(&mut out, 300);
    assert_eq!(out, vec![0xAC, 0x02]);
    assert_eq!(read_varint(&out, 0), Ok((300, 2)));
}

#[test]
fn frames_begin_with_their_length() {
    let msg = CastMessage::string("s", "d", "n", "p");
    let frame = encode_frame(&msg);
    assert_eq!(&frame[..4], &[0, 0, 0, 16]);
    assert_eq!(decode_header([0, 0, 0, 16]).unwrap(), 16);
    assert_eq!(decode_body(&frame[4..]).unwrap().namespace, "n");
    match decode_header([0x7F, 0, 0, 0]) {
        Err(ChannelError::Oversized(n)) => {
            assert_eq!(n, 0x7F00_0000);
            assert_eq!(
                ChannelError::Oversized(n).message(),
                "message too large (2130706432 bytes)"
            );
        }
        other => panic!("{other:?}"),
    }
}

#[test]
fn errors_have_words() {
    assert_eq!(ChannelError::Io("x".to_string()).message(), "TCP: x");
    assert_eq!(ChannelError::Tls("x".to_string()).message(), "TLS: x");
    assert_eq!(ChannelError::Timeout.message(), "timed out waiting for Cast response");
    assert_eq!(ChannelError::Cancelled.message(), "Cast operation cancelled");
    assert_eq!(
        CastError::Discovery(DiscoveryError::Mdns("x".to_string())).message(),
        "mDNS: x"
    );
    assert_eq!(
        CastError::Channel(ChannelError::Msg("y".to_string())).message(),
        "y"
    );
}

#[test]
fn pings_are_answered() {
    let ping = json_command(RECEIVER_ID, NS_HEARTBEAT, &typed_json("PING")).unwrap();
    assert_eq!(ping.source_id, SENDER_ID);
    assert_eq!(handle_heartbeat(&ping), Heartbeat::Pong);
    let pong = json_command(RECEIVER_ID, NS_HEARTBEAT, &typed_json("PONG")).unwrap();
    assert_eq!(handle_heartbeat(&pong), Heartbeat::Quiet);
    let other = json_command(RECEIVER_ID, NS_MEDIA, &typed_json("PING")).unwrap();
    assert_eq!(handle_heartbeat(&other), Heartbeat::Other);
    assert!(asks_for_pong(&parse_json("{\"type\":\"PING\"}")));
    assert!(!short_payload(&ping).is_empty());
}

#[test]
fn waiting_ends() {
    assert!(wait_step(false, 0, 10).is_ok());
    assert!(matches!(wait_step(true, 0, 10), Err(ChannelError::Cancelled)));
    assert!(matches!(wait_step(false, 10, 10), Err(ChannelError::Timeout)));
    assert!(ping_due(5_001));
    assert!(!ping_due(5_000));
}

fn receiver_status(req: u32) -> CastMessage {
    let text = format!(
        "{{\"type\":\"RECEIVER_STATUS\",\"requestId\":{req},\"status\":{{\"applications\":[\
         {{\"appId\":\"CC1AD845\",\"transportId\":\"t\",\"sessionId\":\"s\"}}]}}}}"
    );
    CastMessage::string(RECEIVER_ID, SENDER_ID, NS_RECEIVER, &text)
}

#[test]
fn the_player_of_a_receiver_is_found() {
    let m = receiver_status(3);
    let text = match &m.payload {
        Payload::String(s) => s.clone(),
        Payload::Binary(_) => panic!("text"),
    };
    let app = parse_dmr(&parse_json(&text).unwrap()).unwrap();
    assert_eq!(app.transport_id, "t");
    assert_eq!(app.session_id, "s");
    let other = parse_json(
        "{\"status\":{\"applications\":[{\"appId\":\"X\",\"transportId\":\"t2\",\
         \"sessionId\":\"s2\",\"namespaces\":[{\"name\":\"urn:x-cast:com.google.cast.media\"}]}]}}",
    )
    .unwrap();
    assert_eq!(parse_dmr(&other).unwrap().transport_id, "t2");
    assert!(parse_dmr(&parse_json("{}").unwrap()).is_none());
}

#[test]
fn messages_wait_until_they_are_asked_for() {
    let mut channel = CastChannel::new();
    let first = channel.next_request_id();
    assert_ne!(first, channel.next_request_id());
    let mut load = Awaiting::Load { req: 9, url: "u".to_string(), idle_hits: 0 };
    assert!(matches!(channel.receive(&mut load, receiver_status(3)), Ok(Received::Kept)));
    assert_eq!(channel.inbox.len(), 1);
    let mut wait = Awaiting::Status { req: 3 };
    match channel.scan_inbox(&mut wait) {
        Ok(Some(Reply::Status(Some(app)))) => assert_eq!(app.session_id, "s"),
        other => panic!("{other:?}"),
    }
    assert!(channel.inbox.is_empty());
}

fn device(id: &str, name: &str) -> CastDeviceInfo {
    CastDeviceInfo {
        discovered: DiscoveredDevice {
            name: name.to_string(),
            model: String::new(),
            host: "192.168.1.9".to_string(),
            port: 8009,
            id: id.to_string(),
        },
    }
}

fn app() -> AppSession {
    AppSession { transport_id: "t".to_string(), session_id: "s".to_string() }
}

fn sent(action: PlayAction) -> (Option<String>, Vec<(String, String)>) {
    match action {
        PlayAction::Send { status, commands, wait: _ } => (
            status,
            commands
                .iter()
                .map(|c| (c.destination.clone(), write_json(&c.value).unwrap()))
                .collect(),
        ),
        other => panic!("{other:?}"),
    }
}

fn begin(service: &mut CastService, content_type: &str) -> CastPlay {
    let (mut play, old, words) =
        service.play(&device("d", "Room"), "http://u", content_type, "Title");
    assert!(old.is_empty());
    assert_eq!(words, "Connecting to «Room»…");
    let (status, commands) = sent(play.step(PlayEvent::Connected(CastChannel::new()), false));
    assert_eq!(status, Some("Starting stream: Title".to_string()));
    assert_eq!(
        commands[0].1,
        "{\"type\":\"CONNECT\",\"userAgent\":\"RockCast/0.1\"}"
    );
    assert_eq!(commands[1].1, "{\"requestId\":1,\"type\":\"GET_STATUS\"}");
    play
}

#[test]
fn a_stream_plays_step_by_step() {
    let mut service = CastService::new();
    let mut play = begin(&mut service, "audio/mpeg");
    let (_, commands) = sent(play.step(PlayEvent::Replied(Reply::Status(None)), false));
    assert_eq!(
        commands[0].1,
        "{\"appId\":\"CC1AD845\",\"requestId\":2,\"type\":\"LAUNCH\"}"
    );
    let (_, commands) = sent(play.step(PlayEvent::Replied(Reply::Launched(app())), false));
    assert_eq!(commands[0].0, "t");
    let (_, commands) = sent(play.step(PlayEvent::Sent, false));
    assert_eq!(
        commands[0].1,
        "{\"autoplay\":true,\"currentTime\":0,\"customData\":{},\"media\":{\"contentId\":\
         \"http://u\",\"contentType\":\"audio/mpeg\",\"metadata\":{\"metadataType\":0,\"title\":\
         \"Title\"},\"streamType\":\"LIVE\"},\"requestId\":3,\"sessionId\":\"s\",\"type\":\"LOAD\"}"
    );
    match play.step(PlayEvent::Replied(Reply::Loaded(Some(5))), false) {
        PlayAction::Playing { commands, status } => {
            assert_eq!(status, Some("Playing on «Room»".to_string()));
            assert_eq!(
                write_json(&commands[0].value).unwrap(),
                "{\"mediaSessionId\":5,\"requestId\":4,\"type\":\"PLAY\"}"
            );
        }
        other => panic!("{other:?}"),
    }
    service.keep(play);
    let (_, session) = service.current.as_mut().unwrap();
    assert_eq!(session.send_stop().len(), 4);
    assert_eq!(session.channel.request_id, 7);
    session.channel.request_id = 5;
    let stop = service.stop();
    let texts: Vec<String> = stop.iter().map(|c| write_json(&c.value).unwrap()).collect();
    assert_eq!(
        texts,
        vec![
            "{\"mediaSessionId\":5,\"requestId\":5,\"type\":\"STOP\"}".to_string(),
            "{\"requestId\":6,\"sessionId\":\"s\",\"type\":\"STOP\"}".to_string(),
            "{\"type\":\"CLOSE\",\"userAgent\":\"RockCast/0.1\"}".to_string(),
            "{\"type\":\"CLOSE\",\"userAgent\":\"RockCast/0.1\"}".to_string(),
        ]
    );
    assert_eq!(stop[3].namespace, NS_CONNECTION);
    assert!(service.stop().is_empty());
}

#[test]
fn every_content_type_is_tried() {
    let mut service = CastService::new();
    let mut play = begin(&mut service, "audio/aacp");
    sent(play.step(PlayEvent::Replied(Reply::Status(Some(app()))), false));
    sent(play.step(PlayEvent::Sent, false));
    let (status, commands) = sent(play.step(PlayEvent::Failed(ChannelError::Timeout), false));
    assert_eq!(status, Some("Retry with audio/aacp...".to_string()));
    assert!(commands[0].1.contains("audio/mpeg"));
    match play.step(PlayEvent::Failed(ChannelError::Msg("no".to_string())), false) {
        PlayAction::Fail { status, error } => {
            assert_eq!(status, Some("Retry with audio/mpeg...".to_string()));
            assert_eq!(error.message(), "no");
        }
        other => panic!("{other:?}"),
    }
    service.keep(play);
    assert!(service.current.is_none());
}

#[test]
fn a_cancelled_stream_is_given_up() {
    let mut service = CastService::new();
    let mut play = begin(&mut service, "audio/aacp");
    service.cancel_pending();
    assert!(service.cancel);
    sent(play.step(PlayEvent::Replied(Reply::Status(Some(app()))), false));
    match play.step(PlayEvent::Sent, true) {
        PlayAction::Fail { error, .. } => assert_eq!(error.message(), "Cast operation cancelled"),
        other => panic!("{other:?}"),
    }
}

#[test]
fn another_receiver_takes_over() {
    let mut service = CastService::new();
    let mut play = begin(&mut service, "audio/mpeg");
    sent(play.step(PlayEvent::Replied(Reply::Status(Some(app()))), false));
    sent(play.step(PlayEvent::Sent, false));
    play.step(PlayEvent::Replied(Reply::Loaded(None)), false);
    service.keep(play);
    let (_, old, _) = service.play(&device("other", "Hall"), "http://u", "audio/mpeg", "T");
    assert_eq!(old.len(), 3);
    assert!(service.current.is_none());
}

#[test]
fn commands_are_json() {
    assert_eq!(
        write_json(&commands::stop_app(1, "s")).unwrap(),
        "{\"requestId\":1,\"sessionId\":\"s\",\"type\":\"STOP\"}"
    );
    assert_eq!(
        write_json(&commands::play(1, -4)).unwrap(),
        "{\"mediaSessionId\":-4,\"requestId\":1,\"type\":\"PLAY\"}"
    );
}
