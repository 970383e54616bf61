//! Text, JSON, headers, phases, watchers and rings.

use reqwest::header::{HeaderMap, HeaderValue};
use rockcast::json::{parse_json, signed_value, write_json, Json};
use rockcast::local::{
    pick_cpal_device, pick_output_config, play_status, probe_step, start_step, LocalError,
    OutputChoice, ProbeStep, SampleRing, StartStage,
};
use rockcast::audio::live::SourceFormat;
use rockcast::net::{interval_in, metadata_interval, stream_headers, visible_text};
use rockcast::observers::{ObserverAction, StreamObservers};
use rockcast::playback::{PlaybackEvent, PlaybackPhase};
use rockcast::text;

#[test]
fn metadata_header_is_case_tolerant() {
    let mut headers = HeaderMap::new();
    headers.insert("ice-metaint", HeaderValue::from_static("16000"));
    assert_eq!(metadata_interval(&headers), 16_000);
}

#[test]
fn intervals_are_numbers() {
    let headers: HeaderMap<HeaderValue> = HeaderMap::new();
    assert_eq!(metadata_interval(&headers), 0);
    assert_eq!(interval_in(Some(b"8192".to_vec())), 8_192);
    assert_eq!(interval_in(Some(b"many".to_vec())), 0);
    assert_eq!(visible_text(&b"ab".to_vec()), Some("ab".to_string()));
    assert_eq!(visible_text(&vec![0xFF]), None);
}

#[test]
fn streams_are_asked_for_titles() {
    let headers = stream_headers(true);
    assert_eq!(headers.get("icy-metadata").unwrap(), "1");
    assert_eq!(headers.get("connection").unwrap(), "close");
    assert!(stream_headers(false).get("connection").is_none());
}

#[test]
fn words_are_taken_apart() {
    assert_eq!(text::trim("  a b\t"), "a b");
    assert_eq!(text::join_words(" a  b "), "a b");
    assert_eq!(text::ascii_lowercase("AbÄ"), "abÄ");
    assert_eq!(text::decimal_text(1_024), "1024");
    assert_eq!(text::parse_usize("042"), Some(42));
    assert_eq!(text::parse_usize("-1"), None);
    assert!(text::before("a", "b"));
    assert!(text::contains("abcabd", "abd"));
    assert!(text::ends_with("a/tap", "/tap"));
    assert!(!text::starts_with("a", "ab"));
}

#[test]
fn json_comes_back() {
    let j = parse_json("{\"a\":[1,-2,null,true,\"x\"]}").unwrap();
    assert_eq!(write_json(&j).unwrap(), "{\"a\":[1,-2,null,true,\"x\"]}");
    assert_eq!(j.list_of("a").unwrap().len(), 5);
    assert!(j.text_of("a").is_none());
    assert!(parse_json("{").is_err());
    assert!(matches!(parse_json("1.5").unwrap(), Json::Real));
    assert_eq!(parse_json("7").unwrap().as_u64(), Some(7));
    assert_eq!(parse_json("-7").unwrap().as_i64(), Some(-7));
}

#[test]
fn numbers_are_held_as_what_they_are() {
    assert!(matches!(signed_value(5), Json::Unsigned(5)));
    assert!(matches!(signed_value(-5), Json::Negative(-5)));
    for n in [5i64, 0, -5] {
        let text = write_json(&signed_value(n)).unwrap();
        assert_eq!(text, n.to_string());
        assert_eq!(parse_json(&text).unwrap().as_i64(), Some(n));
    }
    let deep = format!("{}1{}", "[".repeat(127), "]".repeat(127));
    assert!(parse_json(&deep).is_ok());
    assert!(parse_json(&format!("[{deep}]")).is_err());
}

#[test]
fn phases_belong_to_attempts() {
    assert_eq!(PlaybackPhase::Idle.generation(), None);
    assert_eq!(PlaybackPhase::Stopping { generation: 4 }.generation(), Some(4));
    assert_eq!(PlaybackEvent::StopOk { generation: 9 }.generation(), 9);
}

#[test]
fn watchers_begin_after_a_while() {
    let mut o = StreamObservers::new();
    assert_eq!(o.schedule(1, "http://x".to_string(), false, 100).len(), 1);
    assert!(o.poll(1, true, true, None, 1_299).is_empty());
    let actions = o.poll(1, true, true, None, 1_300);
    assert_eq!(actions.len(), 2);
    match &actions[1] {
        ObserverAction::Spectrum { url, titles } => {
            assert_eq!(url, "http://x");
            assert!(*titles);
        }
        other => panic!("{other:?}"),
    }
    o.schedule(1, "http://x".to_string(), true, 100);
    assert!(o.poll(2, true, true, None, 2_600).is_empty());
    let actions = o.start("http://x/tap".to_string(), false, None);
    assert_eq!(actions.len(), 1);
}

#[test]
fn outputs_of_this_computer_are_picked() {
    let names = vec![None, Some("A".to_string()), Some("B".to_string())];
    assert_eq!(
        pick_cpal_device(&Some("B".to_string()), &names, None, true).unwrap(),
        Some(2)
    );
    assert_eq!(pick_cpal_device(&None, &names, None, true).unwrap(), None);
    assert!(pick_cpal_device(&None, &names, None, false).is_err());
    assert_eq!(pick_output_config(true, &vec![], None, 2).unwrap(), OutputChoice::Default);
    assert!(pick_output_config(false, &vec![], None, 2).is_err());
}

#[test]
fn a_stream_is_waited_for() {
    let unknown = SourceFormat::unknown();
    assert!(matches!(probe_step(None, unknown, false, 0), ProbeStep::Wait));
    let known = SourceFormat { rate: 44_100, channels: 2 };
    assert!(matches!(
        probe_step(None, known, false, 0),
        ProbeStep::Ready { rate: 44_100, channels: 2 }
    ));
    assert!(matches!(
        probe_step(Some("x".to_string()), unknown, false, 0),
        ProbeStep::GiveUp { .. }
    ));
    assert!(matches!(probe_step(None, unknown, false, 60_000), ProbeStep::GiveUp { .. }));
    assert!(start_step(StartStage::Started, false, None).is_ok());
    assert!(start_step(StartStage::Settled, false, Some("x".to_string())).is_err());
    assert_eq!(LocalError::Audio("x".to_string()).message(), "audio: x");
    assert!(play_status("PC", true).contains("PC"));
}

#[test]
fn a_ring_goes_round() {
    let mut r: SampleRing<u8> = SampleRing::with_capacity(3, 0);
    r.push_slice(&[1, 2, 3]);
    assert_eq!((r.len(), r.capacity()), (3, 3));
    r.discard(2);
    r.push_slice(&[4, 5]);
    assert_eq!(r.sample_at(0), 3);
    assert_eq!(r.sample_at(2), 5);
    r.discard(9);
    assert_eq!(r.len(), 0);
}
