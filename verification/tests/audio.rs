//! Streams: formats, titles, packets, frames and pace.

use rockcast::audio::adts::{
    adts_total_frame_len, decode_step, fdk_pcm_sample_rate, frame_pcm, trim_pending_without_sync,
    AdtsBuffer, AdtsStreamReader, DecodeOutcome, DecodeStep, DecodedFrame,
};
use rockcast::audio::codec::{aac_step, opus_frame, AacPcm, AacStep, OpusPcm};
use rockcast::audio::format::{
    apply_format_hint, apply_hint, find_adts_sync, find_mp3_sync, infer_stream_format,
    is_mp3_stream, parse_stream_title, StreamFormat,
};
use rockcast::audio::icy::{IcyRead, IcyStreamReader};
use rockcast::audio::live::{
    live_plan, must_wait, next_packet, opened, pcm_step, pick_track, track_format, DecodePath,
    PacketOutcome, PcmOutcome, RelayGate, SourceFormat, TrackInfo,
};
use rockcast::audio::opus::{LiveOggOpusReader, OggStep};
use rockcast::audio::pcm::{
    cast_pcm_rate, frame_bytes_for, frame_bytes_for_ms, join_frames, pcm_frames_to_bytes,
    upmix_interleaved, PcmSmoother, SpscAudioRing, SteadyBytePlayout, SteadyPlayout,
};
use rockcast::audio::reading::{
    fill_step, open_step, peek_wants_more, read_format_peek, ChunkBuffer, FillError, FillStep, OpenStep,
    PrefixedReader, ReadOutcome,
};
use rockcast::audio::spectrum::{LevelPublisher, SampleWindow, FFT_SIZE};

#[test]
fn audio_parses_icy_stream_title_case_insensitively() {
    assert_eq!(
        parse_stream_title(b"StreamTitle='Artist - Track';"),
        Some("Artist - Track".to_string())
    );
}

#[test]
fn format_parses_icy_stream_title_case_insensitively() {
    assert_eq!(
        parse_stream_title(b"StreamTitle='Artist - Track';"),
        Some("Artist - Track".to_string())
    );
}

#[test]
fn titles_are_found_in_damaged_text() {
    assert_eq!(
        parse_stream_title(b"STREAMTITLE='A\xff  B';\0\0"),
        Some("A\u{fffd}  B".to_string())
    );
    assert_eq!(parse_stream_title(b"StreamUrl='x';"), None);
    assert_eq!(parse_stream_title(b"StreamTitle='x"), None);
}

#[test]
fn detects_aac_plus_from_adts_sync() {
    let mut adts = vec![0u8; 1200];
    adts[1198] = 0xFF;
    adts[1199] = 0xF1;
    assert_eq!(
        infer_stream_format("http://x/stream", "audio/mpeg", &adts),
        StreamFormat::AacAdts
    );
    assert_eq!(find_adts_sync(&adts), Some(1198));
}

#[test]
fn prefers_aac_content_type_without_peek() {
    assert_eq!(
        infer_stream_format("http://x/stream", "audio/aacp", &[]),
        StreamFormat::AacAdts
    );
}

#[test]
fn somafm_like_sync_with_audio_aac_content_type() {
    let peek = [0xFF, 0xF9, 0x5C, 0x80];
    assert_eq!(
        infer_stream_format("https://ice4.somafm.com/metal-128-aac", "audio/aac", &peek),
        StreamFormat::AacAdts
    );
}

#[test]
fn formats_by_content() {
    assert_eq!(
        infer_stream_format("http://x/s", "audio/ogg", &[]),
        StreamFormat::Ogg
    );
    assert_eq!(
        infer_stream_format("http://x/S.OPUS", "application/octet-stream", &[]),
        StreamFormat::OpusOgg
    );
    assert_eq!(infer_stream_format("http://x/s", "audio/flac", &[]), StreamFormat::Flac);
    assert_eq!(infer_stream_format("http://x/s", "audio/wav", &[]), StreamFormat::Wav);
    assert_eq!(
        infer_stream_format("http://x/s", "", &[0xFF, 0xFB, 0xFF, 0xF1]),
        StreamFormat::Mp3
    );
    assert_eq!(find_mp3_sync(&[0, 0xFF, 0xFB, 0x90]), Some(1));
    assert!(is_mp3_stream("http://x/s.mp3", "audio/mpeg", &[0xFF, 0xFB, 0x90, 0x64]));
}

#[test]
fn hints_name_the_extension() {
    let mut hint = symphonia::core::probe::Hint::new();
    hint.mime_type("audio/aac");
    apply_format_hint(&mut hint, StreamFormat::AacAdts);
    let shown = format!("{hint:?}");
    assert!(shown.contains("extension: Some(\"adts\")"));
    assert!(shown.contains("mime_type: Some(\"audio/aac\")"));
    let mut hint = symphonia::core::probe::Hint::new();
    apply_hint(&mut hint, "http://x/s", "audio/ogg", &[]);
    assert!(format!("{hint:?}").contains("extension: Some(\"ogg\")"));
}

#[test]
fn parses_somafm_first_frame_length() {
    let data = [0xFF, 0xF9, 0x5C, 0x80, 0x5C, 0xE1, 0x8C, 0x21, 0x1B, 0x55];
    let len = adts_total_frame_len(&data).expect("adts len");
    assert!(len >= 7 && len < 2048, "unexpected frame len {len}");
    assert_eq!(len, 743);
}

#[test]
fn audio_analyzer_waits_for_a_full_window() {
    let mut analyzer: SampleWindow<f32> = SampleWindow::new();
    assert!(analyzer.push(&vec![0.0; FFT_SIZE - 1], 0).is_none());
    assert!(analyzer.push(&[0.0], 0).is_some());
}

#[test]
fn spectrum_analyzer_waits_for_a_full_window() {
    let mut analyzer: SampleWindow<f32> = SampleWindow::new();
    assert!(analyzer.push(&vec![0.0; FFT_SIZE - 1], 0).is_none());
    assert!(analyzer.push(&[0.0], 0).is_some());
}

#[test]
fn analyzer_decimates_fft_updates() {
    let mut analyzer: SampleWindow<f32> = SampleWindow::new();
    let first = analyzer.push(&vec![0.0; FFT_SIZE], 0);
    assert!(first.is_some());
    assert!(analyzer.push(&vec![0.0; FFT_SIZE], 0).is_none());
    assert!(analyzer.push(&vec![0.0; FFT_SIZE], 25_000_000).is_some());
}

#[test]
fn levels_are_published_now_and_then() {
    let mut p: LevelPublisher<u8> = LevelPublisher::new();
    assert_eq!(p.publish_limited(1, 0), Some(1));
    assert_eq!(p.publish_limited(2, 1_000_000), None);
    assert_eq!(p.publish_limited(3, 20_000_000), Some(3));
}

/// Audio of three bytes, a block of sixteen, audio again.
fn icy_stream() -> Vec<u8> {
    let mut s = vec![1u8, 2, 3, 1];
    let mut meta = b"StreamTitle='T';".to_vec();
    assert_eq!(meta.len(), 16);
    s.append(&mut meta);
    s.extend_from_slice(&[4, 5, 6, 0, 7]);
    s
}

#[test]
fn audio_comes_out_of_an_icy_stream() {
    let s = icy_stream();
    let mut r = IcyStreamReader::new(3, true);
    let mut at = 0usize;
    let mut audio: Vec<u8> = Vec::new();
    let mut titles: Vec<String> = Vec::new();
    while at < s.len() {
        match r.next_read(2) {
            IcyRead::Audio(n) => {
                let n = n.min(s.len() - at);
                audio.extend_from_slice(&s[at..at + n]);
                r.read_audio(n);
                at += n;
            }
            IcyRead::Length => {
                r.read_length(s[at]);
                at += 1;
            }
            IcyRead::Meta(n) => {
                if let Some(t) = r.read_meta(&s[at..at + n]) {
                    titles.push(t);
                }
                at += n;
            }
        }
    }
    assert_eq!(audio, vec![1, 2, 3, 4, 5, 6, 7]);
    assert_eq!(titles, vec!["T".to_string()]);
}

#[test]
fn a_title_is_told_once() {
    let mut r = IcyStreamReader::new(8, true);
    assert_eq!(r.note_title(Some("A".to_string())), Some("A".to_string()));
    assert_eq!(r.note_title(Some("A".to_string())), None);
    assert_eq!(r.note_title(Some("B".to_string())), Some("B".to_string()));
}

fn ogg_page(kind: u8, segments: &[&[u8]]) -> Vec<u8> {
    let mut page = b"OggS".to_vec();
    page.push(0);
    page.push(kind);
    page.extend_from_slice(&[0; 20]);
    page.push(segments.len() as u8);
    for s in segments {
        page.push(s.len() as u8);
    }
    for s in segments {
        page.extend_from_slice(s);
    }
    page
}

#[test]
fn opus_packets_come_out_of_pages() {
    let mut stream = ogg_page(2, &[b"OpusHead12345678901"]);
    stream.extend(ogg_page(0, &[b"OpusTags"]));
    stream.extend(ogg_page(0, &[b"abc", b"de"]));
    let mut r = LiveOggOpusReader::new();
    let mut at = 0usize;
    let mut packets: Vec<Vec<u8>> = Vec::new();
    loop {
        match r.read_packet() {
            OggStep::Need(n) => {
                if at + n > stream.len() {
                    break;
                }
                r.give(&stream[at..at + n]);
                at += n;
            }
            OggStep::Packet(p) => packets.push(p),
            OggStep::Failed(e) => panic!("{e}"),
        }
    }
    assert_eq!(packets, vec![b"abc".to_vec(), b"de".to_vec()]);
}

#[test]
fn a_stream_that_is_no_ogg_fails() {
    let mut r = LiveOggOpusReader::new();
    match r.read_packet() {
        OggStep::Need(n) => r.give(&vec![b'x'; n]),
        other => panic!("{other:?}"),
    }
    assert!(matches!(r.read_packet(), OggStep::Failed(_)));
}

#[test]
fn a_silent_opus_packet_is_decoded() {
    let mut opus = OpusPcm::new().unwrap();
    let pcm = opus.decode(&[0xF8, 0xFF, 0xFE]).expect("a frame");
    assert_eq!(pcm.len(), 1920);
    assert!(opus_frame(&Err("bad".to_string()), &vec![0i16; 4]).is_none());
    assert_eq!(opus_frame(&Ok(1), &vec![5i16, 6, 7, 8]), Some(vec![5, 6]));
}

/// A silent frame of stereo AAC at 44.1 kHz.
fn silent_adts() -> Vec<u8> {
    let body = [0x21u8, 0x00, 0x49, 0x90, 0x02, 0x19, 0x00, 0x23, 0x80];
    let mut frame = vec![0xFFu8, 0xF1, 0x50, 0x80, 0x02, 0x1F, 0xFC];
    frame.extend_from_slice(&body);
    frame
}

#[test]
fn a_silent_aac_frame_is_decoded() {
    let frame = silent_adts();
    assert_eq!(adts_total_frame_len(&frame), Some(16));
    let mut aac = AacPcm::new();
    let mut heard: Option<(usize, u32, u32)> = None;
    for _ in 0..3 {
        assert!(aac.fill(&frame));
        loop {
            match aac.decode() {
                AacStep::Pcm { samples, sample_rate, channels } => {
                    heard = Some((samples.len(), sample_rate, channels));
                }
                AacStep::Again => {}
                _ => break,
            }
        }
    }
    assert_eq!(heard, Some((2048, 44_100, 2)));
}

#[test]
fn frames_are_cut_out_of_a_stream() {
    let mut r = AdtsStreamReader::new();
    let mut bytes = vec![1u8, 2, 3];
    bytes.extend(silent_adts());
    bytes.extend(silent_adts());
    assert_eq!(r.refill(ReadOutcome::Data(bytes)), Ok(true));
    assert_eq!(r.next_frame(), Some(silent_adts()));
    assert_eq!(r.next_frame(), Some(silent_adts()));
    assert_eq!(r.next_frame(), None);
    assert_eq!(r.refill(ReadOutcome::End), Ok(false));
}

#[test]
fn noise_without_frames_is_dropped() {
    let mut pending = vec![0u8; 262_144];
    trim_pending_without_sync(&mut pending);
    assert_eq!(pending.len(), 262_144);
    pending.push(0);
    trim_pending_without_sync(&mut pending);
    assert!(pending.is_empty());
    let mut pending = vec![0u8; 262_145];
    pending.extend_from_slice(&[0xFF, 0xF1]);
    trim_pending_without_sync(&mut pending);
    assert_eq!(pending, vec![0xFF, 0xF1]);
    let mut b = AdtsBuffer::new();
    b.push(&silent_adts());
    assert_eq!(b.first_frame(Some(16)), Some(silent_adts()));
}

#[test]
fn a_decoded_frame_gives_its_format() {
    let info = DecodedFrame {
        sample_rate: 44_100,
        aac_sample_rate: 22_050,
        num_channels: 2,
        frame_size: 1024,
    };
    assert_eq!(fdk_pcm_sample_rate(&info), 44_100);
    assert_eq!(frame_pcm(&info, 4096).map(|f| f.samples), Some(2048));
    assert_eq!(decode_step(DecodeOutcome::Decoded), DecodeStep::Emit);
    let pcm = vec![7i16; 4096];
    match aac_step(DecodeOutcome::Decoded, &info, &pcm) {
        AacStep::Pcm { samples, sample_rate, channels } => {
            assert_eq!((samples.len(), sample_rate, channels), (2048, 44_100, 2));
        }
        other => panic!("{other:?}"),
    }
}

#[test]
fn samples_are_written_low_byte_first() {
    let bytes = pcm_frames_to_bytes(&[vec![1i16, -2], vec![256]]);
    assert_eq!(bytes, vec![1, 0, 0xFE, 0xFF, 0, 1]);
    assert_eq!(join_frames(&[vec![1u8, 2], vec![3]]), vec![1, 2, 3]);
    assert_eq!(cast_pcm_rate(), 48_000);
}

#[test]
fn channels_are_doubled() {
    assert_eq!(upmix_interleaved(&[1i16, 2], 1, 2), vec![1, 1, 2, 2]);
    assert_eq!(upmix_interleaved(&[1i16, 2, 3, 4], 2, 2), vec![1, 2, 3, 4]);
}

#[test]
fn frames_have_their_size() {
    assert_eq!(frame_bytes_for_ms(48_000, 2, 20), 3_840);
    let size = frame_bytes_for(48_000, 2);
    let mut s = PcmSmoother::new(48_000, 2);
    let out = s.push(&vec![9u8; size + 3]);
    assert_eq!(out.len(), 1);
    assert_eq!(out[0].len(), size);
    assert_eq!(s.flush(), Some(vec![9u8; 3]));
    assert_eq!(s.flush(), None);
}

#[test]
fn playout_keeps_the_pace() {
    let mut p: SteadyPlayout<i16> = SteadyPlayout::new(1_000, 1, 10, 0);
    p.ingest(&vec![3i16; 25]);
    assert_eq!(p.pending_len(), 25);
    let out = p.drain_due(8, 10_000_000);
    assert_eq!(out.len() % 10, 0);
    assert!(p.pending_len() < 25);
    let mut b = SteadyBytePlayout::new(1_000, 1, 10, 0);
    b.ingest(&vec![1u8; 45]);
    let frames = b.drain_due(8, 10_000_000);
    assert!(frames.iter().all(|f| f.len() == 20));
    assert!(b.sleep_hint(0) <= 20_000_000);
}

#[test]
fn a_ring_gives_back_what_went_in() {
    let mut r: SpscAudioRing<u8> = SpscAudioRing::with_capacity(4, 0);
    assert_eq!(r.push_slice(&[1, 2, 3]), 3);
    assert_eq!(r.pop_slice(2), vec![1, 2]);
    assert_eq!(r.push_slice(&vec![4u8; 5_000]), 4_095);
    let out = r.pop_slice(9_999);
    assert_eq!(out.len(), 4_096);
    assert_eq!(&out[..2], &[3, 4]);
    assert_eq!(r.len(), 0);
}

#[test]
fn what_comes_out_of_a_ring_went_in() {
    let mut r: SpscAudioRing<u32> = SpscAudioRing::with_capacity(5_000, 0);
    let (mut accepted, mut popped) = (Vec::new(), Vec::new());
    let mut next = 0u32;
    for round in 0..40usize {
        let samples: Vec<u32> = (next..next + 700).collect();
        let n = r.push_slice(&samples);
        assert_eq!(n, samples.len().min(8_192 - (accepted.len() - popped.len())));
        accepted.extend_from_slice(&samples[..n]);
        next += 700;
        let held = accepted.len() - popped.len();
        let out = r.pop_slice(round * 17);
        assert_eq!(out.len(), held.min(round * 17));
        popped.extend(out);
        assert_eq!(r.len(), accepted.len() - popped.len());
        assert!(accepted.starts_with(&popped));
    }
}

#[test]
fn a_buffer_is_filled_or_fails() {
    let mut got: Vec<u8> = Vec::new();
    assert_eq!(
        fill_step(&mut got, 3, false, ReadOutcome::Data(vec![1, 2])).unwrap(),
        FillStep::More
    );
    assert_eq!(
        fill_step(&mut got, 3, false, ReadOutcome::Data(vec![3])).unwrap(),
        FillStep::Full
    );
    let mut got: Vec<u8> = Vec::new();
    assert_eq!(fill_step(&mut got, 3, false, ReadOutcome::End).unwrap(), FillStep::Empty);
    let mut got: Vec<u8> = vec![1];
    assert!(matches!(
        fill_step(&mut got, 3, false, ReadOutcome::End),
        Err(FillError::Ended)
    ));
    assert!(matches!(
        fill_step(&mut got, 3, true, ReadOutcome::Interrupted),
        Err(FillError::Stopped)
    ));
    assert!(matches!(
        fill_step(&mut got, 3, false, ReadOutcome::Failed("x".to_string())),
        Err(FillError::Failed(_))
    ));
}

#[test]
fn a_look_at_a_stream_ends_with_it() {
    assert!(!peek_wants_more(0, 0));
    assert!(peek_wants_more(3, 4));
    assert!(!peek_wants_more(4, 4));
    let mut got: Vec<u8> = Vec::new();
    assert_eq!(
        read_format_peek(&mut got, 4, false, ReadOutcome::Data(vec![1, 2])),
        Ok(false)
    );
    assert_eq!(read_format_peek(&mut got, 4, false, ReadOutcome::End), Ok(true));
    let mut r = PrefixedReader::new(got, 0u8);
    assert_eq!(r.take_prefix(1), Some(vec![1]));
    assert_eq!(r.take_prefix(9), Some(vec![2]));
    assert_eq!(r.take_prefix(9), None);
    let mut c = ChunkBuffer::new();
    c.put(vec![1, 2, 3]);
    assert_eq!(c.take(2), vec![1, 2]);
    assert_eq!(c.take(2), vec![3]);
}

#[test]
fn opening_ends_in_time() {
    assert_eq!(open_step(true, 0), OpenStep::Stopped);
    assert_eq!(open_step(false, 12_000), OpenStep::TimedOut);
    assert!(matches!(open_step(false, 0), OpenStep::Wait(_)));
}

#[test]
fn streams_are_decoded_by_their_format() {
    let p = live_plan("http://x/s", "audio/aacp", &[]);
    assert_eq!(p.format, StreamFormat::AacAdts);
    assert_eq!(p.path, DecodePath::Aac);
    let p = live_plan("http://x/s", "audio/ogg; codecs=opus", &[]);
    assert_eq!(p.path, DecodePath::Opus);
    let p = live_plan("http://x/s", "audio/mpeg", &[0xFF, 0xFB, 0x90, 0x64]);
    assert_eq!(p.path, DecodePath::Demuxer);
    assert!(opened(false, "404 Not Found", None).is_err());
    assert_eq!(
        opened(true, "200 OK", Some("audio/aac".to_string())),
        Ok("audio/aac".to_string())
    );
}

#[test]
fn the_first_format_stays() {
    let mut f = SourceFormat::unknown();
    f.note(44_100, 2);
    f.note(48_000, 1);
    assert_eq!(f.rate, 44_100);
    let mut g = RelayGate { set: false };
    assert_eq!(g.begin(44_100, 2).map(|f| (f.src_rate, f.out_rate)), Some((44_100, 48_000)));
    assert!(g.begin(44_100, 2).is_none());
}

#[test]
fn packets_of_other_tracks_are_passed_over() {
    assert_eq!(next_packet(1, false, PacketOutcome::Packet(1), false), Ok(true));
    assert_eq!(next_packet(1, false, PacketOutcome::Packet(2), false), Ok(false));
    assert!(next_packet(1, false, PacketOutcome::Failed("x".to_string()), false).is_err());
    let tracks = vec![
        TrackInfo { id: 1, has_codec: false, sample_rate: None, channels: None },
        TrackInfo { id: 2, has_codec: true, sample_rate: Some(44_100), channels: Some(2) },
    ];
    assert_eq!(pick_track(&tracks), Ok(1));
    assert_eq!(track_format(&tracks[1]), Ok((44_100, 2)));
    assert!(pick_track(&vec![]).is_err());
    assert_eq!(pcm_step(PcmOutcome::Samples(4), true), Ok(true));
    assert_eq!(pcm_step(PcmOutcome::Damaged, true), Ok(false));
    assert!(pcm_step(PcmOutcome::Failed("x".to_string()), true).is_err());
    assert!(must_wait(384_000, 1));
    assert!(!must_wait(0, 1));
}
