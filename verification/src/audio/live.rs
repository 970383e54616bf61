//! Live decoding: how a stream is opened, which decoder it goes to, and what each
//! answer of the outside means.

use super::format::StreamFormat;
use super::pcm::CAST_PCM_RATE;
use crate::text;
use vstd::prelude::*;

verus! {

/// How many bytes of a stream are looked at to tell what it holds.
pub const PEEK_BYTES: usize = 8_192;

/// The decoder that a stream goes to.
#[derive(Debug, Clone, Copy, PartialEq, Eq, Structural)]
pub enum DecodePath {
    /// Ogg pages are taken apart here, their packets go to the Opus decoder.
    Opus,
    /// ADTS frames are cut here and go to the AAC decoder.
    Aac,
    /// A demuxer finds the tracks.
    Demuxer,
}

/// How a stream is decoded.
#[derive(Debug, Clone, Copy, PartialEq, Eq, Structural)]
pub struct LivePlan {
    pub format: StreamFormat,
    pub path: DecodePath,
    /// Whether a demuxer is only to look for ADTS.
    pub adts_only: bool,
    /// Rate and channels, where they are known before the first sample.
    pub known: Option<SourceFormat>,
}

/// How a stream of a format is decoded.
pub open spec fn plan_for(format: StreamFormat) -> LivePlan {
    LivePlan {
        format,
        path: match format {
            StreamFormat::OpusOgg => DecodePath::Opus,
            StreamFormat::AacAdts => DecodePath::Aac,
            _ => DecodePath::Demuxer,
        },
        adts_only: format == StreamFormat::AacAdts,
        known: if format == StreamFormat::OpusOgg {
            Some(SourceFormat { rate: 48_000, channels: 2 })
        } else {
            None
        },
    }
}

/// How a stream is decoded, from its address, its content type and its first bytes.
pub fn live_plan(url: &str, content_type: &str, peek: &[u8]) -> (p: LivePlan)
    ensures
        p == plan_for(crate::audio::format::format_of(url@, content_type@, peek@)),
        p.format == crate::audio::format::format_of(url@, content_type@, peek@),
        p.path is Opus <==> p.format is OpusOgg,
        p.path is Aac <==> p.format is AacAdts,
        p.path is Demuxer <==> !(p.format is OpusOgg) && !(p.format is AacAdts),
        p.adts_only <==> p.path is Aac,
        p.known is Some <==> p.path is Opus,
        p.known matches Some(k) ==> k.rate == 48_000 && k.channels == 2,
{
    let format = crate::audio::format::infer_stream_format(url, content_type, peek);
    let path = match format {
        StreamFormat::OpusOgg => DecodePath::Opus,
        StreamFormat::AacAdts => DecodePath::Aac,
        _ => DecodePath::Demuxer,
    };
    let known = match format {
        StreamFormat::OpusOgg => Some(SourceFormat { rate: 48_000, channels: 2 }),
        _ => None,
    };
    LivePlan { format, path, adts_only: format == StreamFormat::AacAdts, known }
}

/// What the answer to a request for a stream means: its content type, or why there
/// is no stream. Where the answer does not say, it is MPEG audio.
pub fn opened(success: bool, status: &str, content_type: Option<String>) -> (r: Result<
    String,
    String,
>)
    ensures
        match r {
            Ok(ct) => success && ct@ == match content_type {
                Some(t) => t@,
                None => "audio/mpeg"@,
            },
            Err(e) => !success && e@ == "HTTP "@ + status@,
        },
{
    if !success {
        return Err(text::joined_two("HTTP ", status));
    }
    match content_type {
        Some(t) => Ok(t),
        None => Ok("audio/mpeg".to_string()),
    }
}

/// Rate and channels of a stream, once they are known.
#[derive(Debug, Clone, Copy, PartialEq, Eq, Structural)]
pub struct SourceFormat {
    /// 0 while it is not known.
    pub rate: u32,
    pub channels: u32,
}

/// A format after rate and channels were noted.
pub open spec fn noted_format(f: SourceFormat, rate: u32, channels: u32) -> SourceFormat {
    if f.rate == 0 {
        SourceFormat {
            rate,
            channels: if channels > 1 {
                channels
            } else {
                1
            },
        }
    } else {
        f
    }
}

impl SourceFormat {
    /// Nothing is known; stereo is likely.
    pub fn unknown() -> (f: SourceFormat)
        ensures
            f.rate == 0,
            f.channels == 2,
    {
        SourceFormat { rate: 0, channels: 2 }
    }

    /// Takes note of rate and channels. What is known stays.
    pub fn note(&mut self, rate: u32, channels: u32)
        ensures
            *final(self) == noted_format(*old(self), rate, channels),
            old(self).rate != 0 ==> *final(self) == *old(self),
            old(self).rate == 0 ==> final(self).rate == rate,
            old(self).rate == 0 && channels >= 1 ==> final(self).channels == channels,
            old(self).rate == 0 && channels == 0 ==> final(self).channels == 1,
    {
        if self.rate == 0 {
            self.rate = rate;
            self.channels = if channels > 1 {
                channels
            } else {
                1
            };
        }
    }
}

/// Once a rate is known it stays, whatever is noted after it.
pub proof fn the_first_rate_stays(f: SourceFormat, rate: u32, channels: u32)
    requires
        f.rate != 0,
    ensures
        noted_format(f, rate, channels) == f,
{
}

/// What a demuxer gave when it was asked for the next packet.
#[derive(Debug)]
pub enum PacketOutcome {
    /// A packet of this track.
    Packet(u32),
    /// The stream has changed so much that decoding has to begin anew.
    ResetRequired,
    /// The stream is over.
    Ended,
    /// Something else went wrong.
    Failed(String),
}

/// Whether the packet that a demuxer gave is to be decoded, or why decoding ends.
/// `stopped` says whether the listener had stopped before, `stopped_since` whether
/// they had afterwards.
pub open spec fn packet_use(
    track: u32,
    stopped: bool,
    outcome: PacketOutcome,
    stopped_since: bool,
) -> Result<bool, Seq<char>> {
    if stopped {
        Err("stopped"@)
    } else {
        match outcome {
            PacketOutcome::Packet(t) => Ok(t == track),
            PacketOutcome::ResetRequired => Err("reset"@),
            PacketOutcome::Ended => Err("eof"@),
            PacketOutcome::Failed(e) => Err(
                if stopped_since {
                    "stopped"@
                } else {
                    e@
                },
            ),
        }
    }
}

/// Whether the packet that a demuxer gave is to be decoded, or why decoding ends.
pub fn next_packet(track: u32, stopped: bool, outcome: PacketOutcome, stopped_since: bool) -> (r:
    Result<bool, String>)
    ensures
        match r {
            Ok(wanted) => packet_use(track, stopped, outcome, stopped_since) == Ok::<
                bool,
                Seq<char>,
            >(wanted),
            Err(e) => packet_use(track, stopped, outcome, stopped_since) == Err::<
                bool,
                Seq<char>,
            >(e@),
        },
        stopped ==> (r matches Err(e) && e@ == "stopped"@),
        !stopped ==> (outcome matches PacketOutcome::Packet(t) ==> (r matches Ok(wanted) && (wanted
            <==> t == track))),
        !stopped && outcome is ResetRequired ==> (r matches Err(e) && e@ == "reset"@),
        !stopped && outcome is Ended ==> (r matches Err(e) && e@ == "eof"@),
        !stopped ==> (outcome matches PacketOutcome::Failed(why) ==> (r matches Err(e) && (
        stopped_since ==> e@ == "stopped"@) && (!stopped_since ==> e@ == why@))),
{
    if stopped {
        return Err("stopped".to_string());
    }
    match outcome {
        PacketOutcome::Packet(t) => Ok(t == track),
        PacketOutcome::ResetRequired => Err("reset".to_string()),
        PacketOutcome::Ended => Err("eof".to_string()),
        PacketOutcome::Failed(e) => if stopped_since {
            Err("stopped".to_string())
        } else {
            Err(e)
        },
    }
}

/// What a demuxer says of a track.
#[derive(Debug, Clone, Copy, PartialEq, Eq, Structural)]
pub struct TrackInfo {
    pub id: u32,
    /// Whether the codec of the track is known.
    pub has_codec: bool,
    pub sample_rate: Option<u32>,
    pub channels: Option<u32>,
}

/// The track that is decoded: the first whose codec is known.
pub open spec fn first_audio(tracks: Seq<TrackInfo>, i: int) -> bool {
    &&& 0 <= i < tracks.len()
    &&& tracks[i].has_codec
    &&& forall|k: int| 0 <= k < i ==> !(#[trigger] tracks[k]).has_codec
}

/// The track that is decoded.
pub fn pick_track(tracks: &Vec<TrackInfo>) -> (r: Result<usize, String>)
    ensures
        match r {
            Ok(i) => first_audio(tracks@, i as int) && i < tracks@.len() && tracks@[i as int].has_codec
                && forall|k: int| 0 <= k < i ==> !(#[trigger] tracks@[k]).has_codec,
            Err(e) => e@ == "no audio track"@ && forall|k: int|
                0 <= k < tracks@.len() ==> !(#[trigger] tracks@[k]).has_codec,
        },
{
    let mut i: usize = 0;
    while i < tracks.len()
        invariant
            i <= tracks@.len(),
            forall|k: int| 0 <= k < i ==> !(#[trigger] tracks@[k]).has_codec,
        decreases tracks@.len() - i,
    {
        if tracks[i].has_codec {
            return Ok(i);
        }
        i = i + 1;
    }
    Err("no audio track".to_string())
}

/// Rate and channels of a track: the rate has to be known, and stereo is assumed
/// where the channels are not.
pub fn track_format(track: &TrackInfo) -> (r: Result<(u32, u32), String>)
    ensures
        match r {
            Ok((rate, channels)) => {
                &&& track.sample_rate == Some(rate)
                &&& channels == match track.channels {
                    Some(c) => if c > 1 {
                        c as int
                    } else {
                        1
                    },
                    None => 2,
                }
            },
            Err(e) => track.sample_rate is None && e@ == "missing sample rate"@,
        },
{
    let rate: u32 = match track.sample_rate {
        Some(r) => r,
        None => return Err("missing sample rate".to_string()),
    };
    let channels: u32 = match track.channels {
        Some(c) => if c > 1 {
            c
        } else {
            1
        },
        None => 2,
    };
    Ok((rate, channels))
}

/// What a decoder gave for a packet.
#[derive(Debug)]
pub enum PcmOutcome {
    /// So many samples.
    Samples(usize),
    /// The packet was damaged.
    Damaged,
    /// Something else went wrong.
    Failed(String),
}

/// Whether the samples of a packet are to be passed on, or why decoding ends. A
/// damaged packet is passed over, and so is an empty one where `skip_empty`.
pub fn pcm_step(outcome: PcmOutcome, skip_empty: bool) -> (r: Result<bool, String>)
    ensures
        match outcome {
            PcmOutcome::Samples(n) => r matches Ok(used) && used == (n > 0 || !skip_empty),
            PcmOutcome::Damaged => r matches Ok(used) && !used,
            PcmOutcome::Failed(e) => r matches Err(m) && m@ == e@,
        },
{
    match outcome {
        PcmOutcome::Samples(n) => Ok(n > 0 || !skip_empty),
        PcmOutcome::Damaged => Ok(false),
        PcmOutcome::Failed(e) => Err(e),
    }
}

/// How samples go to a relay.
#[derive(Debug, Clone, Copy, PartialEq, Eq, Structural)]
pub struct RelayFormat {
    /// The rate from which they are resampled.
    pub src_rate: u32,
    /// The rate at which they go out.
    pub out_rate: u32,
    pub channels: u16,
}

/// Whether the format of a relay was set.
#[derive(Debug, Clone, Copy, PartialEq, Eq, Structural)]
pub struct RelayGate {
    pub set: bool,
}

impl RelayGate {
    /// The format that a relay is to be set to, with the first samples; none with the
    /// others.
    pub fn begin(&mut self, rate: u32, channels: u16) -> (f: Option<RelayFormat>)
        ensures
            final(self).set,
            f == if old(self).set {
                None
            } else {
                Some(RelayFormat { src_rate: rate, out_rate: CAST_PCM_RATE, channels })
            },
            f is Some <==> !old(self).set,
            f matches Some(x) ==> x.src_rate == rate && x.out_rate == 48_000 && x.channels
                == channels,
    {
        if self.set {
            return None;
        }
        self.set = true;
        Some(RelayFormat { src_rate: rate, out_rate: CAST_PCM_RATE, channels })
    }
}

/// How many samples may wait between decoder and sound card: four seconds of stereo
/// at 48 kHz.
pub const RING_MAX: usize = 384_000;

/// Whether decoded samples have to wait before they go into the ring.
pub fn must_wait(waiting: usize, coming: usize) -> (r: bool)
    requires
        waiting + coming <= usize::MAX,
    ensures
        r == (waiting + coming > RING_MAX),
        r <==> waiting + coming > 4 * 48_000 * 2,
{
    waiting + coming > RING_MAX
}

/// Opus in Ogg goes to the Opus decoder and nothing else does, ADTS goes to the AAC decoder
/// and nothing else does, and every other format goes to the demuxer. Rate and channels
/// are known beforehand of Opus alone.
pub proof fn each_format_goes_to_its_decoder(format: StreamFormat)
    ensures
        plan_for(format).format == format,
        plan_for(format).path is Opus <==> format is OpusOgg,
        plan_for(format).path is Aac <==> format is AacAdts,
        plan_for(format).path is Demuxer <==> format is Mp3 || format is Ogg || format is Flac
            || format is Wav,
        plan_for(format).adts_only <==> format is AacAdts,
        plan_for(format).known is Some <==> format is OpusOgg,
        plan_for(format).known matches Some(k) ==> k.rate == 48_000 && k.channels == 2,
{
}

} // verus!
