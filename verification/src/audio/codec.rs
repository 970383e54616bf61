//! Decoders: what is handed to them and what is made of what they give.

use super::adts::{DecodeOutcome, DecodeStep, DecodedFrame};
use crate::text;
use vstd::prelude::*;
use vstd::slice::slice_subrange;
use vstd::slice::slice_to_vec;

verus! {

/// The room for samples of one decoded AAC frame.
pub const AAC_ROOM: usize = 16_384;

/// The room for samples of one decoded Opus packet: 120 milliseconds of stereo.
pub const OPUS_ROOM: usize = 11_520;

/// The rate of decoded Opus.
pub const OPUS_RATE: u32 = 48_000;

/// The Opus decoder of the crate `ropus`.
#[verifier::external_type_specification]
#[verifier::external_body]
pub struct ExOpusDecoder(ropus::Decoder);

/// The AAC decoder of the crate `fdk-aac`.
#[verifier::external_type_specification]
#[verifier::external_body]
pub struct ExAacDecoder(fdk_aac::dec::Decoder);

/// The packets that an Opus decoder was given, in their order, those among them that
/// it could not decode.
pub uninterp spec fn opus_packets(d: ropus::Decoder) -> Seq<Seq<u8>>;

/// The rate and the number of channels that an Opus decoder was made for.
pub uninterp spec fn opus_format(d: ropus::Decoder) -> (u32, nat);

/// The samples that [`ropus::Decoder::decode`] gives for the last of these packets,
/// where a decoder for stereo at 48 kHz got all of them in their order, each with room
/// for 120 milliseconds; or its error in words.
pub uninterp spec fn opus_decoded(packets: Seq<Seq<u8>>) -> Result<Seq<i16>, Seq<char>>;

/// [`ropus::Decoder::new`] for stereo at 48 kHz, which is one of the rates it takes: a
/// decoder that was given nothing yet.
#[verifier::external_body]
fn open_opus() -> (r: Result<ropus::Decoder, String>)
    ensures
        r is Ok,
        opus_packets(r->Ok_0) == Seq::<Seq<u8>>::empty(),
        opus_format(r->Ok_0) == (48_000u32, 2nat),
{
    match ropus::Decoder::new(48_000, ropus::Channels::Stereo) {
        Ok(d) => Ok(d),
        Err(e) => Err(e.to_string()),
    }
}

/// [`ropus::Decoder::decode`] without error correction: how many samples of each
/// channel it made, or the error in words. The arithmetic is fixed-point, so the
/// samples rest on the packets alone that the decoder got, this one last, and go by
/// the name [`opus_decoded`]; they stand at the front of the room that was given for
/// them. What stands behind them is not said.
#[verifier::external_body]
fn decode_opus(decoder: &mut ropus::Decoder, packet: &[u8], pcm: &mut Vec<i16>) -> (r: Result<
    usize,
    String,
>)
    requires
        opus_format(*old(decoder)) == (48_000u32, 2nat),
        old(pcm)@.len() == OPUS_ROOM,
    ensures
        opus_packets(*final(decoder)) == opus_packets(*old(decoder)).push(packet@),
        opus_format(*final(decoder)) == opus_format(*old(decoder)),
        final(pcm)@.len() == old(pcm)@.len(),
        match r {
            Ok(n) => n * 2 <= final(pcm)@.len() && opus_decoded(
                opus_packets(*old(decoder)).push(packet@),
            ) == Ok::<Seq<i16>, Seq<char>>(final(pcm)@.take(n * 2)),
            Err(e) => opus_decoded(opus_packets(*old(decoder)).push(packet@)) == Err::<
                Seq<i16>,
                Seq<char>,
            >(e@),
        },
{
    match decoder.decode(packet, pcm, ropus::DecodeMode::Normal) {
        Ok(n) => Ok(n),
        Err(e) => Err(e.to_string()),
    }
}

/// The bytes that an AAC decoder was given, frame by frame.
pub uninterp spec fn aac_frames(d: fdk_aac::dec::Decoder) -> Seq<Seq<u8>>;

/// Whether an AAC decoder was made for ADTS.
pub uninterp spec fn aac_is_adts(d: fdk_aac::dec::Decoder) -> bool;

/// [`fdk_aac::dec::Decoder::new`] for ADTS: a decoder that was given nothing yet.
#[verifier::external_body]
fn open_aac() -> (d: fdk_aac::dec::Decoder)
    ensures
        aac_frames(d) == Seq::<Seq<u8>>::empty(),
        aac_is_adts(d),
{
    fdk_aac::dec::Decoder::new(fdk_aac::dec::Transport::Adts)
}

/// [`fdk_aac::dec::Decoder::fill`]: the decoder is given a frame. A decoder for ADTS
/// always takes it, though of one that does not fit its buffer it leaves bytes over.
#[verifier::external_body]
fn fill_aac(decoder: &mut fdk_aac::dec::Decoder, frame: &[u8]) -> (taken: bool)
    requires
        aac_is_adts(*old(decoder)),
    ensures
        taken,
        aac_frames(*final(decoder)) == aac_frames(*old(decoder)).push(frame@),
        aac_is_adts(*final(decoder)),
{
    decoder.fill(frame).is_ok()
}

/// [`fdk_aac::dec::Decoder::decode_frame`]: what became of the call. The samples are
/// made by a library in C whose arithmetic has variants for some machines, so nothing
/// is said of them; only the room for them keeps its length, and the decoder is given
/// nothing.
#[verifier::external_body]
fn decode_aac(decoder: &mut fdk_aac::dec::Decoder, pcm: &mut Vec<i16>) -> (r: DecodeOutcome)
    ensures
        aac_frames(*final(decoder)) == aac_frames(*old(decoder)),
        aac_is_adts(*final(decoder)) == aac_is_adts(*old(decoder)),
        final(pcm)@.len() == old(pcm)@.len(),
{
    match decoder.decode_frame(pcm) {
        Ok(()) => DecodeOutcome::Decoded,
        Err(fdk_aac::dec::DecoderError::NOT_ENOUGH_BITS) => DecodeOutcome::NotEnoughBits,
        Err(fdk_aac::dec::DecoderError::TRANSPORT_SYNC_ERROR) => DecodeOutcome::SyncError,
        Err(_) => DecodeOutcome::Bad,
    }
}

/// [`fdk_aac::dec::Decoder::stream_info`]: what the decoder says of the last frame. It
/// comes out of the library in C, and nothing is said of it.
#[verifier::external_body]
fn aac_info(decoder: &fdk_aac::dec::Decoder) -> (info: DecodedFrame) {
    let i = decoder.stream_info();
    DecodedFrame {
        sample_rate: i.sampleRate,
        aac_sample_rate: i.aacSampleRate,
        num_channels: i.numChannels,
        frame_size: i.frameSize,
    }
}

/// The samples of a decoded Opus packet, where the decoder made so many of each of
/// two channels; none where it made none.
pub open spec fn opus_samples(made: Result<usize, Seq<char>>, pcm: Seq<i16>) -> Option<Seq<i16>> {
    match made {
        Ok(n) => if n == 0 || n * 2 > pcm.len() {
            None
        } else {
            Some(pcm.take(n * 2))
        },
        Err(_) => None,
    }
}

/// The samples of a decoded Opus packet.
pub fn opus_frame(made: &Result<usize, String>, pcm: &Vec<i16>) -> (r: Option<Vec<i16>>)
    ensures
        match r {
            Some(s) => opus_samples(said(*made), pcm@) == Some(s@),
            None => opus_samples(said(*made), pcm@) is None,
        },
        r is Some <==> (*made matches Ok(n) && n > 0 && 2 * n <= pcm@.len()),
        r matches Some(s) ==> (*made matches Ok(n) && s@.len() == 2 * n && s@ == pcm@.take(2 * n)),
{
    match made {
        Ok(n) => {
            let n: usize = *n;
            if n == 0 || n > pcm.len() / 2 {
                return None;
            }
            let s = slice_to_vec(slice_subrange(pcm.as_slice(), 0, n * 2));
            proof {
                assert(s@ =~= pcm@.take(n * 2));
            }
            Some(s)
        },
        Err(_e) => None,
    }
}

/// What a call of the decoder came to.
pub open spec fn said(r: Result<usize, String>) -> Result<usize, Seq<char>> {
    match r {
        Ok(n) => Ok(n),
        Err(e) => Err(e@),
    }
}

/// What is passed on of what the decoder made: nothing where it failed, or made no
/// sample.
pub open spec fn heard(decoded: Result<Seq<i16>, Seq<char>>) -> Option<Seq<i16>> {
    match decoded {
        Ok(s) => if s.len() == 0 {
            None
        } else {
            Some(s)
        },
        Err(_) => None,
    }
}

/// Decodes Opus packets to interleaved stereo.
pub struct OpusPcm {
    decoder: ropus::Decoder,
    pcm: Vec<i16>,
}

impl OpusPcm {
    /// The decoder is one for stereo at 48 kHz, with room for its samples.
    pub closed spec fn wf(&self) -> bool {
        self.pcm@.len() == OPUS_ROOM && opus_format(self.decoder) == (48_000u32, 2nat)
    }

    /// The packets that were decoded so far.
    pub closed spec fn packets(&self) -> Seq<Seq<u8>> {
        opus_packets(self.decoder)
    }

    /// A decoder at the beginning of a stream.
    pub fn new() -> (r: Result<OpusPcm, String>)
        ensures
            r matches Ok(d) && d.wf() && d.packets() == Seq::<Seq<u8>>::empty(),
    {
        match open_opus() {
            Ok(decoder) => {
                let mut pcm: Vec<i16> = Vec::new();
                pcm.resize(OPUS_ROOM, 0);
                Ok(OpusPcm { decoder, pcm })
            },
            Err(e) => Err(text::joined_two("opus: ", e.as_str())),
        }
    }

    /// The samples of the next packet; none where the decoder could not make anything
    /// of it.
    pub fn decode(&mut self, packet: &[u8]) -> (r: Option<Vec<i16>>)
        requires
            old(self).wf(),
        ensures
            final(self).wf(),
            final(self).packets() == old(self).packets().push(packet@),
            match r {
                Some(s) => heard(opus_decoded(final(self).packets())) == Some(s@),
                None => heard(opus_decoded(final(self).packets())) is None,
            },
            opus_decoded(old(self).packets().push(packet@)) matches Ok(s) ==> (r is Some <==> s.len()
                > 0) && (r matches Some(x) ==> x@ == s),
            opus_decoded(old(self).packets().push(packet@)) is Err ==> r is None,
    {
        let made = decode_opus(&mut self.decoder, packet, &mut self.pcm);
        opus_frame(&made, &self.pcm)
    }
}

/// What became of a call of the AAC decoder.
#[derive(Debug)]
pub enum AacStep {
    /// Samples, interleaved.
    Pcm { samples: Vec<i16>, sample_rate: u32, channels: u32 },
    /// Nothing that can be passed on: call again.
    Again,
    /// The decoder wants the next frame.
    NextFrame,
    /// The decoder wants the next frame; this one was skipped.
    Skipped,
}

/// The contents of an [`AacStep`].
#[verifier::ext_equal]
pub enum AacStepView {
    Pcm(Seq<i16>, u32, u32),
    Again,
    NextFrame,
    Skipped,
}

impl View for AacStep {
    type V = AacStepView;

    open spec fn view(&self) -> AacStepView {
        match self {
            AacStep::Pcm { samples, sample_rate, channels } => AacStepView::Pcm(
                samples@,
                *sample_rate,
                *channels,
            ),
            AacStep::Again => AacStepView::Again,
            AacStep::NextFrame => AacStepView::NextFrame,
            AacStep::Skipped => AacStepView::Skipped,
        }
    }
}

/// What is made of a call of the AAC decoder that said `info` and left `pcm`.
pub open spec fn aac_step_of(
    outcome: DecodeOutcome,
    info: DecodedFrame,
    pcm: Seq<i16>,
) -> AacStepView {
    match outcome {
        DecodeOutcome::Decoded => match super::adts::passed_on(info, pcm.len()) {
            Some(p) => AacStepView::Pcm(pcm.take(p.samples as int), p.sample_rate, p.channels),
            None => AacStepView::Again,
        },
        DecodeOutcome::NotEnoughBits => AacStepView::NextFrame,
        DecodeOutcome::SyncError => AacStepView::NextFrame,
        DecodeOutcome::Bad => AacStepView::Skipped,
    }
}

/// What is made of a call of the AAC decoder.
pub fn aac_step(outcome: DecodeOutcome, info: &DecodedFrame, pcm: &Vec<i16>) -> (s: AacStep)
    ensures
        s@ == aac_step_of(outcome, *info, pcm@),
        outcome is NotEnoughBits || outcome is SyncError ==> s is NextFrame,
        outcome is Bad ==> s is Skipped,
        outcome is Decoded ==> (s is Pcm <==> info.num_channels > 0 && info.frame_size > 0
            && info.num_channels * info.frame_size <= pcm@.len()),
        outcome is Decoded ==> s is Pcm || s is Again,
        s matches AacStep::Pcm { samples, sample_rate, channels } ==> {
            &&& samples@ == pcm@.take(info.num_channels * info.frame_size)
            &&& channels == info.num_channels
            &&& info.sample_rate > 0 ==> sample_rate == info.sample_rate
        },
{
    match super::adts::decode_step(outcome) {
        DecodeStep::Emit => match super::adts::frame_pcm(info, pcm.len()) {
            Some(p) => {
                let samples = slice_to_vec(slice_subrange(pcm.as_slice(), 0, p.samples));
                proof {
                    assert(samples@ =~= pcm@.take(p.samples as int));
                }
                AacStep::Pcm { samples, sample_rate: p.sample_rate, channels: p.channels }
            },
            None => AacStep::Again,
        },
        DecodeStep::NextFrame => AacStep::NextFrame,
        DecodeStep::Skip => AacStep::Skipped,
    }
}

/// Decodes ADTS frames.
pub struct AacPcm {
    decoder: fdk_aac::dec::Decoder,
    pcm: Vec<i16>,
}

impl AacPcm {
    /// The decoder is one for ADTS.
    pub closed spec fn wf(&self) -> bool {
        aac_is_adts(self.decoder)
    }

    /// How many samples there is room for.
    pub closed spec fn room(&self) -> nat {
        self.pcm@.len()
    }

    /// The frames that the decoder was given so far.
    pub closed spec fn frames(&self) -> Seq<Seq<u8>> {
        aac_frames(self.decoder)
    }

    /// A decoder at the beginning of a stream.
    pub fn new() -> (d: AacPcm)
        ensures
            d.wf(),
            d.room() == AAC_ROOM,
            d.room() == 8 * 2048,
            d.frames() == Seq::<Seq<u8>>::empty(),
    {
        let mut pcm: Vec<i16> = Vec::new();
        pcm.resize(AAC_ROOM, 0);
        AacPcm { decoder: open_aac(), pcm }
    }

    /// Hands a frame to the decoder. Says whether it took it, which it does.
    pub fn fill(&mut self, frame: &[u8]) -> (taken: bool)
        requires
            old(self).wf(),
        ensures
            taken,
            final(self).wf(),
            final(self).room() == old(self).room(),
            final(self).frames() == old(self).frames().push(frame@),
    {
        fill_aac(&mut self.decoder, frame)
    }

    /// Calls the decoder once.
    pub fn decode(&mut self) -> (s: AacStep)
        requires
            old(self).wf(),
        ensures
            final(self).wf(),
            final(self).room() == old(self).room(),
            final(self).frames() == old(self).frames(),
            exists|outcome: DecodeOutcome, info: DecodedFrame, pcm: Seq<i16>|
                pcm.len() == old(self).room() && s@ == #[trigger] aac_step_of(outcome, info, pcm),
    {
        let outcome = decode_aac(&mut self.decoder, &mut self.pcm);
        let info = match outcome {
            DecodeOutcome::Decoded => aac_info(&self.decoder),
            _ => DecodedFrame {
                sample_rate: 0,
                aac_sample_rate: 0,
                num_channels: 0,
                frame_size: 0,
            },
        };
        let s = aac_step(outcome, &info, &self.pcm);
        proof {
            assert(s@ == aac_step_of(outcome, info, self.pcm@));
        }
        s
    }
}

} // verus!
