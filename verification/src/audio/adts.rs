//! ADTS: AAC in frames that say how long they are.

use super::reading::ReadOutcome;
use vstd::prelude::*;

verus! {

/// How much is kept of a stream in which no frame begins.
pub const MAX_UNSYNCED: usize = 32_768;

/// How much is kept of a stream of which the decoder could not be set up.
pub const MAX_PENDING: usize = 262_144;

/// The length of a frame, its header of seven bytes counted in, where one begins
/// with these bytes.
pub open spec fn frame_len(data: Seq<u8>) -> Option<nat> {
    if data.len() < 7 || !crate::audio::format::is_adts_sync(data[0], data[1]) {
        None
    } else {
        let len = (data[3] % 4) as nat * 2048 + data[4] as nat * 8 + (data[5] / 32) as nat;
        if len >= 7 {
            Some(len)
        } else {
            None
        }
    }
}

/// The length of a frame that begins with these bytes.
pub fn adts_total_frame_len(data: &[u8]) -> (r: Option<usize>)
    ensures
        match r {
            Some(n) => frame_len(data@) == Some(n as nat) && 7 <= n < 8192,
            None => frame_len(data@) is None,
        },
        r matches Some(n) ==> data@.len() >= 7 && data@[0] == 255 && n == data@[3] % 4 * 2048
            + data@[4] * 8 + data@[5] / 32,
        data@.len() >= 7 && data@[0] == 255 && (data@[1] == 240 || data@[1] == 241 || data@[1]
            == 248 || data@[1] == 249) && data@[3] % 4 * 2048 + data@[4] * 8 + data@[5] / 32 >= 7
            ==> r is Some,
        data@.len() < 7 ==> r is None,
{
    proof {
        if data@.len() >= 7 {
            crate::audio::format::the_bytes_that_begin_a_frame(data@[0], data@[1]);
        }
    }
    if data.len() < 7 || data[0] != 0xFF || (data[1] & 0xF6) != 0xF0 {
        return None;
    }
    let len: usize = (data[3] % 4) as usize * 2048 + data[4] as usize * 8 + (data[5] / 32) as usize;
    if len >= 7 {
        Some(len)
    } else {
        None
    }
}

/// Cuts a stream into ADTS frames.
#[derive(Debug)]
pub struct AdtsStreamReader {
    /// Bytes that were read and not given out.
    pub pending: Vec<u8>,
}

/// What a reader comes to with the bytes that it holds: what it keeps, and a frame
/// where one is complete. What stands before the first sync is dropped; where there
/// is no sync, much is dropped altogether.
pub open spec fn next_frame_of(pending: Seq<u8>) -> (Seq<u8>, Option<Seq<u8>>) {
    if exists|i: int| crate::audio::format::adts_sync_at(pending, i) {
        let rest = pending.skip(sync_of(pending));
        match frame_len(rest) {
            Some(n) => if rest.len() >= n {
                (rest.skip(n as int), Some(rest.take(n as int)))
            } else {
                (rest, None)
            },
            None => (rest, None),
        }
    } else if pending.len() > MAX_UNSYNCED {
        (Seq::empty(), None)
    } else {
        (pending, None)
    }
}

/// Where the first frame can begin, in bytes that hold a sync.
pub open spec fn sync_of(bytes: Seq<u8>) -> int {
    choose|i: int|
        #![trigger crate::audio::format::adts_sync_at(bytes, i)]
        crate::audio::format::adts_sync_at(bytes, i) && forall|k: int|
            0 <= k < i ==> !crate::audio::format::adts_sync_at(bytes, k)
}

proof fn lemma_sync(bytes: Seq<u8>, i: usize)
    requires
        crate::audio::format::first_adts_sync(bytes, Some(i)),
    ensures
        sync_of(bytes) == i,
{
    assert(crate::audio::format::adts_sync_at(bytes, i as int));
}

/// What a read means for a reader: whether the stream goes on, or why not.
pub open spec fn refilled(pending: Seq<u8>, outcome: ReadOutcome) -> (
    Seq<u8>,
    Result<bool, Seq<char>>,
) {
    match outcome {
        ReadOutcome::Data(d) => (pending + d@, Ok(true)),
        ReadOutcome::End => (pending, Ok(false)),
        ReadOutcome::Interrupted => (pending, Ok(true)),
        ReadOutcome::Failed(e) => (pending, Err(e@)),
    }
}

impl AdtsStreamReader {
    /// A reader at the beginning of a stream.
    pub fn new() -> (r: AdtsStreamReader)
        ensures
            r.pending@.len() == 0,
    {
        AdtsStreamReader { pending: Vec::new() }
    }

    /// The next frame, where one is complete; else bytes have to be read first.
    pub fn next_frame(&mut self) -> (frame: Option<Vec<u8>>)
        ensures
            final(self).pending@ == next_frame_of(old(self).pending@).0,
            match frame {
                Some(f) => next_frame_of(old(self).pending@).1 == Some(f@),
                None => next_frame_of(old(self).pending@).1 is None,
            },
    {
        let ghost before = self.pending@;
        match crate::audio::format::find_adts_sync(self.pending.as_slice()) {
            Some(sync) => {
                proof {
                    lemma_sync(before, sync);
                    assert(crate::audio::format::adts_sync_at(before, sync as int));
                }
                self.pending = self.pending.split_off(sync);
                proof {
                    assert(self.pending@ =~= before.skip(sync as int));
                }
                match adts_total_frame_len(self.pending.as_slice()) {
                    Some(n) => {
                        if self.pending.len() >= n {
                            let ghost rest = self.pending@;
                            let tail = self.pending.split_off(n);
                            let mut frame: Vec<u8> = tail;
                            std::mem::swap(&mut frame, &mut self.pending);
                            proof {
                                assert(frame@ =~= rest.take(n as int));
                                assert(self.pending@ =~= rest.skip(n as int));
                            }
                            return Some(frame);
                        }
                    },
                    None => {},
                }
                None
            },
            None => {
                if self.pending.len() > MAX_UNSYNCED {
                    self.pending.clear();
                }
                None
            },
        }
    }

    /// Takes in what a read gave. Says whether the stream goes on.
    pub fn refill(&mut self, outcome: ReadOutcome) -> (r: Result<bool, String>)
        ensures
            final(self).pending@ == refilled(old(self).pending@, outcome).0,
            match r {
                Ok(more) => refilled(old(self).pending@, outcome).1 == Ok::<bool, Seq<char>>(more),
                Err(e) => refilled(old(self).pending@, outcome).1 == Err::<bool, Seq<char>>(e@),
            },
            outcome matches ReadOutcome::Data(d) ==> r == Ok::<bool, String>(true)
                && final(self).pending@ == old(self).pending@ + d@,
            outcome is End ==> r == Ok::<bool, String>(false) && final(self).pending@ == old(
                self,
            ).pending@,
            outcome is Interrupted ==> r == Ok::<bool, String>(true) && final(self).pending@ == old(
                self,
            ).pending@,
            outcome matches ReadOutcome::Failed(why) ==> (r matches Err(e) && e@ == why@)
                && final(self).pending@ == old(self).pending@,
    {
        match outcome {
            ReadOutcome::Data(d) => {
                let mut d = d;
                self.pending.append(&mut d);
                Ok(true)
            },
            ReadOutcome::End => Ok(false),
            ReadOutcome::Interrupted => Ok(true),
            ReadOutcome::Failed(e) => Err(e),
        }
    }
}

/// A frame that is given out begins with a sync, is as long as its header says, and
/// stands in the stream where it was found: only bytes before the first sync are
/// dropped, and those behind the frame are kept.
pub proof fn frames_are_cut_where_they_begin(pending: Seq<u8>)
    ensures
        next_frame_of(pending).1 matches Some(frame) ==> {
            &&& exists|i: int|
                {
                    &&& 0 <= i
                    &&& i + frame.len() <= pending.len()
                    &&& frame == #[trigger] pending.subrange(i, i + frame.len())
                    &&& next_frame_of(pending).0 == pending.skip(i + frame.len())
                    &&& forall|k: int|
                        0 <= k < i ==> !crate::audio::format::adts_sync_at(pending, k)
                }
            &&& frame_len(frame) == Some(frame.len())
            &&& crate::audio::format::adts_sync_at(frame, 0)
        },
{
    if let Some(frame) = next_frame_of(pending).1 {
        let w = choose|i: int| crate::audio::format::adts_sync_at(pending, i);
        let i = lemma_first(pending, w);
        lemma_sync_is(pending, i);
        let rest = pending.skip(i);
        let n = frame.len() as int;
        assert(frame =~= pending.subrange(i, i + n));
        assert(rest.skip(n) =~= pending.skip(i + n));
        assert(frame[0] == rest[0] && frame[1] == rest[1] && frame[3] == rest[3] && frame[4]
            == rest[4] && frame[5] == rest[5]);
    }
}

proof fn lemma_sync_is(bytes: Seq<u8>, i: int)
    requires
        crate::audio::format::adts_sync_at(bytes, i),
        forall|k: int| 0 <= k < i ==> !crate::audio::format::adts_sync_at(bytes, k),
    ensures
        sync_of(bytes) == i,
{
}

proof fn lemma_first(bytes: Seq<u8>, w: int) -> (i: int)
    requires
        crate::audio::format::adts_sync_at(bytes, w),
    ensures
        0 <= i <= w,
        crate::audio::format::adts_sync_at(bytes, i),
        forall|k: int| 0 <= k < i ==> !crate::audio::format::adts_sync_at(bytes, k),
    decreases w,
{
    if exists|k: int| 0 <= k < w && crate::audio::format::adts_sync_at(bytes, k) {
        let k = choose|k: int| 0 <= k < w && crate::audio::format::adts_sync_at(bytes, k);
        lemma_first(bytes, k)
    } else {
        w
    }
}

/// Bytes for a decoder that is set up with the first whole frame.
#[derive(Debug)]
pub struct AdtsBuffer {
    /// Bytes that were pushed and not handed on.
    pub pending: Vec<u8>,
    /// Whether the decoder is set up.
    pub ready: bool,
}

/// Bytes from the first sync on, or all where there is none.
pub open spec fn aligned(bytes: Seq<u8>) -> Seq<u8> {
    if exists|i: int| crate::audio::format::adts_sync_at(bytes, i) {
        bytes.skip(sync_of(bytes))
    } else {
        bytes
    }
}

impl AdtsBuffer {
    /// A buffer with nothing in it, for a decoder that is not set up.
    pub fn new() -> (b: AdtsBuffer)
        ensures
            b.pending@.len() == 0,
            !b.ready,
    {
        AdtsBuffer { pending: Vec::new(), ready: false }
    }

    /// Takes in bytes. While the decoder is not set up, what stands before the first
    /// sync is dropped.
    pub fn push(&mut self, data: &[u8])
        ensures
            final(self).ready == old(self).ready,
            final(self).pending@ == if old(self).ready {
                old(self).pending@ + data@
            } else {
                aligned(old(self).pending@ + data@)
            },
    {
        self.pending.extend_from_slice(data);
        if self.ready {
            return;
        }
        let ghost before = old(self).pending@ + data@;
        proof {
            assert(self.pending@ =~= before);
        }
        if let Some(sync) = crate::audio::format::find_adts_sync(self.pending.as_slice()) {
            proof {
                lemma_sync(before, sync);
                assert(crate::audio::format::adts_sync_at(before, sync as int));
            }
            self.pending = self.pending.split_off(sync);
            proof {
                assert(self.pending@ =~= before.skip(sync as int));
            }
        }
    }

    /// The bytes to set the decoder up with, where the header that was parsed from
    /// the beginning gives the length of a frame that is complete.
    pub fn first_frame(&self, header: Option<usize>) -> (frame: Option<Vec<u8>>)
        ensures
            match frame {
                Some(f) => header matches Some(n) && n <= self.pending@.len() && !self.ready && f@
                    == self.pending@.take(n as int),
                None => self.ready || match header {
                    Some(n) => n > self.pending@.len(),
                    None => true,
                },
            },
    {
        if self.ready {
            return None;
        }
        match header {
            Some(n) => {
                if self.pending.len() < n {
                    return None;
                }
                let f = vstd::slice::slice_to_vec(
                    vstd::slice::slice_subrange(self.pending.as_slice(), 0, n),
                );
                proof {
                    assert(f@ =~= self.pending@.take(n as int));
                }
                Some(f)
            },
            None => None,
        }
    }

    /// Hands on what the decoder is to get: all of it once it is set up, else
    /// nothing, and then too much is not kept.
    pub fn hand_on(&mut self) -> (bytes: Vec<u8>)
        ensures
            final(self).ready == old(self).ready,
            old(self).ready ==> bytes@ == old(self).pending@ && final(self).pending@.len() == 0,
            !old(self).ready ==> bytes@.len() == 0 && final(self).pending@ == trimmed_pending(
                old(self).pending@,
            ),
    {
        let mut bytes: Vec<u8> = Vec::new();
        if self.ready {
            std::mem::swap(&mut bytes, &mut self.pending);
        } else {
            trim_pending_without_sync(&mut self.pending);
        }
        bytes
    }
}

/// What is kept of bytes for which there is no decoder yet.
pub open spec fn trimmed_pending(bytes: Seq<u8>) -> Seq<u8> {
    if bytes.len() <= MAX_PENDING {
        bytes
    } else if exists|i: int| crate::audio::format::adts_sync_at(bytes, i) {
        bytes.skip(sync_of(bytes))
    } else {
        Seq::empty()
    }
}

/// Drops what stands before the first sync, or all, once too much has come.
pub fn trim_pending_without_sync(pending: &mut Vec<u8>)
    ensures
        final(pending)@ == trimmed_pending(old(pending)@),
{
    if pending.len() <= MAX_PENDING {
        return;
    }
    let ghost before = pending@;
    match crate::audio::format::find_adts_sync(pending.as_slice()) {
        Some(sync) => {
            proof {
                lemma_sync(before, sync);
                assert(crate::audio::format::adts_sync_at(before, sync as int));
            }
            *pending = pending.split_off(sync);
            proof {
                assert(pending@ =~= before.skip(sync as int));
            }
        },
        None => {
            pending.clear();
        },
    }
}

/// What a decoder says of the samples that it made.
#[derive(Debug, Clone, Copy, PartialEq, Eq, Structural)]
pub struct DecodedFrame {
    /// The rate after spectral band replication, not above 0 where it is not known.
    pub sample_rate: i32,
    /// The rate of the core stream.
    pub aac_sample_rate: i32,
    pub num_channels: i32,
    /// How many samples of each channel were made.
    pub frame_size: i32,
}

/// What is passed on of a decoded frame.
#[derive(Debug, Clone, Copy, PartialEq, Eq, Structural)]
pub struct FramePcm {
    pub sample_rate: u32,
    pub channels: u32,
    pub samples: usize,
}

/// The rate of decoded samples: that of the output where it is known, else that of
/// the core stream.
pub open spec fn pcm_rate(info: DecodedFrame) -> int {
    if info.sample_rate > 0 {
        info.sample_rate as int
    } else if info.aac_sample_rate > 1 {
        info.aac_sample_rate as int
    } else {
        1
    }
}

/// The rate of decoded samples.
pub fn fdk_pcm_sample_rate(info: &DecodedFrame) -> (r: u32)
    ensures
        r == pcm_rate(*info),
        info.sample_rate > 0 ==> r == info.sample_rate,
        info.sample_rate <= 0 && info.aac_sample_rate > 0 ==> r == info.aac_sample_rate,
        info.sample_rate <= 0 && info.aac_sample_rate <= 0 ==> r == 1,
{
    if info.sample_rate > 0 {
        info.sample_rate as u32
    } else if info.aac_sample_rate > 1 {
        info.aac_sample_rate as u32
    } else {
        1
    }
}

/// What is passed on of a decoded frame: nothing where it is empty or larger than
/// the room of `available` samples that it was decoded into.
pub open spec fn passed_on(info: DecodedFrame, available: nat) -> Option<FramePcm> {
    if info.num_channels <= 0 || info.frame_size <= 0 || info.num_channels * info.frame_size
        > available {
        None
    } else {
        Some(
            FramePcm {
                sample_rate: pcm_rate(info) as u32,
                channels: info.num_channels as u32,
                samples: (info.num_channels * info.frame_size) as usize,
            },
        )
    }
}

/// What is passed on of a decoded frame.
pub fn frame_pcm(info: &DecodedFrame, available: usize) -> (r: Option<FramePcm>)
    ensures
        r == passed_on(*info, available as nat),
        r is Some <==> info.num_channels > 0 && info.frame_size > 0 && info.num_channels
            * info.frame_size <= available,
        r matches Some(p) ==> p.channels == info.num_channels && (info.sample_rate > 0
            ==> p.sample_rate == info.sample_rate) && (info.sample_rate <= 0 && info.aac_sample_rate
            > 0 ==> p.sample_rate == info.aac_sample_rate),
        r matches Some(p) ==> 0 < p.samples <= available && p.samples == info.num_channels
            * info.frame_size,
{
    if info.num_channels <= 0 || info.frame_size <= 0 {
        return None;
    }
    proof {
        assert(0 < info.num_channels * info.frame_size <= 0x7fff_ffff * 0x7fff_ffff)
            by (nonlinear_arith)
            requires
                0 < info.num_channels <= 0x7fff_ffff,
                0 < info.frame_size <= 0x7fff_ffff,
        ;
    }
    let size: u64 = info.num_channels as u64 * info.frame_size as u64;
    if size > available as u64 {
        return None;
    }
    Some(
        FramePcm {
            sample_rate: fdk_pcm_sample_rate(info),
            channels: info.num_channels as u32,
            samples: size as usize,
        },
    )
}

/// What a call of the decoder gave.
#[derive(Debug, Clone, Copy, PartialEq, Eq, Structural)]
pub enum DecodeOutcome {
    /// Samples.
    Decoded,
    /// It wants the next frame of the stream.
    NotEnoughBits,
    /// It lost the beat of the stream.
    SyncError,
    /// It could not make anything of the frame.
    Bad,
}

/// What to do after a call of the decoder.
#[derive(Debug, Clone, Copy, PartialEq, Eq, Structural)]
pub enum DecodeStep {
    /// Pass the samples on, and call again.
    Emit,
    /// Give it the next frame.
    NextFrame,
    /// Give it the next frame, and note that this one was skipped.
    Skip,
}

/// What to do after a call of the decoder.
pub fn decode_step(outcome: DecodeOutcome) -> (s: DecodeStep)
    ensures
        s == match outcome {
            DecodeOutcome::Decoded => DecodeStep::Emit,
            DecodeOutcome::NotEnoughBits => DecodeStep::NextFrame,
            DecodeOutcome::SyncError => DecodeStep::NextFrame,
            DecodeOutcome::Bad => DecodeStep::Skip,
        },
{
    match outcome {
        DecodeOutcome::Decoded => DecodeStep::Emit,
        DecodeOutcome::NotEnoughBits => DecodeStep::NextFrame,
        DecodeOutcome::SyncError => DecodeStep::NextFrame,
        DecodeOutcome::Bad => DecodeStep::Skip,
    }
}

/// A frame comes out of the bytes around it: what stands before the first frame is
/// dropped, the frame is given out, and what stands behind it stays.
pub proof fn a_frame_comes_out_of_the_noise_around_it(
    noise: Seq<u8>,
    frame: Seq<u8>,
    rest: Seq<u8>,
)
    requires
        frame_len(frame) == Some(frame.len()),
        forall|k: int|
            0 <= k < noise.len() ==> !crate::audio::format::adts_sync_at(noise + frame + rest, k),
    ensures
        next_frame_of(noise + frame + rest) == (rest, Some(frame)),
{
    let all = noise + frame + rest;
    let i = noise.len() as int;
    assert(all[i] == frame[0] && all[i + 1] == frame[1]);
    assert(crate::audio::format::adts_sync_at(all, i));
    lemma_sync_is(all, i);
    let behind = all.skip(i);
    assert(behind =~= frame + rest);
    assert(behind[0] == frame[0] && behind[1] == frame[1] && behind[3] == frame[3] && behind[4]
        == frame[4] && behind[5] == frame[5]);
    assert(frame_len(behind) == frame_len(frame));
    assert(behind.take(frame.len() as int) =~= frame);
    assert(behind.skip(frame.len() as int) =~= rest);
}

/// Bytes in which no frame begins are kept, and given up once they are more than 32 KiB.
pub proof fn bytes_without_a_frame_are_given_up(pending: Seq<u8>)
    requires
        forall|k: int| !crate::audio::format::adts_sync_at(pending, k),
    ensures
        next_frame_of(pending).1 is None,
        pending.len() <= 32 * 1024 ==> next_frame_of(pending).0 == pending,
        pending.len() > 32 * 1024 ==> next_frame_of(pending).0.len() == 0,
        aligned(pending) == pending,
        pending.len() <= 256 * 1024 ==> trimmed_pending(pending) == pending,
        pending.len() > 256 * 1024 ==> trimmed_pending(pending).len() == 0,
{
}

/// Aligning drops what stands before the first frame and nothing else, and a decoder that
/// is not set up drops it too once more than 256 KiB wait.
pub proof fn aligning_drops_what_stands_before_the_first_frame(bytes: Seq<u8>, i: int)
    requires
        crate::audio::format::adts_sync_at(bytes, i),
        forall|k: int| 0 <= k < i ==> !crate::audio::format::adts_sync_at(bytes, k),
    ensures
        aligned(bytes) == bytes.skip(i),
        bytes.len() <= 256 * 1024 ==> trimmed_pending(bytes) == bytes,
        bytes.len() > 256 * 1024 ==> trimmed_pending(bytes) == bytes.skip(i),
{
    lemma_sync_is(bytes, i);
}

/// A frame that has not come whole waits: what stood before it is dropped.
pub proof fn a_frame_waits_until_it_is_whole(noise: Seq<u8>, part: Seq<u8>)
    requires
        forall|k: int|
            0 <= k < noise.len() ==> !crate::audio::format::adts_sync_at(noise + part, k),
        crate::audio::format::adts_sync_at(part, 0),
        frame_len(part) matches Some(n) ==> part.len() < n,
    ensures
        next_frame_of(noise + part) == (part, None::<Seq<u8>>),
{
    let all = noise + part;
    let i = noise.len() as int;
    assert(all[i] == part[0] && all[i + 1] == part[1]);
    assert(crate::audio::format::adts_sync_at(all, i));
    lemma_sync_is(all, i);
    assert(all.skip(i) =~= part);
}

} // verus!
