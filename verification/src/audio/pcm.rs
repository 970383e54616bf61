//! PCM on its way out: framing, pacing by the clock, and the ring between the
//! decoder and the sound card.

use vstd::prelude::*;

verus! {

/// The rate at which PCM goes to Cast receivers.
pub const CAST_PCM_RATE: u32 = 48_000;

/// Playout that has fallen this far behind the clock is set to the present; in
/// nanoseconds.
pub const MAX_LAG_NANOS: u128 = 500_000_000;

/// How long to sleep at most before the next frame is due; in nanoseconds.
pub const MAX_SLEEP_NANOS: u128 = 20_000_000;

/// How long to sleep while there is no whole frame; in nanoseconds.
pub const IDLE_SLEEP_NANOS: u128 = 5_000_000;

/// The rate at which PCM goes to Cast receivers.
pub fn cast_pcm_rate() -> (r: u32)
    ensures
        r == CAST_PCM_RATE,
        r == 48_000,
{
    CAST_PCM_RATE
}

/// The larger of two numbers.
pub open spec fn larger(a: int, b: int) -> int {
    if a > b {
        a
    } else {
        b
    }
}

/// The smaller of two numbers.
pub open spec fn smaller(a: int, b: int) -> int {
    if a < b {
        a
    } else {
        b
    }
}

/// How many bytes of 16-bit samples a frame of `ms` milliseconds takes; 256 samples
/// of each channel at least.
pub open spec fn frame_bytes(sample_rate: int, channels: int, ms: int) -> int {
    larger((sample_rate * larger(channels, 1) * 2 * ms) / 1000, larger(channels, 1) * 2 * 256)
}

/// How many bytes a frame of `ms` milliseconds takes.
pub fn frame_bytes_for_ms(sample_rate: u32, channels: u16, ms: u32) -> (n: usize)
    requires
        sample_rate * larger(channels as int, 1) * 2 * ms <= usize::MAX,
    ensures
        n == frame_bytes(sample_rate as int, channels as int, ms as int),
        n > 0,
{
    let ch: u16 = if channels > 1 {
        channels
    } else {
        1
    };
    proof {
        let (a, b, c) = (sample_rate as int, ch as int, ms as int);
        assert(0 <= a * b <= 0xffff_ffff * 0xffff) by (nonlinear_arith)
            requires
                0 <= a <= 0xffff_ffff,
                0 <= b <= 0xffff,
        ;
        assert(0 <= a * b * 2 * c <= 0xffff_ffff * 0xffff * 2 * 0xffff_ffff) by (nonlinear_arith)
            requires
                0 <= a * b <= 0xffff_ffff * 0xffff,
                0 <= c <= 0xffff_ffff,
        ;
    }
    let product: u128 = sample_rate as u128 * ch as u128 * 2 * ms as u128;
    let n: usize = (product / 1000) as usize;
    let least: usize = ch as usize * 2 * 256;
    if n > least {
        n
    } else {
        least
    }
}

/// How many bytes a frame of 20 milliseconds takes.
pub fn frame_bytes_for(sample_rate: u32, channels: u16) -> (n: usize)
    requires
        sample_rate * larger(channels as int, 1) * 2 * 20 <= usize::MAX,
    ensures
        n == frame_bytes(sample_rate as int, channels as int, 20),
        n > 0,
{
    frame_bytes_for_ms(sample_rate, channels, 20)
}

/// How many frames are due: as many as there are, as were asked for, and as ticks
/// have passed.
pub open spec fn due_count(len: int, frame: int, max: int, now: int, next_tick: int, tick: int) -> int {
    smaller(
        smaller(max, len / frame),
        if now < next_tick {
            0
        } else {
            (now - next_tick) / tick + 1
        },
    )
}

/// The next tick, after `n` frames have gone out at `now`.
pub open spec fn tick_after(now: int, next_tick: int, tick: int, n: int) -> int {
    let next = next_tick + n * tick;
    if next + MAX_LAG_NANOS < now {
        now
    } else {
        next
    }
}

/// Exactly those frames go out that are due: each of them was there, was asked for
/// and had its tick, and the one behind them lacks one of the three.
pub proof fn what_goes_out_is_due(
    len: int,
    frame: int,
    max: int,
    now: int,
    next_tick: int,
    tick: int,
)
    requires
        len >= 0,
        frame > 0,
        max >= 0,
        tick > 0,
    ensures
        ({
            let n = due_count(len, frame, max, now, next_tick, tick);
            &&& 0 <= n <= max
            &&& n * frame <= len
            &&& n > 0 ==> next_tick + (n - 1) * tick <= now
            &&& n == max || (n + 1) * frame > len || next_tick + n * tick > now
        }),
{
    let n = due_count(len, frame, max, now, next_tick, tick);
    let q = len / frame;
    assert(q >= 0 && q * frame <= len && (q + 1) * frame > len) by (nonlinear_arith)
        requires
            q == len / frame,
            frame > 0,
            len >= 0,
    ;
    assert(n * frame <= len) by (nonlinear_arith)
        requires
            n <= q,
            q * frame <= len,
            frame > 0,
    ;
    if now >= next_tick {
        let d = (now - next_tick) / tick;
        assert(d >= 0 && d * tick <= now - next_tick && (d + 1) * tick > now - next_tick)
            by (nonlinear_arith)
            requires
                d == (now - next_tick) / tick,
                tick > 0,
                now >= next_tick,
        ;
        if n > 0 {
            assert((n - 1) * tick <= d * tick) by (nonlinear_arith)
                requires
                    n - 1 <= d,
                    tick > 0,
            ;
        }
    } else {
        assert(0 * tick == 0);
    }
}

/// Sends bursts of PCM out at a steady pace. `T` is a sample; instants are in
/// nanoseconds since some fixed one.
#[derive(Debug)]
pub struct SteadyPlayout<T> {
    pub pending: Vec<T>,
    pub frame_samples: usize,
    pub next_tick: u128,
    pub tick: u128,
}

/// How many samples a frame of `ms` milliseconds takes, one of each channel at
/// least.
pub open spec fn frame_samples_of(sample_rate: int, channels: int, ms: int) -> int {
    larger((sample_rate * larger(channels, 1) * ms) / 1000, larger(channels, 1))
}

fn frame_samples_for(sample_rate: u32, channels: usize, ms: u32) -> (n: usize)
    requires
        sample_rate * larger(channels as int, 1) * ms <= usize::MAX,
    ensures
        n == frame_samples_of(sample_rate as int, channels as int, ms as int),
        n > 0,
{
    let ch: usize = if channels > 1 {
        channels
    } else {
        1
    };
    proof {
        let (a, b, c) = (sample_rate as int, ch as int, ms as int);
        assert(0 <= a * b <= 0xffff_ffff * 0xffff_ffff_ffff_ffff) by (nonlinear_arith)
            requires
                0 <= a <= 0xffff_ffff,
                0 <= b <= 0xffff_ffff_ffff_ffff,
        ;
        assert(0 <= a * b * c <= 0xffff_ffff * 0xffff_ffff_ffff_ffff * 0xffff_ffff)
            by (nonlinear_arith)
            requires
                0 <= a * b <= 0xffff_ffff * 0xffff_ffff_ffff_ffff,
                0 <= c <= 0xffff_ffff,
        ;
    }
    let product: u128 = sample_rate as u128 * ch as u128 * ms as u128;
    let n: usize = (product / 1000) as usize;
    if n > ch {
        n
    } else {
        ch
    }
}

/// A tick of `ms` milliseconds, one at least; in nanoseconds.
fn tick_nanos(ms: u32) -> (t: u128)
    ensures
        t == larger(ms as int, 1) * 1_000_000,
        0 < t <= 0xffff_ffff * 1_000_000,
{
    if ms > 1 {
        ms as u128 * 1_000_000
    } else {
        1_000_000
    }
}

/// How many frames are due.
fn due(len: usize, frame: usize, max: usize, now: u64, next_tick: u128, tick: u128) -> (n: usize)
    requires
        frame > 0,
        tick > 0,
    ensures
        n == due_count(
            len as int,
            frame as int,
            max as int,
            now as int,
            next_tick as int,
            tick as int,
        ),
        n * frame <= len,
        n > 0 ==> next_tick <= now && (n - 1) * tick <= now - next_tick,
{
    proof {
        what_goes_out_is_due(
            len as int,
            frame as int,
            max as int,
            now as int,
            next_tick as int,
            tick as int,
        );
    }
    let now: u128 = now as u128;
    if now < next_tick {
        return 0;
    }
    let whole: usize = len / frame;
    let n: usize = if max < whole {
        max
    } else {
        whole
    };
    let passed: u128 = (now - next_tick) / tick;
    proof {
        assert(passed <= now) by (nonlinear_arith)
            requires
                passed == (now - next_tick) / tick as int,
                tick > 0,
                now >= next_tick,
                next_tick >= 0,
        ;
    }
    if passed + 1 < n as u128 {
        (passed + 1) as usize
    } else {
        n
    }
}

/// The tick after `n` frames have gone out at `now`.
fn advance(now: u64, next_tick: u128, tick: u128, n: usize) -> (t: u128)
    requires
        0 < tick <= 0xffff_ffff * 1_000_000,
        next_tick <= 0x1_0000_0000_0000_0000 + 0xffff_ffff * 1_000_000,
        n > 0 ==> next_tick <= now && (n - 1) * tick <= now - next_tick,
    ensures
        t == tick_after(now as int, next_tick as int, tick as int, n as int),
        t <= 0x1_0000_0000_0000_0000 + 0xffff_ffff * 1_000_000,
{
    proof {
        assert(n * tick == (n - 1) * tick + tick) by (nonlinear_arith);
        if n == 0 {
            assert(n * tick == 0) by (nonlinear_arith)
                requires
                    n == 0,
            ;
        }
    }
    let next: u128 = next_tick + n as u128 * tick;
    if next + MAX_LAG_NANOS < now as u128 {
        now as u128
    } else {
        next
    }
}

/// How long to sleep at `now`.
pub open spec fn sleep_of(len: int, frame: int, now: int, next_tick: int) -> int {
    if len >= frame {
        smaller(larger(next_tick - now, 0), MAX_SLEEP_NANOS as int)
    } else {
        IDLE_SLEEP_NANOS as int
    }
}

fn sleep_for(len: usize, frame: usize, now: u64, next_tick: u128) -> (n: u64)
    ensures
        n == sleep_of(len as int, frame as int, now as int, next_tick as int),
{
    if len >= frame {
        let now: u128 = now as u128;
        if next_tick <= now {
            0
        } else if next_tick - now < MAX_SLEEP_NANOS {
            (next_tick - now) as u64
        } else {
            MAX_SLEEP_NANOS as u64
        }
    } else {
        IDLE_SLEEP_NANOS as u64
    }
}

/// The first `n` items of a list, and the others.
fn split_front<T>(list: &mut Vec<T>, n: usize) -> (front: Vec<T>)
    requires
        n <= old(list)@.len(),
    ensures
        front@ == old(list)@.take(n as int),
        final(list)@ == old(list)@.skip(n as int),
{
    let ghost all = list@;
    let mut front: Vec<T> = list.split_off(n);
    std::mem::swap(&mut front, list);
    proof {
        assert(front@ =~= all.take(n as int));
        assert(list@ =~= all.skip(n as int));
    }
    front
}

impl<T: Copy> SteadyPlayout<T> {
    /// Frames and ticks are not empty, and the next tick lies within reach.
    pub open spec fn wf(&self) -> bool {
        &&& self.frame_samples > 0
        &&& 0 < self.tick <= 0xffff_ffff * 1_000_000
        &&& self.next_tick <= 0x1_0000_0000_0000_0000 + 0xffff_ffff * 1_000_000
    }

    /// Playout with nothing in it, from now on.
    pub fn new(sample_rate: u32, channels: usize, tick_ms: u32, now: u64) -> (p: SteadyPlayout<T>)
        requires
            sample_rate * larger(channels as int, 1) * tick_ms <= usize::MAX,
        ensures
            p.wf(),
            p.pending@.len() == 0,
            p.frame_samples == frame_samples_of(
                sample_rate as int,
                channels as int,
                tick_ms as int,
            ),
            p.next_tick == now,
            p.tick == larger(tick_ms as int, 1) * 1_000_000,
    {
        SteadyPlayout {
            pending: Vec::new(),
            frame_samples: frame_samples_for(sample_rate, channels, tick_ms),
            next_tick: now as u128,
            tick: tick_nanos(tick_ms),
        }
    }

    /// Takes another format. Where frames have another length then, what is pending
    /// is dropped and playout goes on from now.
    pub fn reset_format(&mut self, sample_rate: u32, channels: usize, tick_ms: u32, now: u64)
        requires
            old(self).wf(),
            sample_rate * larger(channels as int, 1) * tick_ms <= usize::MAX,
        ensures
            final(self).wf(),
            final(self).tick == old(self).tick,
            final(self).frame_samples == frame_samples_of(
                sample_rate as int,
                channels as int,
                tick_ms as int,
            ),
            final(self).frame_samples == old(self).frame_samples ==> *final(self) == *old(self),
            final(self).frame_samples != old(self).frame_samples ==> final(self).pending@.len()
                == 0 && final(self).next_tick == now,
    {
        let frame_samples: usize = frame_samples_for(sample_rate, channels, tick_ms);
        if frame_samples != self.frame_samples {
            self.frame_samples = frame_samples;
            self.pending.clear();
            self.next_tick = now as u128;
        }
    }

    /// Takes in samples.
    pub fn ingest(&mut self, samples: &[T])
        ensures
            final(self).pending@ == old(self).pending@ + samples@,
            final(self).frame_samples == old(self).frame_samples,
            final(self).next_tick == old(self).next_tick,
            final(self).tick == old(self).tick,
    {
        let n: usize = samples.len();
        let mut i: usize = 0;
        proof {
            assert(self.pending@ =~= old(self).pending@ + samples@.subrange(0, 0));
        }
        while i < n
            invariant
                i <= n,
                n == samples@.len(),
                self.pending@ == old(self).pending@ + samples@.subrange(0, i as int),
                self.frame_samples == old(self).frame_samples,
                self.next_tick == old(self).next_tick,
                self.tick == old(self).tick,
            decreases n - i,
        {
            let sample = samples[i];
            self.pending.push(sample);
            i = i + 1;
            proof {
                assert(self.pending@ =~= old(self).pending@ + samples@.subrange(0, i as int));
            }
        }
        proof {
            assert(samples@.subrange(0, n as int) =~= samples@);
        }
    }

    /// How many samples are pending.
    pub fn pending_len(&self) -> (n: usize)
        ensures
            n == self.pending@.len(),
    {
        self.pending.len()
    }

    /// The frames that are due at `now`, so many at most, one behind the other.
    pub fn drain_due(&mut self, max_frames: usize, now: u64) -> (out: Vec<T>)
        requires
            old(self).wf(),
        ensures
            final(self).wf(),
            final(self).frame_samples == old(self).frame_samples,
            final(self).tick == old(self).tick,
            ({
                let n = due_count(
                    old(self).pending@.len() as int,
                    old(self).frame_samples as int,
                    max_frames as int,
                    now as int,
                    old(self).next_tick as int,
                    old(self).tick as int,
                );
                &&& out@ == old(self).pending@.take(n * old(self).frame_samples)
                &&& final(self).pending@ == old(self).pending@.skip(n * old(self).frame_samples)
                &&& final(self).next_tick == tick_after(
                    now as int,
                    old(self).next_tick as int,
                    old(self).tick as int,
                    n,
                )
            }),
    {
        let n: usize = due(
            self.pending.len(),
            self.frame_samples,
            max_frames,
            now,
            self.next_tick,
            self.tick,
        );
        let out = split_front(&mut self.pending, n * self.frame_samples);
        self.next_tick = advance(now, self.next_tick, self.tick, n);
        out
    }

    /// How long to sleep at `now`; in nanoseconds.
    pub fn sleep_hint(&self, now: u64) -> (nanos: u64)
        ensures
            nanos == sleep_of(
                self.pending@.len() as int,
                self.frame_samples as int,
                now as int,
                self.next_tick as int,
            ),
    {
        sleep_for(self.pending.len(), self.frame_samples, now, self.next_tick)
    }
}

/// Sends bursts of interleaved 16-bit PCM out at a steady pace, as bytes.
#[derive(Debug)]
pub struct SteadyBytePlayout {
    pub pending: Vec<u8>,
    pub frame_bytes: usize,
    pub next_tick: u128,
    pub tick: u128,
}

/// The first `n` frames of a list.
pub open spec fn frames_of(bytes: Seq<u8>, frame: int, n: int) -> Seq<Seq<u8>> {
    Seq::new(n as nat, |i: int| bytes.subrange(i * frame, (i + 1) * frame))
}

/// What byte lists hold.
pub open spec fn lists(v: Seq<Vec<u8>>) -> Seq<Seq<u8>> {
    v.map_values(|b: Vec<u8>| b@)
}

/// Takes `n` frames from the front of a list.
fn take_frames(pending: &mut Vec<u8>, frame: usize, n: usize) -> (out: Vec<Vec<u8>>)
    requires
        n * frame <= old(pending)@.len(),
    ensures
        lists(out@) == frames_of(old(pending)@, frame as int, n as int),
        final(pending)@ == old(pending)@.skip(n * frame),
{
    let ghost all = pending@;
    let mut out: Vec<Vec<u8>> = Vec::new();
    let mut i: usize = 0;
    proof {
        assert(0 * frame == 0);
        assert(all.skip(0) =~= all);
        assert(lists(out@) =~= frames_of(all, frame as int, 0));
    }
    while i < n
        invariant
            i <= n,
            n * frame <= all.len(),
            pending@ == all.skip(i * frame),
            lists(out@) == frames_of(all, frame as int, i as int),
        decreases n - i,
    {
        proof {
            assert((i + 1) * frame == i * frame + frame) by (nonlinear_arith);
            assert((i + 1) * frame <= n * frame) by (nonlinear_arith)
                requires
                    i + 1 <= n,
            ;
            assert(0 <= i * frame) by (nonlinear_arith);
        }
        let ghost before = out@;
        let front = split_front(pending, frame);
        out.push(front);
        proof {
            assert(front@ =~= all.subrange(i * frame, (i + 1) * frame));
            assert(pending@ =~= all.skip((i + 1) * frame));
            let part = all.subrange(i * frame, (i + 1) * frame);
            assert(lists(out@) =~= lists(before).push(part));
            assert(frames_of(all, frame as int, i + 1) =~= frames_of(
                all,
                frame as int,
                i as int,
            ).push(part));
        }
        i = i + 1;
    }
    out
}

impl SteadyBytePlayout {
    /// Frames and ticks are not empty, and the next tick lies within reach.
    pub open spec fn wf(&self) -> bool {
        &&& self.frame_bytes > 0
        &&& 0 < self.tick <= 0xffff_ffff * 1_000_000
        &&& self.next_tick <= 0x1_0000_0000_0000_0000 + 0xffff_ffff * 1_000_000
    }

    /// Playout with nothing in it, from now on.
    pub fn new(sample_rate: u32, channels: u16, tick_ms: u32, now: u64) -> (p: SteadyBytePlayout)
        requires
            sample_rate * larger(channels as int, 1) * 2 * tick_ms <= usize::MAX,
        ensures
            p.wf(),
            p.pending@.len() == 0,
            p.frame_bytes == frame_bytes(sample_rate as int, channels as int, tick_ms as int),
            p.next_tick == now,
            p.tick == larger(tick_ms as int, 1) * 1_000_000,
    {
        SteadyBytePlayout {
            pending: Vec::new(),
            frame_bytes: frame_bytes_for_ms(sample_rate, channels, tick_ms),
            next_tick: now as u128,
            tick: tick_nanos(tick_ms),
        }
    }

    /// Takes another format. Where frames have another length then, what is pending
    /// is dropped and playout goes on from now.
    pub fn reset_format(&mut self, sample_rate: u32, channels: u16, tick_ms: u32, now: u64)
        requires
            old(self).wf(),
            sample_rate * larger(channels as int, 1) * 2 * tick_ms <= usize::MAX,
        ensures
            final(self).wf(),
            final(self).tick == old(self).tick,
            final(self).frame_bytes == frame_bytes(
                sample_rate as int,
                channels as int,
                tick_ms as int,
            ),
            final(self).frame_bytes == old(self).frame_bytes ==> *final(self) == *old(self),
            final(self).frame_bytes != old(self).frame_bytes ==> final(self).pending@.len() == 0
                && final(self).next_tick == now,
    {
        let frame_bytes: usize = frame_bytes_for_ms(sample_rate, channels, tick_ms);
        if frame_bytes != self.frame_bytes {
            self.frame_bytes = frame_bytes;
            self.pending.clear();
            self.next_tick = now as u128;
        }
    }

    /// Takes in bytes.
    pub fn ingest(&mut self, pcm: &[u8])
        ensures
            final(self).pending@ == old(self).pending@ + pcm@,
            final(self).frame_bytes == old(self).frame_bytes,
            final(self).next_tick == old(self).next_tick,
            final(self).tick == old(self).tick,
    {
        self.pending.extend_from_slice(pcm);
        proof {
            assert(self.pending@ =~= old(self).pending@ + pcm@);
        }
    }

    /// The frames that are due at `now`, so many at most.
    pub fn drain_due(&mut self, max_frames: usize, now: u64) -> (out: Vec<Vec<u8>>)
        requires
            old(self).wf(),
        ensures
            final(self).wf(),
            final(self).frame_bytes == old(self).frame_bytes,
            final(self).tick == old(self).tick,
            ({
                let n = due_count(
                    old(self).pending@.len() as int,
                    old(self).frame_bytes as int,
                    max_frames as int,
                    now as int,
                    old(self).next_tick as int,
                    old(self).tick as int,
                );
                &&& lists(out@) == frames_of(old(self).pending@, old(self).frame_bytes as int, n)
                &&& final(self).pending@ == old(self).pending@.skip(n * old(self).frame_bytes)
                &&& final(self).next_tick == tick_after(
                    now as int,
                    old(self).next_tick as int,
                    old(self).tick as int,
                    n,
                )
            }),
    {
        let n: usize = due(
            self.pending.len(),
            self.frame_bytes,
            max_frames,
            now,
            self.next_tick,
            self.tick,
        );
        let out = take_frames(&mut self.pending, self.frame_bytes, n);
        self.next_tick = advance(now, self.next_tick, self.tick, n);
        out
    }

    /// How long to sleep at `now`; in nanoseconds.
    pub fn sleep_hint(&self, now: u64) -> (nanos: u64)
        ensures
            nanos == sleep_of(
                self.pending@.len() as int,
                self.frame_bytes as int,
                now as int,
                self.next_tick as int,
            ),
    {
        sleep_for(self.pending.len(), self.frame_bytes, now, self.next_tick)
    }
}

/// Cuts PCM into frames of 20 milliseconds.
#[derive(Debug)]
pub struct PcmSmoother {
    pub buf: Vec<u8>,
    pub frame_bytes: usize,
}

impl PcmSmoother {
    /// Frames are not empty.
    pub open spec fn wf(&self) -> bool {
        self.frame_bytes > 0
    }

    /// A smoother with nothing in it.
    pub fn new(sample_rate: u32, channels: u16) -> (s: PcmSmoother)
        requires
            sample_rate * larger(channels as int, 1) * 2 * 20 <= usize::MAX,
        ensures
            s.wf(),
            s.buf@.len() == 0,
            s.frame_bytes == frame_bytes(sample_rate as int, channels as int, 20),
    {
        PcmSmoother { buf: Vec::new(), frame_bytes: frame_bytes_for(sample_rate, channels) }
    }

    /// Takes another format for the frames to come. What is pending stays.
    pub fn set_format(&mut self, sample_rate: u32, channels: u16)
        requires
            sample_rate * larger(channels as int, 1) * 2 * 20 <= usize::MAX,
        ensures
            final(self).wf(),
            final(self).buf@ == old(self).buf@,
            final(self).frame_bytes == frame_bytes(sample_rate as int, channels as int, 20),
    {
        self.frame_bytes = frame_bytes_for(sample_rate, channels);
    }

    /// Takes in bytes, and gives the frames that are whole then. Nothing is given for
    /// nothing.
    pub fn push(&mut self, pcm: &[u8]) -> (out: Vec<Vec<u8>>)
        requires
            old(self).wf(),
        ensures
            final(self).wf(),
            final(self).frame_bytes == old(self).frame_bytes,
            ({
                let all = old(self).buf@ + pcm@;
                let n = if pcm@.len() == 0 {
                    0
                } else {
                    all.len() as int / old(self).frame_bytes as int
                };
                &&& lists(out@) == frames_of(all, old(self).frame_bytes as int, n)
                &&& final(self).buf@ == all.skip(n * old(self).frame_bytes)
            }),
    {
        let ghost all = self.buf@ + pcm@;
        if pcm.len() == 0 {
            let out: Vec<Vec<u8>> = Vec::new();
            proof {
                assert(0 * self.frame_bytes == 0);
                assert(self.buf@ =~= all.skip(0));
                assert(lists(out@) =~= frames_of(all, self.frame_bytes as int, 0));
            }
            return out;
        }
        self.buf.extend_from_slice(pcm);
        proof {
            assert(self.buf@ =~= all);
        }
        let n: usize = self.buf.len() / self.frame_bytes;
        proof {
            let (q, f, l) = (n as int, self.frame_bytes as int, all.len() as int);
            assert(q * f <= l) by (nonlinear_arith)
                requires
                    q == l / f,
                    f > 0,
                    l >= 0,
            ;
        }
        take_frames(&mut self.buf, self.frame_bytes, n)
    }

    /// What is pending, as a last frame that need not be whole.
    pub fn flush(&mut self) -> (out: Option<Vec<u8>>)
        ensures
            final(self).frame_bytes == old(self).frame_bytes,
            final(self).buf@.len() == 0,
            match out {
                Some(b) => b@ == old(self).buf@ && b@.len() > 0,
                None => old(self).buf@.len() == 0,
            },
    {
        if self.buf.len() == 0 {
            return None;
        }
        let mut out: Vec<u8> = Vec::new();
        std::mem::swap(&mut out, &mut self.buf);
        Some(out)
    }
}

/// The frames that are cut from a list, one behind the other, and what is left
/// behind them, make up the list.
pub proof fn frames_lose_nothing(bytes: Seq<u8>, frame: int, n: int)
    requires
        frame > 0,
        0 <= n,
        n * frame <= bytes.len(),
    ensures
        joined(frames_of(bytes, frame, n)) + bytes.skip(n * frame) == bytes,
    decreases n,
{
    if n == 0 {
        assert(0 * frame == 0);
        assert(joined(frames_of(bytes, frame, 0)) =~= Seq::empty());
        assert(bytes.skip(0) =~= bytes);
    } else {
        assert((n - 1) * frame == n * frame - frame) by (nonlinear_arith);
        assert(0 <= (n - 1) * frame) by (nonlinear_arith)
            requires
                n >= 1,
                frame > 0,
        ;
        frames_lose_nothing(bytes, frame, n - 1);
        let fs = frames_of(bytes, frame, n);
        assert(fs.drop_last() =~= frames_of(bytes, frame, n - 1));
        let last = bytes.subrange((n - 1) * frame, n * frame);
        assert(fs.last() == last);
        assert(last + bytes.skip(n * frame) =~= bytes.skip((n - 1) * frame));
        assert(joined(fs) + bytes.skip(n * frame) =~= joined(fs.drop_last()) + (last + bytes.skip(
            n * frame,
        )));
    }
}

/// Lists one behind the other.
pub open spec fn joined<T>(parts: Seq<Seq<T>>) -> Seq<T>
    decreases parts.len(),
{
    if parts.len() == 0 {
        Seq::empty()
    } else {
        joined(parts.drop_last()) + parts.last()
    }
}

/// The two bytes of a sample, the low one first.
pub open spec fn le_bytes(s: i16) -> Seq<u8> {
    seq![((s as int) % 256) as u8, ((s as int) / 256 % 256) as u8]
}

/// The bytes of samples, one behind the other.
pub open spec fn pcm_bytes(samples: Seq<i16>) -> Seq<u8>
    decreases samples.len(),
{
    if samples.len() == 0 {
        Seq::empty()
    } else {
        pcm_bytes(samples.drop_last()) + le_bytes(samples.last())
    }
}

/// What sample lists hold.
pub open spec fn frames_view<T>(frames: Seq<Vec<T>>) -> Seq<Seq<T>> {
    frames.map_values(|f: Vec<T>| f@)
}

/// Writes samples behind bytes.
pub fn push_samples(out: &mut Vec<u8>, samples: &[i16])
    ensures
        final(out)@ == old(out)@ + pcm_bytes(samples@),
{
    let n: usize = samples.len();
    let ghost start = out@;
    let mut i: usize = 0;
    proof {
        assert(out@ =~= start + pcm_bytes(samples@.subrange(0, 0)));
    }
    while i < n
        invariant
            i <= n,
            n == samples@.len(),
            out@ == start + pcm_bytes(samples@.subrange(0, i as int)),
        decreases n - i,
    {
        let s: i16 = samples[i];
        let v: i32 = s as i32;
        let u: i32 = if v < 0 {
            v + 65_536
        } else {
            v
        };
        let low: u8 = (u % 256) as u8;
        let high: u8 = (u / 256) as u8;
        proof {
            assert(samples@.subrange(0, i + 1).drop_last() =~= samples@.subrange(0, i as int));
            assert(low == ((s as int) % 256) as u8);
            assert(high == ((s as int) / 256 % 256) as u8);
        }
        let ghost before = out@;
        out.push(low);
        out.push(high);
        proof {
            assert(out@ =~= before + le_bytes(s));
            assert(out@ =~= start + pcm_bytes(samples@.subrange(0, i + 1)));
        }
        i = i + 1;
    }
    proof {
        assert(samples@.subrange(0, n as int) =~= samples@);
    }
}

/// The samples of all frames as bytes, low byte first.
pub fn pcm_frames_to_bytes(frames: &[Vec<i16>]) -> (out: Vec<u8>)
    ensures
        out@ == pcm_bytes(joined(frames_view(frames@))),
{
    let n: usize = frames.len();
    let mut out: Vec<u8> = Vec::new();
    let ghost all = frames_view(frames@);
    let mut i: usize = 0;
    proof {
        assert(joined(all.subrange(0, 0)) =~= Seq::<i16>::empty());
        assert(out@ =~= pcm_bytes(Seq::<i16>::empty()));
    }
    while i < n
        invariant
            i <= n,
            n == frames@.len(),
            all == frames_view(frames@),
            out@ == pcm_bytes(joined(all.subrange(0, i as int))),
        decreases n - i,
    {
        push_samples(&mut out, frames[i].as_slice());
        proof {
            assert(all.subrange(0, i + 1).drop_last() =~= all.subrange(0, i as int));
            assert(all.subrange(0, i + 1).last() == frames@[i as int]@);
            lemma_bytes_join(joined(all.subrange(0, i as int)), frames@[i as int]@);
        }
        i = i + 1;
    }
    proof {
        assert(all.subrange(0, n as int) =~= all);
    }
    out
}

proof fn lemma_bytes_join(a: Seq<i16>, b: Seq<i16>)
    ensures
        pcm_bytes(a + b) == pcm_bytes(a) + pcm_bytes(b),
    decreases b.len(),
{
    if b.len() == 0 {
        assert(a + b =~= a);
        assert(pcm_bytes(a) + pcm_bytes(b) =~= pcm_bytes(a));
    } else {
        lemma_bytes_join(a, b.drop_last());
        assert((a + b).drop_last() =~= a + b.drop_last());
        assert(pcm_bytes(a + b) =~= pcm_bytes(a) + pcm_bytes(b));
    }
}

/// As many bytes go out as twice the samples, and each sample can be read back from
/// its two bytes.
pub proof fn bytes_hold_the_samples(samples: Seq<i16>, i: int)
    requires
        0 <= i < samples.len(),
    ensures
        pcm_bytes(samples).len() == 2 * samples.len(),
        pcm_bytes(samples)[2 * i] + 256 * pcm_bytes(samples)[2 * i + 1] == if samples[i] < 0 {
            samples[i] + 65_536
        } else {
            samples[i] as int
        },
    decreases samples.len(),
{
    let front = samples.drop_last();
    lemma_bytes_len(front);
    let bytes = pcm_bytes(samples);
    if i < front.len() {
        bytes_hold_the_samples(front, i);
        assert(bytes[2 * i] == pcm_bytes(front)[2 * i]);
        assert(bytes[2 * i + 1] == pcm_bytes(front)[2 * i + 1]);
    } else {
        let s = samples[i];
        assert(bytes[2 * i] == ((s as int) % 256) as u8);
        assert(bytes[2 * i + 1] == ((s as int) / 256 % 256) as u8);
    }
}

proof fn lemma_bytes_len(samples: Seq<i16>)
    ensures
        pcm_bytes(samples).len() == 2 * samples.len(),
    decreases samples.len(),
{
    if samples.len() > 0 {
        lemma_bytes_len(samples.drop_last());
    }
}

/// The samples of all frames, one behind the other.
pub fn join_frames<T: Copy>(frames: &[Vec<T>]) -> (out: Vec<T>)
    ensures
        out@ == joined(frames_view(frames@)),
{
    let n: usize = frames.len();
    let mut out: Vec<T> = Vec::new();
    let ghost all = frames_view(frames@);
    let mut i: usize = 0;
    proof {
        assert(out@ =~= joined(all.subrange(0, 0)));
    }
    while i < n
        invariant
            i <= n,
            n == frames@.len(),
            all == frames_view(frames@),
            out@ == joined(all.subrange(0, i as int)),
        decreases n - i,
    {
        let frame = &frames[i];
        let ghost start = out@;
        let mut k: usize = 0;
        proof {
            assert(out@ =~= start + frame@.subrange(0, 0));
        }
        while k < frame.len()
            invariant
                k <= frame@.len(),
                out@ == start + frame@.subrange(0, k as int),
            decreases frame@.len() - k,
        {
            out.push(frame[k]);
            k = k + 1;
            proof {
                assert(out@ =~= start + frame@.subrange(0, k as int));
            }
        }
        proof {
            assert(frame@.subrange(0, k as int) =~= frame@);
            assert(all.subrange(0, i + 1).drop_last() =~= all.subrange(0, i as int));
        }
        i = i + 1;
    }
    proof {
        assert(all.subrange(0, n as int) =~= all);
    }
    out
}

/// The channel of the source that a channel of the output repeats.
pub open spec fn source_channel(c: int, src_ch: int) -> int {
    smaller(c, src_ch - 1)
}

/// How many frames there are, the last of which need not be whole.
pub open spec fn frame_count(len: int, ch: int) -> int {
    (len + ch - 1) / ch
}

/// Samples with another number of channels: each channel of the output repeats the
/// one of the source with its number, or the last.
pub open spec fn is_upmix<T>(out: Seq<T>, pcm: Seq<T>, src_ch: int, dst_ch: int) -> bool {
    &&& out.len() == frame_count(pcm.len() as int, src_ch) * dst_ch
    &&& forall|f: int, c: int|
        0 <= f < frame_count(pcm.len() as int, src_ch) && 0 <= c < dst_ch ==> #[trigger] out[f
            * dst_ch + c] == pcm[f * src_ch + source_channel(c, src_ch)]
}

/// Interleaved samples with another number of channels.
pub fn upmix_interleaved<T: Copy>(pcm: &[T], src_ch: usize, dst_ch: usize) -> (out: Vec<T>)
    requires
        src_ch == 0 || src_ch == dst_ch || pcm@.len() % src_ch as nat == 0 || smaller(
            larger(dst_ch as int, 1),
            src_ch as int,
        ) <= pcm@.len() % src_ch as nat,
    ensures
        src_ch == dst_ch || src_ch == 0 ==> out@ == pcm@,
        src_ch != dst_ch && src_ch != 0 ==> is_upmix(
            out@,
            pcm@,
            src_ch as int,
            larger(dst_ch as int, 1),
        ),
{
    let len: usize = pcm.len();
    let mut out: Vec<T> = Vec::new();
    if src_ch == dst_ch || src_ch == 0 {
        let mut i: usize = 0;
        while i < len
            invariant
                i <= len,
                len == pcm@.len(),
                out@ == pcm@.subrange(0, i as int),
            decreases len - i,
        {
            out.push(pcm[i]);
            i = i + 1;
            proof {
                assert(out@ =~= pcm@.subrange(0, i as int));
            }
        }
        proof {
            assert(pcm@.subrange(0, len as int) =~= pcm@);
        }
        return out;
    }
    let dst: usize = if dst_ch > 1 {
        dst_ch
    } else {
        1
    };
    let ghost n = frame_count(len as int, src_ch as int);
    let ghost left = len as int % src_ch as int;
    let mut start: usize = 0;
    let ghost mut f: int = 0;
    proof {
        lemma_frames(len as int, src_ch as int);
        assert(0 * src_ch == 0);
        assert(0 * dst == 0);
    }
    while start < len
        invariant
            len == pcm@.len(),
            src_ch > 0,
            dst > 0,
            n == frame_count(len as int, src_ch as int),
            left == len as int % src_ch as int,
            left == 0 || smaller(dst as int, src_ch as int) <= left,
            0 <= f <= n,
            f < n ==> start == f * src_ch,
            f == n ==> start == len,
            n > 0 ==> (n - 1) * src_ch < len <= n * src_ch,
            len < n * src_ch ==> len == (n - 1) * src_ch + left,
            out@.len() == f * dst,
            forall|g: int, c: int|
                0 <= g < f && 0 <= c < dst ==> #[trigger] out@[g * dst + c] == pcm@[g * src_ch
                    + source_channel(c, src_ch as int)],
        decreases len - start,
    {
        let ghost base = out@;
        let mut c: usize = 0;
        proof {
            assert(f * src_ch <= (n - 1) * src_ch) by (nonlinear_arith)
                requires
                    f <= n - 1,
                    src_ch > 0,
            ;
            if f < n - 1 {
                assert((f + 1) * src_ch <= (n - 1) * src_ch) by (nonlinear_arith)
                    requires
                        f + 1 <= n - 1,
                        src_ch > 0,
                ;
            }
            assert((f + 1) * src_ch == f * src_ch + src_ch) by (nonlinear_arith);
            assert((f + 1) * dst == f * dst + dst) by (nonlinear_arith);
        }
        while c < dst
            invariant
                c <= dst,
                len == pcm@.len(),
                src_ch > 0,
                start < len,
                start + smaller(dst as int, src_ch as int) <= len,
                out@.len() == base.len() + c,
                forall|k: int| 0 <= k < base.len() ==> #[trigger] out@[k] == base[k],
                forall|k: int|
                    0 <= k < c ==> #[trigger] out@[base.len() + k] == pcm@[start + source_channel(
                        k,
                        src_ch as int,
                    )],
            decreases dst - c,
        {
            let from: usize = if c < src_ch - 1 {
                c
            } else {
                src_ch - 1
            };
            out.push(pcm[start + from]);
            c = c + 1;
        }
        proof {
            assert forall|g: int, k: int| 0 <= g < f + 1 && 0 <= k < dst implies #[trigger] out@[g
                * dst + k] == pcm@[g * src_ch + source_channel(k, src_ch as int)] by {
                if g < f {
                    assert(g * dst + k < f * dst) by (nonlinear_arith)
                        requires
                            g + 1 <= f,
                            0 <= k < dst,
                    ;
                    assert(0 <= g * dst) by (nonlinear_arith)
                        requires
                            0 <= g,
                            dst > 0,
                    ;
                    assert(out@[g * dst + k] == base[g * dst + k]);
                } else {
                    assert(out@[base.len() + k] == pcm@[start + source_channel(
                        k,
                        src_ch as int,
                    )]);
                }
            }
            f = f + 1;
        }
        if len - start > src_ch {
            start = start + src_ch;
        } else {
            start = len;
        }
    }
    proof {
        if f < n {
            assert(f * src_ch <= (n - 1) * src_ch) by (nonlinear_arith)
                requires
                    f <= n - 1,
                    src_ch > 0,
            ;
        }
    }
    out
}

proof fn lemma_frames(len: int, ch: int)
    requires
        len >= 0,
        ch > 0,
    ensures
        ({
            let n = frame_count(len, ch);
            &&& n >= 0
            &&& n > 0 ==> (n - 1) * ch < len
            &&& len <= n * ch
            &&& (n == 0) == (len == 0)
            &&& len < n * ch ==> len == (n - 1) * ch + len % ch
        }),
{
    let n = frame_count(len, ch);
    assert(n * ch <= len + ch - 1 && len + ch - 1 < (n + 1) * ch && n >= 0) by (nonlinear_arith)
        requires
            n == (len + ch - 1) / ch,
            ch > 0,
            len >= 0,
    ;
    assert((n - 1) * ch == n * ch - ch) by (nonlinear_arith);
    assert((n + 1) * ch == n * ch + ch) by (nonlinear_arith);
    let q = len / ch;
    assert(len == q * ch + len % ch && 0 <= len % ch < ch) by (nonlinear_arith)
        requires
            q == len / ch,
            ch > 0,
            len >= 0,
    ;
    if len < n * ch {
        assert(q == n - 1) by (nonlinear_arith)
            requires
                (n - 1) * ch <= len < n * ch,
                q == len / ch,
                ch > 0,
        ;
    }
    if n == 0 {
        assert(0 * ch == 0);
    }
    if n > 0 && len == 0 {
        assert((n - 1) * ch >= 0) by (nonlinear_arith)
            requires
                n >= 1,
                ch > 0,
        ;
    }
}

/// A ring of samples between one producer and one consumer.
#[derive(Debug)]
pub struct SpscAudioRing<T> {
    buf: Vec<T>,
    start: usize,
    count: usize,
}

/// Where the `i`th sample of a ring stands.
pub open spec fn slot(start: int, i: int, cap: int) -> int {
    (start + i) % cap
}

/// The smallest power of two that is not below `n`.
pub open spec fn is_power_above(p: int, n: int) -> bool {
    &&& exists|k: nat| p == #[trigger] vstd::arithmetic::power2::pow2(k)
    &&& p >= n
    &&& p == 1 || p / 2 < n
}

/// The samples that a ring takes in: from the front, as many as there is room for.
pub open spec fn taken_in<T>(held: Seq<T>, room: nat, samples: Seq<T>) -> Seq<T> {
    samples.take(smaller(samples.len() as int, room - held.len()))
}

/// The samples that a ring hands out: the oldest, so many at most.
pub open spec fn handed_out<T>(held: Seq<T>, max: nat) -> Seq<T> {
    held.take(smaller(max as int, held.len() as int))
}

/// A call of a ring.
pub enum RingCall<T> {
    /// These samples are put in.
    Push(Seq<T>),
    /// So many samples are taken out at most.
    Pop(nat),
}

/// What became of a ring: what it holds, all that it took in, and all that it handed
/// out.
pub struct RingRun<T> {
    pub held: Seq<T>,
    pub accepted: Seq<T>,
    pub popped: Seq<T>,
}

/// A ring with so much room, after these calls.
pub open spec fn ring_run<T>(room: nat, calls: Seq<RingCall<T>>) -> RingRun<T>
    decreases calls.len(),
{
    if calls.len() == 0 {
        RingRun { held: Seq::empty(), accepted: Seq::empty(), popped: Seq::empty() }
    } else {
        let before = ring_run(room, calls.drop_last());
        match calls.last() {
            RingCall::Push(samples) => {
                let new = taken_in(before.held, room, samples);
                RingRun { held: before.held + new, accepted: before.accepted + new, ..before }
            },
            RingCall::Pop(max) => {
                let out = handed_out(before.held, max);
                RingRun {
                    held: before.held.skip(out.len() as int),
                    popped: before.popped + out,
                    ..before
                }
            },
        }
    }
}

/// Over any run of calls, what comes out of a ring is what went in, in order and from
/// the beginning: all that was handed out is a prefix of all that was taken in. The
/// rest is what the ring holds, and that is never more than it has room for.
pub proof fn what_comes_out_went_in<T>(room: nat, calls: Seq<RingCall<T>>)
    ensures
        ({
            let r = ring_run(room, calls);
            &&& r.accepted == r.popped + r.held
            &&& r.popped.len() <= r.accepted.len()
            &&& r.popped == r.accepted.take(r.popped.len() as int)
            &&& r.held.len() == r.accepted.len() - r.popped.len()
            &&& r.held.len() <= room
        }),
    decreases calls.len(),
{
    let r = ring_run(room, calls);
    if calls.len() > 0 {
        let before = ring_run(room, calls.drop_last());
        what_comes_out_went_in(room, calls.drop_last());
        match calls.last() {
            RingCall::Push(samples) => {
                assert(r.accepted =~= r.popped + r.held);
            },
            RingCall::Pop(max) => {
                let out = handed_out(before.held, max);
                assert(out + r.held =~= before.held);
                assert(r.accepted =~= r.popped + r.held);
            },
        }
    } else {
        assert(r.accepted =~= r.popped + r.held);
    }
    assert(r.popped =~= r.accepted.take(r.popped.len() as int));
}

impl<T: Copy> SpscAudioRing<T> {
    /// The samples in the ring, oldest first.
    pub closed spec fn samples(&self) -> Seq<T> {
        Seq::new(self.count as nat, |i: int| self.buf@[slot(self.start as int, i, self.buf@.len() as int)])
    }

    /// How many samples the ring can hold.
    pub closed spec fn room(&self) -> nat {
        self.buf@.len()
    }

    /// The samples lie within the ring.
    pub closed spec fn wf(&self) -> bool {
        &&& 0 < self.buf@.len()
        &&& self.start < self.buf@.len()
        &&& self.count <= self.buf@.len()
    }

    /// A ring with nothing in it. It holds as many samples as asked for, rounded up
    /// to a power of two, 4096 at least. `silence` fills it at first.
    pub fn with_capacity(capacity: usize, silence: T) -> (r: SpscAudioRing<T>)
        requires
            capacity <= usize::MAX / 2 + 1,
        ensures
            r.wf(),
            r.samples() == Seq::<T>::empty(),
            capacity <= 4096 ==> r.room() == 4096,
            capacity > 4096 ==> is_power_above(r.room() as int, capacity as int),
    {
        let mut cap: usize = 4096;
        let ghost mut k: nat = 12;
        proof {
            vstd::arithmetic::power2::lemma2_to64();
        }
        while cap < capacity
            invariant
                4096 <= cap,
                capacity <= usize::MAX / 2 + 1,
                cap == vstd::arithmetic::power2::pow2(k),
                cap > 4096 ==> cap / 2 < capacity,
                capacity <= 4096 ==> cap == 4096,
            decreases usize::MAX - cap,
        {
            proof {
                vstd::arithmetic::power2::lemma_pow2_unfold(k + 1);
                k = k + 1;
            }
            cap = cap * 2;
        }
        let mut buf: Vec<T> = Vec::new();
        while buf.len() < cap
            invariant
                buf@.len() <= cap,
            decreases cap - buf@.len(),
        {
            buf.push(silence);
        }
        let r = SpscAudioRing { buf, start: 0, count: 0 };
        proof {
            assert(r.samples() =~= Seq::empty());
        }
        r
    }

    /// How many samples there are.
    pub fn len(&self) -> (n: usize)
        ensures
            n == self.samples().len(),
    {
        self.count
    }

    /// Drops all samples.
    pub fn clear(&mut self)
        requires
            old(self).wf(),
        ensures
            final(self).wf(),
            final(self).samples().len() == 0,
            final(self).room() == old(self).room(),
    {
        self.count = 0;
    }

    /// Takes in samples from the front, as many as there is room for. Says how many.
    pub fn push_slice(&mut self, samples: &[T]) -> (n: usize)
        requires
            old(self).wf(),
        ensures
            final(self).wf(),
            final(self).room() == old(self).room(),
            n == smaller(
                samples@.len() as int,
                old(self).room() - old(self).samples().len(),
            ),
            n == taken_in(old(self).samples(), old(self).room(), samples@).len(),
            final(self).samples() == old(self).samples() + taken_in(
                old(self).samples(),
                old(self).room(),
                samples@,
            ),
            n <= samples@.len(),
            old(self).samples().len() + n <= old(self).room(),
            n == samples@.len() || old(self).samples().len() + n == old(self).room(),
            final(self).samples() == old(self).samples() + samples@.take(n as int),
    {
        let len: usize = samples.len();
        let mut n: usize = 0;
        let cap: usize = self.buf.len();
        let ghost before = self.samples();
        proof {
            assert(self.samples() =~= before + samples@.take(0));
        }
        while n < len && self.count < cap
            invariant
                n <= len,
                len == samples@.len(),
                cap == self.buf@.len(),
                0 < cap,
                self.start < cap,
                self.count <= cap,
                cap == old(self).buf@.len(),
                before == old(self).samples(),
                self.count == before.len() + n,
                self.samples() == before + samples@.take(n as int),
            decreases len - n,
        {
            let at: usize = if self.start < cap - self.count {
                self.start + self.count
            } else {
                self.start - (cap - self.count)
            };
            let ghost held = self.samples();
            let ghost (s0, c0, b0) = (self.start as int, self.count as int, self.buf@);
            let sample = samples[n];
            self.buf.set(at, sample);
            self.count = self.count + 1;
            n = n + 1;
            proof {
                assert(at == (s0 + c0) % cap as int) by (nonlinear_arith)
                    requires
                        0 <= s0 < cap,
                        0 <= c0 < cap,
                        at == if s0 < cap - c0 {
                            s0 + c0
                        } else {
                            s0 - (cap - c0)
                        },
                ;
                assert forall|i: int| 0 <= i < c0 implies #[trigger] slot(s0, i, cap as int)
                    != at by {
                    lemma_distinct(s0, i, c0, cap as int);
                }
                assert(self.samples() =~= held.push(sample));
                assert(samples@.take(n as int) =~= samples@.take(n - 1).push(sample));
                assert(self.samples() =~= before + samples@.take(n as int));
            }
        }
        n
    }

    /// The oldest samples, so many at most, which leave the ring.
    pub fn pop_slice(&mut self, max: usize) -> (out: Vec<T>)
        requires
            old(self).wf(),
        ensures
            final(self).wf(),
            final(self).room() == old(self).room(),
            out@.len() == smaller(max as int, old(self).samples().len() as int),
            out@ == handed_out(old(self).samples(), max as nat),
            final(self).samples() == old(self).samples().skip(out@.len() as int),
            out@.len() <= max,
            out@.len() == max || final(self).samples().len() == 0,
            out@ + final(self).samples() == old(self).samples(),
    {
        let mut out: Vec<T> = Vec::new();
        let cap: usize = self.buf.len();
        let ghost before = self.samples();
        proof {
            assert(before =~= out@ + self.samples());
        }
        while out.len() < max && self.count > 0
            invariant
                cap == self.buf@.len(),
                0 < cap,
                self.start < cap,
                self.count <= cap,
                cap == old(self).buf@.len(),
                before == old(self).samples(),
                out@.len() <= max,
                before == out@ + self.samples(),
            decreases self.count,
        {
            let ghost held = self.samples();
            let ghost (s0, c0) = (self.start as int, self.count as int);
            let sample = self.buf[self.start];
            out.push(sample);
            self.start = if self.start + 1 < cap {
                self.start + 1
            } else {
                0
            };
            self.count = self.count - 1;
            proof {
                assert(held[0] == sample) by {
                    assert((s0 + 0) % cap as int == s0) by (nonlinear_arith)
                        requires
                            0 <= s0 < cap,
                    ;
                }
                assert forall|i: int| 0 <= i < c0 - 1 implies self.samples()[i] == held[i + 1] by {
                    assert((self.start + i) % cap as int == (s0 + (i + 1)) % cap as int)
                        by (nonlinear_arith)
                        requires
                            self.start == if s0 + 1 < cap {
                                s0 + 1
                            } else {
                                0
                            },
                            0 <= s0 < cap,
                            cap > 0,
                            0 <= i,
                    ;
                }
                assert(held =~= seq![sample] + self.samples());
                assert(before =~= out@ + self.samples());
            }
        }
        proof {
            assert(out@ =~= handed_out(before, max as nat));
            assert(self.samples() =~= before.skip(out@.len() as int));
        }
        out
    }
}

pub(crate) proof fn lemma_distinct(s: int, i: int, c: int, cap: int)
    requires
        0 <= s < cap,
        0 <= i < c < cap,
    ensures
        slot(s, i, cap) != slot(s, c, cap),
{
    assert((s + i) % cap == if s + i < cap {
        s + i
    } else {
        s + i - cap
    }) by (nonlinear_arith)
        requires
            0 <= s < cap,
            0 <= i < cap,
    ;
    assert((s + c) % cap == if s + c < cap {
        s + c
    } else {
        s + c - cap
    }) by (nonlinear_arith)
        requires
            0 <= s < cap,
            0 <= c < cap,
    ;
}

/// A frame holds the samples of its time, two bytes each, and never less than 256 of each
/// channel; without channels it is that of one.
pub proof fn a_frame_holds_the_samples_of_its_time(sample_rate: int, channels: int, ms: int)
    requires
        sample_rate >= 0,
        channels >= 1,
        ms >= 0,
    ensures
        frame_bytes(sample_rate, channels, ms) >= 512 * channels,
        (sample_rate * channels * 2 * ms) / 1000 >= 512 * channels ==> frame_bytes(
            sample_rate,
            channels,
            ms,
        ) == (sample_rate * channels * 2 * ms) / 1000,
        (sample_rate * channels * 2 * ms) / 1000 < 512 * channels ==> frame_bytes(
            sample_rate,
            channels,
            ms,
        ) == 512 * channels,
        frame_bytes(sample_rate, 0, ms) == frame_bytes(sample_rate, 1, ms),
        frame_samples_of(sample_rate, channels, ms) >= channels,
        (sample_rate * channels * ms) / 1000 >= channels ==> frame_samples_of(
            sample_rate,
            channels,
            ms,
        ) == (sample_rate * channels * ms) / 1000,
        frame_samples_of(sample_rate, 0, ms) == frame_samples_of(sample_rate, 1, ms),
{
}

/// A tick comes after the last by its length for each frame that went out, unless that is
/// more than half a second ago: then it is now.
pub proof fn ticks_follow_each_other(now: int, next_tick: int, tick: int, n: int)
    ensures
        next_tick + n * tick >= now - 500_000_000 ==> tick_after(now, next_tick, tick, n)
            == next_tick + n * tick,
        next_tick + n * tick < now - 500_000_000 ==> tick_after(now, next_tick, tick, n) == now,
{
}

/// A player sleeps until its next tick while a frame waits, but for twenty milliseconds at
/// most, and for five milliseconds while none does.
pub proof fn a_player_sleeps_until_its_next_tick(len: int, frame: int, now: int, next_tick: int)
    ensures
        0 <= sleep_of(len, frame, now, next_tick) <= 20_000_000,
        len < frame ==> sleep_of(len, frame, now, next_tick) == 5_000_000,
        len >= frame && next_tick <= now ==> sleep_of(len, frame, now, next_tick) == 0,
        len >= frame && now < next_tick <= now + 20_000_000 ==> now + sleep_of(
            len,
            frame,
            now,
            next_tick,
        ) == next_tick,
        len >= frame && next_tick > now + 20_000_000 ==> sleep_of(len, frame, now, next_tick)
            == 20_000_000,
{
}

/// Frames are cut from the front, each as long as a frame is.
pub proof fn frames_are_as_long_as_a_frame(bytes: Seq<u8>, frame: int, n: int, i: int)
    requires
        frame > 0,
        0 <= i < n,
        n * frame <= bytes.len(),
    ensures
        frames_of(bytes, frame, n).len() == n,
        frames_of(bytes, frame, n)[i].len() == frame,
        forall|k: int|
            0 <= k < frame ==> #[trigger] frames_of(bytes, frame, n)[i][k] == bytes[i * frame + k],
{
    assert((i + 1) * frame == i * frame + frame) by (nonlinear_arith);
    assert(0 <= i * frame && (i + 1) * frame <= n * frame) by (nonlinear_arith)
        requires
            0 <= i < n,
            frame > 0,
    ;
}

/// Whole frames keep their number when their channels change, and each sample of the
/// output is that of the source in its frame: of the channel with its number, or of the
/// last where there is no such.
pub proof fn channels_are_repeated_or_dropped<T>(
    out: Seq<T>,
    pcm: Seq<T>,
    src: int,
    dst: int,
    frames: int,
    f: int,
    c: int,
)
    requires
        is_upmix(out, pcm, src, dst),
        src > 0,
        dst > 0,
        frames >= 0,
        pcm.len() == frames * src,
        0 <= f < frames,
        0 <= c < dst,
    ensures
        out.len() == frames * dst,
        c < src ==> out[f * dst + c] == pcm[f * src + c],
        c >= src ==> out[f * dst + c] == pcm[f * src + src - 1],
{
    vstd::arithmetic::div_mod::lemma_fundamental_div_mod_converse(
        frames * src + src - 1,
        src,
        frames,
        src - 1,
    );
    assert(frame_count(pcm.len() as int, src) == frames);
    assert(out[f * dst + c] == pcm[f * src + source_channel(c, src)]);
}

/// Parts are joined one behind the other.
pub proof fn parts_are_joined_in_order<T>(parts: Seq<Seq<T>>, more: Seq<T>)
    ensures
        joined(parts.push(more)) == joined(parts) + more,
        joined(Seq::<Seq<T>>::empty()) == Seq::<T>::empty(),
{
    assert(parts.push(more).drop_last() =~= parts);
}

/// The larger of two numbers is one of them, and no less than either; the smaller is the
/// other.
pub proof fn larger_and_smaller(a: int, b: int)
    ensures
        larger(a, b) >= a && larger(a, b) >= b,
        smaller(a, b) <= a && smaller(a, b) <= b,
        larger(a, b) + smaller(a, b) == a + b,
        larger(a, b) == a || larger(a, b) == b,
{
}

} // verus!
