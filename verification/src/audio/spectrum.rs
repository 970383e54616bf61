//! Which stretch of sound the spectrum is taken of, and how often it is shown.

use vstd::prelude::*;

verus! {

/// How many bands the spectrum has.
pub const BANDS: usize = 24;

/// How many samples one spectrum is taken of.
pub const FFT_SIZE: usize = 1024;

/// How many samples further on the next spectrum begins.
pub const HOP: usize = 512;

/// How much time lies between two spectra at least; in nanoseconds.
pub const LEVEL_PUBLISH_INTERVAL: u64 = 20_000_000;

/// Whether the time for the next spectrum has come, where `last` is the time of the
/// one before.
pub open spec fn is_due(last: Option<u64>, now: u64) -> bool {
    match last {
        Some(t) => now - t >= LEVEL_PUBLISH_INTERVAL,
        None => true,
    }
}

fn due(last: Option<u64>, now: u64) -> (r: bool)
    ensures
        r == is_due(last, now),
{
    match last {
        Some(t) => now >= t && now - t >= LEVEL_PUBLISH_INTERVAL,
        None => true,
    }
}

/// What is kept of samples that have come faster than they are used: whole hops go
/// from the front until no more than a spectrum and a hop is left.
pub open spec fn caught_up<T>(pcm: Seq<T>) -> Seq<T>
    decreases pcm.len(),
{
    if pcm.len() > FFT_SIZE + HOP {
        caught_up(pcm.skip(HOP as int))
    } else {
        pcm
    }
}

/// Collects samples for spectra. `T` is a sample; times are in nanoseconds.
#[derive(Debug)]
pub struct SampleWindow<T> {
    pub pcm: Vec<T>,
    pub last: Option<u64>,
}

impl<T: Copy> SampleWindow<T> {
    /// A window with nothing in it.
    pub fn new() -> (w: SampleWindow<T>)
        ensures
            w.pcm@.len() == 0,
            w.last is None,
    {
        SampleWindow { pcm: Vec::new(), last: None }
    }

    /// Takes in samples, and gives those that a spectrum is to be taken of, where
    /// there are enough and the time has come.
    pub fn push(&mut self, samples: &[T], now: u64) -> (window: Option<Vec<T>>)
        ensures
            ({
                let all = caught_up(old(self).pcm@ + samples@);
                match window {
                    Some(w) => {
                        &&& all.len() >= FFT_SIZE && is_due(old(self).last, now)
                        &&& w@ == all.take(FFT_SIZE as int)
                        &&& final(self).pcm@ == all.skip(HOP as int)
                        &&& final(self).last == Some(now)
                    },
                    None => {
                        &&& all.len() < FFT_SIZE || !is_due(old(self).last, now)
                        &&& final(self).pcm@ == all
                        &&& final(self).last == old(self).last
                    },
                }
            }),
            window matches Some(w) ==> w@.len() == 1024 && final(self).last == Some(now),
            old(self).pcm@.len() + samples@.len() < 1024 ==> window is None && final(self).pcm@
                == old(self).pcm@ + samples@,
            final(self).pcm@.len() <= 1536,
    {
        let n: usize = samples.len();
        let ghost start = self.pcm@;
        let mut i: usize = 0;
        proof {
            assert(self.pcm@ =~= start + samples@.subrange(0, 0));
        }
        while i < n
            invariant
                i <= n,
                n == samples@.len(),
                self.pcm@ == start + samples@.subrange(0, i as int),
                self.last == old(self).last,
                start == old(self).pcm@,
            decreases n - i,
        {
            let sample = samples[i];
            self.pcm.push(sample);
            i = i + 1;
            proof {
                assert(self.pcm@ =~= start + samples@.subrange(0, i as int));
            }
        }
        let ghost all = start + samples@;
        proof {
            assert(samples@.subrange(0, n as int) =~= samples@);
        }
        while self.pcm.len() > FFT_SIZE + HOP
            invariant
                caught_up(self.pcm@) == caught_up(all),
                self.last == old(self).last,
            decreases self.pcm@.len(),
        {
            let ghost before = self.pcm@;
            self.pcm = self.pcm.split_off(HOP);
            proof {
                assert(self.pcm@ =~= before.skip(HOP as int));
            }
        }
        if !due(self.last, now) || self.pcm.len() < FFT_SIZE {
            return None;
        }
        let ghost kept = self.pcm@;
        let mut window: Vec<T> = Vec::new();
        let mut k: usize = 0;
        while k < FFT_SIZE
            invariant
                k <= FFT_SIZE,
                self.pcm@ == kept,
                kept.len() >= FFT_SIZE,
                window@ == kept.take(k as int),
            decreases FFT_SIZE - k,
        {
            window.push(self.pcm[k]);
            k = k + 1;
            proof {
                assert(window@ =~= kept.take(k as int));
            }
        }
        self.pcm = self.pcm.split_off(HOP);
        proof {
            assert(self.pcm@ =~= kept.skip(HOP as int));
        }
        self.last = Some(now);
        Some(window)
    }
}

/// Passes values on, but not too often.
#[derive(Debug)]
pub struct LevelPublisher<V> {
    pub last: Option<u64>,
    pub pending: Option<V>,
}

impl<V> LevelPublisher<V> {
    /// A publisher that has passed nothing on.
    pub fn new() -> (p: LevelPublisher<V>)
        ensures
            p.last is None,
            p.pending is None,
    {
        LevelPublisher { last: None, pending: None }
    }

    /// Takes in values, and gives them back where the time has come to show them.
    pub fn publish_limited(&mut self, values: V, now: u64) -> (shown: Option<V>)
        ensures
            is_due(old(self).last, now) ==> shown == Some(values) && final(self).last == Some(now)
                && final(self).pending is None,
            !is_due(old(self).last, now) ==> shown is None && final(self).last == old(self).last
                && final(self).pending == Some(values),
            old(self).last is None ==> shown == Some(values),
            old(self).last matches Some(t) ==> (shown is Some <==> now - t >= 20_000_000),
            shown is Some ==> final(self).last == Some(now),
    {
        if due(self.last, now) {
            self.pending = None;
            self.last = Some(now);
            Some(values)
        } else {
            self.pending = Some(values);
            None
        }
    }
}

proof fn lemma_caught_up<T>(pcm: Seq<T>)
    ensures
        caught_up(pcm).len() <= FFT_SIZE + HOP,
        pcm.len() >= FFT_SIZE ==> caught_up(pcm).len() >= FFT_SIZE,
        pcm.len() < FFT_SIZE ==> caught_up(pcm) == pcm,
    decreases pcm.len(),
{
    if pcm.len() > FFT_SIZE + HOP {
        lemma_caught_up(pcm.skip(HOP as int));
    }
}

/// A spectrum needs a full window: until so many samples have come there is none,
/// and however many come at once no more than a spectrum and a hop is kept.
pub proof fn a_spectrum_needs_a_full_window<T>(pcm: Seq<T>)
    ensures
        (caught_up(pcm).len() >= FFT_SIZE) == (pcm.len() >= FFT_SIZE),
        caught_up(pcm).len() <= FFT_SIZE + HOP,
{
    lemma_caught_up(pcm);
}

/// However many samples come at once, the latest are kept: what is dropped are whole hops
/// of 512 at the front, and no more than it takes to keep 1536 at most.
pub proof fn the_latest_samples_are_kept<T>(pcm: Seq<T>)
    ensures
        caught_up(pcm).len() <= 1536,
        pcm.len() <= 1536 ==> caught_up(pcm) == pcm,
        pcm.len() > 1536 ==> caught_up(pcm).len() > 1024,
        (pcm.len() - caught_up(pcm).len()) % 512 == 0,
        caught_up(pcm) == pcm.skip(pcm.len() - caught_up(pcm).len()),
    decreases pcm.len(),
{
    if pcm.len() > FFT_SIZE + HOP {
        let rest = pcm.skip(HOP as int);
        the_latest_samples_are_kept(rest);
        let n = rest.len() - caught_up(rest).len();
        assert(rest.skip(n) =~= pcm.skip(n + 512));
    } else {
        assert(pcm.skip(0) =~= pcm);
    }
}

/// Levels are shown fifty times in a second at most: not until twenty milliseconds after
/// those before.
pub proof fn levels_are_shown_fifty_times_a_second(last: Option<u64>, now: u64)
    ensures
        last is None ==> is_due(last, now),
        last matches Some(t) ==> (is_due(last, now) <==> now >= t + 1_000_000_000int / 50),
{
}

} // verus!
