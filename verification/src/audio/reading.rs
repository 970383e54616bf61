//! Reading streams piece by piece: what to do with what a read gave.

use vstd::prelude::*;
use vstd::slice::slice_subrange;
use vstd::slice::slice_to_vec;

verus! {

/// What one read of a stream gave.
#[derive(Debug)]
pub enum ReadOutcome {
    /// Some bytes.
    Data(Vec<u8>),
    /// The stream is over.
    End,
    /// Nothing yet: the read is to be made again.
    Interrupted,
    /// The stream is broken, for this reason.
    Failed(String),
}

/// How far a buffer has come.
#[derive(Debug, Clone, Copy, PartialEq, Eq, Structural)]
pub enum FillStep {
    /// There are bytes missing.
    More,
    /// The buffer is full.
    Full,
    /// The stream was over before the first byte.
    Empty,
}

/// Why a buffer cannot be filled.
#[derive(Debug)]
pub enum FillError {
    /// The listener stopped.
    Stopped,
    /// The stream was over before the last byte.
    Ended,
    /// The stream is broken, for this reason.
    Failed(String),
}

/// The contents of a [`FillError`].
#[verifier::ext_equal]
pub enum FillErrorView {
    Stopped,
    Ended,
    Failed(Seq<char>),
}

impl View for FillError {
    type V = FillErrorView;

    open spec fn view(&self) -> FillErrorView {
        match self {
            FillError::Stopped => FillErrorView::Stopped,
            FillError::Ended => FillErrorView::Ended,
            FillError::Failed(e) => FillErrorView::Failed(e@),
        }
    }
}

impl FillError {
    /// The error in words.
    pub fn message(&self) -> (s: String)
        ensures
            s@ == match self {
                FillError::Stopped => "stopped"@,
                FillError::Ended => "unexpected eof"@,
                FillError::Failed(e) => e@,
            },
    {
        match self {
            FillError::Stopped => "stopped".to_string(),
            FillError::Ended => "unexpected eof".to_string(),
            FillError::Failed(e) => e.clone(),
        }
    }
}

/// What a read means for a buffer that holds `got` and is to hold `len` bytes, where
/// `stopped` says whether the listener had stopped before the read.
pub open spec fn filled(got: Seq<u8>, len: int, stopped: bool, outcome: ReadOutcome) -> (
    Seq<u8>,
    Result<FillStep, FillErrorView>,
) {
    if stopped {
        (got, Err(FillErrorView::Stopped))
    } else {
        match outcome {
            ReadOutcome::Data(d) => (
                got + d@,
                Ok(
                    if got.len() + d@.len() >= len {
                        FillStep::Full
                    } else {
                        FillStep::More
                    },
                ),
            ),
            ReadOutcome::End => (
                got,
                if got.len() == 0 {
                    Ok(FillStep::Empty)
                } else {
                    Err(FillErrorView::Ended)
                },
            ),
            ReadOutcome::Interrupted => (got, Ok(FillStep::More)),
            ReadOutcome::Failed(e) => (got, Err(FillErrorView::Failed(e@))),
        }
    }
}

/// Takes in what a read gave for a buffer that is to hold `len` bytes.
pub fn fill_step(got: &mut Vec<u8>, len: usize, stopped: bool, outcome: ReadOutcome) -> (r: Result<
    FillStep,
    FillError,
>)
    requires
        old(got)@.len() < len,
        outcome matches ReadOutcome::Data(d) ==> 0 < d@.len() <= len - old(got)@.len(),
    ensures
        final(got)@ == filled(old(got)@, len as int, stopped, outcome).0,
        final(got)@.len() <= len,
        match r {
            Ok(step) => filled(old(got)@, len as int, stopped, outcome).1 == Ok::<
                _,
                FillErrorView,
            >(step),
            Err(e) => filled(old(got)@, len as int, stopped, outcome).1 == Err::<FillStep, _>(e@),
        },
        stopped ==> final(got)@ == old(got)@ && (r matches Err(e) && e is Stopped),
        !stopped ==> (outcome matches ReadOutcome::Data(d) ==> final(got)@ == old(got)@ + d@ && (
        r matches Ok(step) && (step is Full <==> final(got)@.len() == len) && (step is More
            <==> final(got)@.len() < len))),
        !stopped && outcome is End ==> final(got)@ == old(got)@ && (old(got)@.len() == 0 ==> (
        r matches Ok(step) && step is Empty)) && (old(got)@.len() > 0 ==> (r matches Err(e)
            && e is Ended)),
        !stopped && outcome is Interrupted ==> final(got)@ == old(got)@ && (r matches Ok(step)
            && step is More),
        !stopped ==> (outcome matches ReadOutcome::Failed(why) ==> final(got)@ == old(got)@ && (
        r matches Err(FillError::Failed(e)) && e@ == why@)),
{
    if stopped {
        return Err(FillError::Stopped);
    }
    match outcome {
        ReadOutcome::Data(d) => {
            let mut d = d;
            got.append(&mut d);
            if got.len() >= len {
                Ok(FillStep::Full)
            } else {
                Ok(FillStep::More)
            }
        },
        ReadOutcome::End => if got.len() == 0 {
            Ok(FillStep::Empty)
        } else {
            Err(FillError::Ended)
        },
        ReadOutcome::Interrupted => Ok(FillStep::More),
        ReadOutcome::Failed(e) => Err(FillError::Failed(e)),
    }
}

/// How many bytes a look at a stream reads at a time.
pub const PEEK_CHUNK: usize = 1_024;

/// Whether a look at the first `max` bytes of a stream is to read on. It is asked
/// before each read.
pub fn peek_wants_more(got: usize, max: usize) -> (r: bool)
    ensures
        r == (got < max),
{
    got < max
}

/// What a read means for a look at the first `max` bytes of a stream: the bytes so
/// far, and whether the look is over, or why it failed.
pub open spec fn peeked(got: Seq<u8>, max: int, stopped: bool, outcome: ReadOutcome) -> (
    Seq<u8>,
    Result<bool, Seq<char>>,
) {
    if stopped {
        (got, Err("stopped"@))
    } else {
        match outcome {
            ReadOutcome::Data(d) => (got + d@, Ok(got.len() + d@.len() >= max)),
            ReadOutcome::End => (got, Ok(true)),
            ReadOutcome::Interrupted => (got, Ok(got.len() >= max)),
            ReadOutcome::Failed(e) => (got, Err(e@)),
        }
    }
}

/// Takes in what a read gave for a look at the first `max` bytes of a stream. The
/// last read may bring more than that. Says whether the look is over.
pub fn read_format_peek(
    got: &mut Vec<u8>,
    max: usize,
    stopped: bool,
    outcome: ReadOutcome,
) -> (r: Result<bool, String>)
    ensures
        final(got)@ == peeked(old(got)@, max as int, stopped, outcome).0,
        match r {
            Ok(over) => peeked(old(got)@, max as int, stopped, outcome).1 == Ok::<
                bool,
                Seq<char>,
            >(over),
            Err(e) => peeked(old(got)@, max as int, stopped, outcome).1 == Err::<bool, Seq<char>>(
                e@,
            ),
        },
        stopped ==> final(got)@ == old(got)@ && (r matches Err(e) && e@ == "stopped"@),
        !stopped ==> (outcome matches ReadOutcome::Data(d) ==> final(got)@ == old(got)@ + d@ && (
        r matches Ok(over) && (over <==> final(got)@.len() >= max))),
        !stopped && outcome is End ==> final(got)@ == old(got)@ && (r matches Ok(over) && over),
        !stopped && outcome is Interrupted ==> final(got)@ == old(got)@ && (r matches Ok(over) && (
        over <==> old(got)@.len() >= max)),
        !stopped ==> (outcome matches ReadOutcome::Failed(why) ==> final(got)@ == old(got)@ && (
        r matches Err(e) && e@ == why@)),
{
    if stopped {
        return Err("stopped".to_string());
    }
    match outcome {
        ReadOutcome::Data(d) => {
            let mut d = d;
            got.append(&mut d);
            Ok(got.len() >= max)
        },
        ReadOutcome::End => Ok(true),
        ReadOutcome::Interrupted => Ok(got.len() >= max),
        ReadOutcome::Failed(e) => Err(e),
    }
}

/// A look at the first `max` bytes of a stream of which `got` are there, where its next
/// reads give this: the bytes in the end, how many reads were made, and whether the
/// look is over.
pub open spec fn looked(got: Seq<u8>, max: int, reads: Seq<ReadOutcome>) -> (Seq<u8>, nat, bool)
    decreases reads.len(),
{
    if got.len() >= max {
        (got, 0, true)
    } else if reads.len() == 0 {
        (got, 0, false)
    } else {
        let (now, step) = peeked(got, max, false, reads[0]);
        match step {
            Ok(false) => {
                let rest = looked(now, max, reads.skip(1));
                (rest.0, rest.1 + 1, rest.2)
            },
            _ => (now, 1, true),
        }
    }
}

/// The bytes that a read gave.
pub open spec fn bytes_of(outcome: ReadOutcome) -> Seq<u8> {
    match outcome {
        ReadOutcome::Data(d) => d@,
        _ => Seq::empty(),
    }
}

/// The bytes that reads gave, one after another.
pub open spec fn all_bytes(reads: Seq<ReadOutcome>) -> Seq<u8>
    decreases reads.len(),
{
    if reads.len() == 0 {
        Seq::empty()
    } else {
        bytes_of(reads[0]) + all_bytes(reads.skip(1))
    }
}

/// No read gave more than a chunk.
pub open spec fn in_chunks(reads: Seq<ReadOutcome>) -> bool {
    forall|i: int| 0 <= i < reads.len() ==> bytes_of(#[trigger] reads[i]).len() <= PEEK_CHUNK
}

/// A look at a stream takes every byte that it read, in order, and reads no more than
/// it needs: nothing at all where it has enough, and less than one chunk beyond what
/// was asked for. It is over once it has enough, or the stream has ended.
pub proof fn a_look_takes_what_it_read(got: Seq<u8>, max: int, reads: Seq<ReadOutcome>)
    requires
        forall|i: int| 0 <= i < reads.len() ==> !(#[trigger] reads[i] is Failed),
    ensures
        ({
            let (all, n, over) = looked(got, max, reads);
            &&& n <= reads.len()
            &&& all == got + all_bytes(reads.take(n as int))
            &&& got.len() >= max ==> n == 0
            &&& got.len() < max && in_chunks(reads) ==> all.len() < max + PEEK_CHUNK
            &&& over ==> all.len() >= max || (n > 0 && reads[n - 1] is End)
            &&& !over ==> n == reads.len()
        }),
    decreases reads.len(),
{
    let (all, n, over) = looked(got, max, reads);
    if got.len() >= max || reads.len() == 0 {
        assert(reads.take(0) =~= Seq::empty());
        assert(all_bytes(reads.take(0)) =~= Seq::empty());
        assert(all =~= got + all_bytes(reads.take(0)));
    } else {
        let (now, step) = peeked(got, max, false, reads[0]);
        assert(!(reads[0] is Failed));
        assert(now =~= got + bytes_of(reads[0]));
        if step == Ok::<bool, Seq<char>>(false) {
            let rest = reads.skip(1);
            assert forall|i: int| 0 <= i < rest.len() implies !(#[trigger] rest[i] is Failed) by {
                assert(rest[i] == reads[i + 1]);
            }
            if in_chunks(reads) {
                assert forall|i: int| 0 <= i < rest.len() implies bytes_of(
                    #[trigger] rest[i],
                ).len() <= PEEK_CHUNK by {
                    assert(rest[i] == reads[i + 1]);
                }
            }
            a_look_takes_what_it_read(now, max, rest);
            assert(n == looked(now, max, rest).1 + 1);
            assert(reads.take(n as int)[0] == reads[0]);
            assert(reads.take(n as int).skip(1) =~= rest.take(n - 1));
            assert(all =~= got + all_bytes(reads.take(n as int)));
            if n > 1 {
                assert(rest[n - 2] == reads[n - 1]);
            }
        } else {
            assert(n == 1);
            assert(reads.take(1)[0] == reads[0]);
            assert(reads.take(1).skip(1) =~= Seq::empty());
            assert(all_bytes(reads.take(1).skip(1)) =~= Seq::empty());
            assert(all =~= got + all_bytes(reads.take(1)));
        }
    }
}

/// A stream with bytes in front of it that were read already.
#[derive(Debug)]
pub struct PrefixedReader<R> {
    prefix: Vec<u8>,
    pos: usize,
    pub inner: R,
}

impl<R> PrefixedReader<R> {
    /// The bytes in front that were not handed out yet.
    pub closed spec fn left(&self) -> Seq<u8> {
        self.prefix@.subrange(self.pos as int, self.prefix@.len() as int)
    }

    /// What stands behind the bytes in front.
    pub closed spec fn source(&self) -> R {
        self.inner
    }

    /// The position lies within the bytes in front.
    #[verifier::type_invariant]
    closed spec fn wf(self) -> bool {
        self.pos <= self.prefix@.len()
    }

    /// Puts bytes in front of a stream.
    pub fn new(prefix: Vec<u8>, inner: R) -> (r: PrefixedReader<R>)
        ensures
            r.left() == prefix@,
            r.source() == inner,
    {
        let r = PrefixedReader { prefix, pos: 0, inner };
        proof {
            assert(r.left() =~= prefix@);
        }
        r
    }

    /// The bytes in front, so many at most; none where they are used up, so that the
    /// stream itself is to be read.
    pub fn take_prefix(&mut self, max: usize) -> (r: Option<Vec<u8>>)
        ensures
            final(self).source() == old(self).source(),
            match r {
                Some(bytes) => {
                    &&& old(self).left().len() > 0
                    &&& bytes@.len() == if max < old(self).left().len() {
                        max as int
                    } else {
                        old(self).left().len() as int
                    }
                    &&& bytes@ + final(self).left() == old(self).left()
                },
                None => old(self).left().len() == 0 && final(self).left() == old(self).left(),
            },
    {
        proof {
            use_type_invariant(&*self);
        }
        let len: usize = self.prefix.len();
        if self.pos >= len {
            return None;
        }
        let left: usize = len - self.pos;
        let n: usize = if max < left {
            max
        } else {
            left
        };
        let ghost before = self.left();
        let bytes = slice_to_vec(slice_subrange(self.prefix.as_slice(), self.pos, self.pos + n));
        self.pos = self.pos + n;
        proof {
            assert(bytes@ + self.left() =~= before);
        }
        Some(bytes)
    }

    /// Whether the bytes in front are used up, so that a seek can be left to the
    /// stream itself.
    pub fn can_seek(&self) -> (r: bool)
        ensures
            r == (self.left().len() == 0),
    {
        proof {
            use_type_invariant(self);
        }
        self.pos >= self.prefix.len()
    }
}

/// Chunks of a stream on their way to a reader.
#[derive(Debug)]
pub struct ChunkBuffer {
    pending: Vec<u8>,
    at: usize,
}

impl ChunkBuffer {
    /// The bytes that were not handed out yet.
    pub closed spec fn left(&self) -> Seq<u8> {
        self.pending@.subrange(self.at as int, self.pending@.len() as int)
    }

    #[verifier::type_invariant]
    closed spec fn wf(self) -> bool {
        self.at <= self.pending@.len()
    }

    /// A buffer with nothing in it.
    pub fn new() -> (b: ChunkBuffer)
        ensures
            b.left().len() == 0,
    {
        ChunkBuffer { pending: Vec::new(), at: 0 }
    }

    /// Takes in the next chunk, where the one before is used up.
    pub fn put(&mut self, chunk: Vec<u8>)
        requires
            old(self).left().len() == 0,
        ensures
            final(self).left() == chunk@,
    {
        *self = ChunkBuffer { pending: chunk, at: 0 };
        proof {
            assert(self.left() =~= chunk@);
        }
    }

    /// The next bytes, so many at most; none where the chunk is used up.
    pub fn take(&mut self, max: usize) -> (bytes: Vec<u8>)
        ensures
            bytes@.len() == if max < old(self).left().len() {
                max as int
            } else {
                old(self).left().len() as int
            },
            bytes@ + final(self).left() == old(self).left(),
    {
        proof {
            use_type_invariant(&*self);
        }
        let left: usize = self.pending.len() - self.at;
        let n: usize = if max < left {
            max
        } else {
            left
        };
        let ghost before = self.left();
        let bytes = slice_to_vec(slice_subrange(self.pending.as_slice(), self.at, self.at + n));
        self.at = self.at + n;
        proof {
            assert(bytes@ + self.left() =~= before);
        }
        bytes
    }
}

/// What to do while a stream is being opened.
#[derive(Debug, Clone, Copy, PartialEq, Eq, Structural)]
pub enum OpenStep {
    /// The listener stopped.
    Stopped,
    /// It took too long.
    TimedOut,
    /// Wait so many milliseconds for the answer.
    Wait(u64),
}

/// How often a wait looks whether the listener stopped, in milliseconds.
pub const READ_POLL_MS: u64 = 200;

/// How long opening a stream may take, in milliseconds.
pub const OPEN_TIMEOUT_MS: u64 = 12_000;

/// What to do next while a stream is being opened, so many milliseconds after the
/// request went out.
pub fn open_step(stopped: bool, elapsed_ms: u64) -> (s: OpenStep)
    ensures
        s == if stopped {
            OpenStep::Stopped
        } else if elapsed_ms >= OPEN_TIMEOUT_MS {
            OpenStep::TimedOut
        } else if OPEN_TIMEOUT_MS - elapsed_ms < READ_POLL_MS {
            OpenStep::Wait((OPEN_TIMEOUT_MS - elapsed_ms) as u64)
        } else {
            OpenStep::Wait(READ_POLL_MS)
        },
        s is Stopped <==> stopped,
        s is TimedOut <==> !stopped && elapsed_ms >= 12_000,
        s matches OpenStep::Wait(ms) ==> 0 < ms <= 200 && elapsed_ms + ms <= 12_000 && (ms == 200
            || elapsed_ms + ms == 12_000),
{
    if stopped {
        OpenStep::Stopped
    } else if elapsed_ms >= OPEN_TIMEOUT_MS {
        OpenStep::TimedOut
    } else if OPEN_TIMEOUT_MS - elapsed_ms < READ_POLL_MS {
        OpenStep::Wait(OPEN_TIMEOUT_MS - elapsed_ms)
    } else {
        OpenStep::Wait(READ_POLL_MS)
    }
}

} // verus!
