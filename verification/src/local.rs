//! Playback on the speakers of this computer.

use crate::audio::live::SourceFormat;
use crate::audio::reading::OPEN_TIMEOUT_MS;
use crate::order;
use crate::order::Ranked;
use crate::text;
use vstd::prelude::*;

verus! {

/// An output of this computer.
#[derive(Debug)]
pub struct LocalDeviceInfo {
    pub id: String,
    pub name: String,
    /// The name under which the sound system knows it; none for the default output.
    pub cpal_name: Option<String>,
}

/// The contents of a [`LocalDeviceInfo`].
#[verifier::ext_equal]
pub struct LocalView {
    pub id: Seq<char>,
    pub name: Seq<char>,
    pub cpal_name: Option<Seq<char>>,
}

impl View for LocalDeviceInfo {
    type V = LocalView;

    open spec fn view(&self) -> LocalView {
        LocalView {
            id: self.id@,
            name: self.name@,
            cpal_name: text::maybe(self.cpal_name),
        }
    }
}

impl Clone for LocalDeviceInfo {
    fn clone(&self) -> (r: LocalDeviceInfo)
        ensures
            r@ == self@,
    {
        LocalDeviceInfo {
            id: self.id.clone(),
            name: self.name.clone(),
            cpal_name: text::copy_maybe(&self.cpal_name),
        }
    }
}

/// The device as it is listed: its name, and in brackets the words for this computer.
pub open spec fn label_of(d: LocalView, this_pc: Seq<char>) -> Seq<char> {
    d.name + "  ["@ + this_pc + "]"@
}

impl LocalDeviceInfo {
    /// The device as it is listed: its name, and in brackets the words for this
    /// computer.
    pub fn label(&self, this_pc: &str) -> (s: String)
        ensures
            s@ == label_of(self@, this_pc@),
            s@ == self.name@ + "  ["@ + this_pc@ + "]"@,
    {
        let s = text::joined_two(self.name.as_str(), "  [");
        let s = text::joined_two(s.as_str(), this_pc);
        text::joined_two(s.as_str(), "]")
    }
}

/// Why nothing is played.
#[derive(Debug)]
pub enum LocalError {
    Audio(String),
    Stream(String),
}

/// The contents of a [`LocalError`].
#[verifier::ext_equal]
pub enum LocalErrorView {
    Audio(Seq<char>),
    Stream(Seq<char>),
}

impl View for LocalError {
    type V = LocalErrorView;

    open spec fn view(&self) -> LocalErrorView {
        match self {
            LocalError::Audio(e) => LocalErrorView::Audio(e@),
            LocalError::Stream(e) => LocalErrorView::Stream(e@),
        }
    }
}

impl LocalError {
    /// The error in words.
    pub fn message(&self) -> (s: String)
        ensures
            s@ == match self {
                LocalError::Audio(e) => "audio: "@ + e@,
                LocalError::Stream(e) => "stream: "@ + e@,
            },
    {
        match self {
            LocalError::Audio(e) => text::joined_two("audio: ", e.as_str()),
            LocalError::Stream(e) => text::joined_two("stream: ", e.as_str()),
        }
    }
}

/// The mark of the default output.
pub open spec fn is_marked(name: Seq<char>) -> bool {
    text::has_text(name, "★"@)
}

impl Ranked for LocalDeviceInfo {
    open spec fn ranks_before(a: LocalView, b: LocalView) -> bool {
        order::marked_first(
            is_marked(a.name),
            is_marked(b.name),
            text::unicode_lower(a.name),
            text::unicode_lower(b.name),
        )
    }

    fn is_before(&self, other: &LocalDeviceInfo) -> (b: bool) {
        let a = text::lowercase(self.name.as_str());
        let b = text::lowercase(other.name.as_str());
        order::is_marked_first(
            text::contains(self.name.as_str(), "★"),
            text::contains(other.name.as_str(), "★"),
            a.as_str(),
            b.as_str(),
        )
    }
}

/// The entry for an output: the default one is marked.
pub open spec fn entry_for(name: Seq<char>, default_name: Option<Seq<char>>) -> LocalView {
    LocalView {
        id: "local:"@ + name,
        name: if default_name == Some(name) {
            name + " ★"@
        } else {
            name
        },
        cpal_name: Some(name),
    }
}

/// The entry that stands for the default output where no output is known.
pub open spec fn fallback_entry(speakers: Seq<char>) -> LocalView {
    LocalView { id: "local:default"@, name: speakers, cpal_name: None }
}

/// The entries for the outputs that have a name.
pub open spec fn entries_for(
    names: Seq<Option<Seq<char>>>,
    default_name: Option<Seq<char>>,
) -> Seq<LocalView>
    decreases names.len(),
{
    if names.len() == 0 {
        Seq::empty()
    } else {
        let before = entries_for(names.drop_last(), default_name);
        match names.last() {
            Some(n) => before.push(entry_for(n, default_name)),
            None => before,
        }
    }
}

/// The list of outputs: sorted, or the fallback where there are none or they cannot
/// be told.
pub open spec fn local_list(
    names: Option<Seq<Option<Seq<char>>>>,
    default_name: Option<Seq<char>>,
    speakers: Seq<char>,
) -> Seq<LocalView> {
    match names {
        None => seq![fallback_entry(speakers)],
        Some(names) => {
            let entries = entries_for(names, default_name);
            if entries.len() == 0 {
                seq![fallback_entry(speakers)]
            } else {
                order::arranged::<LocalDeviceInfo>(entries)
            }
        },
    }
}

/// What optional texts hold.
pub open spec fn maybe_texts(v: Seq<Option<String>>) -> Seq<Option<Seq<char>>> {
    v.map_values(|o: Option<String>| text::maybe(o))
}

fn fallback(speakers: &str) -> (out: Vec<LocalDeviceInfo>)
    ensures
        order::views(out@) == seq![fallback_entry(speakers@)],
{
    let mut out: Vec<LocalDeviceInfo> = Vec::new();
    out.push(
        LocalDeviceInfo {
            id: "local:default".to_string(),
            name: speakers.to_string(),
            cpal_name: None,
        },
    );
    proof {
        assert(order::views(out@) =~= seq![fallback_entry(speakers@)]);
    }
    out
}

/// The outputs of this computer, where `names` are those that the sound system
/// lists, each with its name as far as it has one, and none where it cannot list
/// them. `speakers` are the words for an output of which nothing is known.
pub fn list_local_devices(
    names: Option<Vec<Option<String>>>,
    default_name: Option<String>,
    speakers: &str,
) -> (out: Vec<LocalDeviceInfo>)
    ensures
        order::views(out@) == local_list(
            match names {
                Some(v) => Some(maybe_texts(v@)),
                None => None,
            },
            text::maybe(default_name),
            speakers@,
        ),
{
    let list = match names {
        Some(v) => v,
        None => return fallback(speakers),
    };
    let ghost all = maybe_texts(list@);
    let ghost default = text::maybe(default_name);
    let mut out: Vec<LocalDeviceInfo> = Vec::new();
    let mut i: usize = 0;
    proof {
        assert(order::views(out@) =~= entries_for(all.subrange(0, 0), default));
    }
    while i < list.len()
        invariant
            i <= list@.len(),
            all == maybe_texts(list@),
            default == text::maybe(default_name),
            order::views(out@) == entries_for(all.subrange(0, i as int), default),
        decreases list@.len() - i,
    {
        proof {
            assert(all.subrange(0, i + 1).drop_last() =~= all.subrange(0, i as int));
            assert(all.subrange(0, i + 1).last() == text::maybe(list@[i as int]));
        }
        match &list[i] {
            Some(name) => {
                let is_default = match &default_name {
                    Some(d) => text::same(d.as_str(), name.as_str()),
                    None => false,
                };
                let shown = if is_default {
                    text::joined_two(name.as_str(), " ★")
                } else {
                    name.clone()
                };
                let entry = LocalDeviceInfo {
                    id: text::joined_two("local:", name.as_str()),
                    name: shown,
                    cpal_name: Some(name.clone()),
                };
                let ghost before = out@;
                out.push(entry);
                proof {
                    assert(entry@ =~= entry_for(name@, default));
                    assert(order::views(out@) =~= order::views(before).push(entry@));
                }
            },
            None => {},
        }
        i = i + 1;
    }
    proof {
        assert(all.subrange(0, i as int) =~= all);
        assert(order::views(out@).len() == out@.len());
    }
    if out.len() == 0 {
        return fallback(speakers);
    }
    order::arrange(out)
}

/// The list of outputs is never empty, so that there is always something to play on.
pub proof fn there_is_always_an_output(
    names: Option<Seq<Option<Seq<char>>>>,
    default_name: Option<Seq<char>>,
    speakers: Seq<char>,
)
    ensures
        local_list(names, default_name, speakers).len() > 0,
{
    if let Some(names) = names {
        order::sorting_keeps::<LocalDeviceInfo>(entries_for(names, default_name));
    }
}

/// The order of outputs is one.
pub proof fn outputs_have_an_order()
    ensures
        order::rank_is_an_order::<LocalDeviceInfo>(),
{
    assert forall|a: LocalView, b: LocalView| #[trigger]
        LocalDeviceInfo::ranks_before(a, b) implies !LocalDeviceInfo::ranks_before(b, a) by {
        order::marked_first_is_an_order(
            is_marked(a.name),
            is_marked(b.name),
            true,
            text::unicode_lower(a.name),
            text::unicode_lower(b.name),
            Seq::empty(),
        );
    }
    assert forall|a: LocalView, b: LocalView, c: LocalView|
        !(#[trigger] LocalDeviceInfo::ranks_before(a, b)) && !(
        #[trigger] LocalDeviceInfo::ranks_before(b, c)) implies !LocalDeviceInfo::ranks_before(
        a,
        c,
    ) by {
        order::marked_first_is_an_order(
            is_marked(a.name),
            is_marked(b.name),
            is_marked(c.name),
            text::unicode_lower(a.name),
            text::unicode_lower(b.name),
            text::unicode_lower(c.name),
        );
    }
}

/// The output of the sound system that a device stands for: the first of that name,
/// where `names` are the names that it lists, or the default output (none) where the
/// device has no name of its own. `listing` is the error of a sound system that
/// cannot list its outputs.
pub fn pick_cpal_device(
    cpal_name: &Option<String>,
    names: &Vec<Option<String>>,
    listing: Option<String>,
    has_default: bool,
) -> (r: Result<Option<usize>, LocalError>)
    ensures
        match (*cpal_name, listing) {
            (Some(want), Some(e)) => r matches Err(m) && m@ == LocalErrorView::Audio(e@),
            (Some(want), None) => match r {
                Ok(Some(i)) => {
                    &&& i < names@.len()
                    &&& text::maybe(names@[i as int]) == Some(want@)
                    &&& forall|k: int|
                        0 <= k < i ==> text::maybe(#[trigger] names@[k]) != Some(want@)
                },
                Ok(None) => false,
                Err(m) => {
                    &&& m@ == LocalErrorView::Audio("device «"@ + want@ + "» not found"@)
                    &&& forall|k: int|
                        0 <= k < names@.len() ==> text::maybe(#[trigger] names@[k]) != Some(want@)
                },
            },
            (None, _) => if has_default {
                r matches Ok(None)
            } else {
                r matches Err(m) && m@ == LocalErrorView::Audio("no default output device"@)
            },
        },
{
    match cpal_name {
        Some(want) => {
            if let Some(e) = listing {
                return Err(LocalError::Audio(e));
            }
            let mut i: usize = 0;
            while i < names.len()
                invariant
                    i <= names@.len(),
                    *cpal_name == Some(*want),
                    listing is None,
                    forall|k: int|
                        0 <= k < i ==> text::maybe(#[trigger] names@[k]) != Some(want@),
                decreases names@.len() - i,
            {
                let found = match &names[i] {
                    Some(n) => text::same(n.as_str(), want.as_str()),
                    None => false,
                };
                if found {
                    return Ok(Some(i));
                }
                i = i + 1;
            }
            let m = text::joined_two("device «", want.as_str());
            Err(LocalError::Audio(text::joined_two(m.as_str(), "» not found")))
        },
        None => if has_default {
            Ok(None)
        } else {
            Err(LocalError::Audio("no default output device".to_string()))
        },
    }
}

/// The format that an output is opened with.
#[derive(Debug, Clone, Copy, PartialEq, Eq, Structural)]
pub enum OutputChoice {
    /// Its default format.
    Default,
    /// The fastest of this range of formats.
    Range(usize),
}

/// So many channels as a stream has, one or two.
pub open spec fn preferred_channels(channels: usize) -> u16 {
    if channels < 1 {
        1
    } else if channels > 2 {
        2
    } else {
        channels as u16
    }
}

/// The format that an output is opened with: its default where it has one, else the
/// first range with the preferred number of channels, else the first range. `ranges`
/// are the channels of each range, `listing` the error of an output that cannot list
/// them.
pub fn pick_output_config(
    has_default: bool,
    ranges: &Vec<u16>,
    listing: Option<String>,
    channels: usize,
) -> (r: Result<OutputChoice, LocalError>)
    ensures
        has_default ==> r matches Ok(OutputChoice::Default),
        !has_default ==> match listing {
            Some(e) => r matches Err(m) && m@ == LocalErrorView::Audio(e@),
            None => match r {
                Ok(OutputChoice::Default) => false,
                Ok(OutputChoice::Range(i)) => {
                    let want = preferred_channels(channels);
                    &&& i < ranges@.len()
                    &&& ranges@[i as int] == want && (forall|k: int|
                        0 <= k < i ==> #[trigger] ranges@[k] != want) || i == 0 && (forall|k: int|
                        0 <= k < ranges@.len() ==> #[trigger] ranges@[k] != want)
                },
                Err(m) => ranges@.len() == 0 && m@ == LocalErrorView::Audio(
                    "no suitable output format"@,
                ),
            },
        },
{
    if has_default {
        return Ok(OutputChoice::Default);
    }
    if let Some(e) = listing {
        return Err(LocalError::Audio(e));
    }
    let want: u16 = if channels < 1 {
        1
    } else if channels > 2 {
        2
    } else {
        channels as u16
    };
    let mut i: usize = 0;
    while i < ranges.len()
        invariant
            i <= ranges@.len(),
            !has_default,
            listing is None,
            want == preferred_channels(channels),
            forall|k: int| 0 <= k < i ==> #[trigger] ranges@[k] != want,
        decreases ranges@.len() - i,
    {
        if ranges[i] == want {
            return Ok(OutputChoice::Range(i));
        }
        i = i + 1;
    }
    if ranges.len() == 0 {
        return Err(LocalError::Audio("no suitable output format".to_string()));
    }
    Ok(OutputChoice::Range(0))
}

/// Where a player stands that waits for the first samples.
#[derive(Debug)]
pub enum ProbeStep {
    /// Wait 20 milliseconds and look again.
    Wait,
    /// Rate and channels are known: open the output.
    Ready { rate: u32, channels: u32 },
    /// Give up, for this reason. `halt` says whether the session has to be stopped
    /// first; one that was cancelled is stopped already.
    GiveUp { error: LocalError, halt: bool },
}

/// The contents of a [`ProbeStep`].
#[verifier::ext_equal]
pub enum ProbeView {
    Wait,
    Ready(u32, u32),
    GiveUp(LocalErrorView, bool),
}

impl View for ProbeStep {
    type V = ProbeView;

    open spec fn view(&self) -> ProbeView {
        match self {
            ProbeStep::Wait => ProbeView::Wait,
            ProbeStep::Ready { rate, channels } => ProbeView::Ready(*rate, *channels),
            ProbeStep::GiveUp { error, halt } => ProbeView::GiveUp(error@, *halt),
        }
    }
}

/// What a player does that waits for the first samples. An error of the decoder comes
/// first, then a known rate, then a stop; when the time is up a known rate still
/// counts.
pub open spec fn probe_of(
    error: Option<Seq<char>>,
    source: SourceFormat,
    stopped: bool,
    elapsed_ms: u64,
) -> ProbeView {
    let ready = ProbeView::Ready(
        source.rate,
        if source.channels > 1 {
            source.channels
        } else {
            1
        },
    );
    if elapsed_ms >= OPEN_TIMEOUT_MS {
        if source.rate > 0 {
            ready
        } else {
            ProbeView::GiveUp(LocalErrorView::Stream("failed to open audio stream"@), true)
        }
    } else {
        match error {
            Some(e) => ProbeView::GiveUp(LocalErrorView::Stream(e), true),
            None => if source.rate > 0 {
                ready
            } else if stopped {
                ProbeView::GiveUp(LocalErrorView::Stream("stopped"@), false)
            } else {
                ProbeView::Wait
            },
        }
    }
}

/// What a player does that waits for the first samples.
pub fn probe_step(error: Option<String>, source: SourceFormat, stopped: bool, elapsed_ms: u64) -> (s:
    ProbeStep)
    ensures
        s@ == probe_of(text::maybe(error), source, stopped, elapsed_ms),
        source.rate > 0 && (error is None || elapsed_ms >= 12_000) ==> (s matches ProbeStep::Ready {
            rate,
            channels,
        } && rate == source.rate && (source.channels >= 1 ==> channels == source.channels) && (
        source.channels == 0 ==> channels == 1)),
        source.rate == 0 && elapsed_ms >= 12_000 ==> (s matches ProbeStep::GiveUp { error: e, halt }
            && halt && e@ == LocalErrorView::Stream("failed to open audio stream"@)),
        elapsed_ms < 12_000 ==> (error matches Some(why) ==> (s matches ProbeStep::GiveUp {
            error: e,
            halt,
        } && halt && e@ == LocalErrorView::Stream(why@))),
        source.rate == 0 && elapsed_ms < 12_000 && error is None ==> (stopped ==> (
        s matches ProbeStep::GiveUp { error: e, halt } && !halt && e@ == LocalErrorView::Stream(
            "stopped"@,
        ))) && (!stopped ==> s is Wait),
{
    let channels: u32 = if source.channels > 1 {
        source.channels
    } else {
        1
    };
    if elapsed_ms >= OPEN_TIMEOUT_MS {
        if source.rate > 0 {
            return ProbeStep::Ready { rate: source.rate, channels };
        }
        return ProbeStep::GiveUp {
            error: LocalError::Stream("failed to open audio stream".to_string()),
            halt: true,
        };
    }
    if let Some(e) = error {
        return ProbeStep::GiveUp { error: LocalError::Stream(e), halt: true };
    }
    if source.rate > 0 {
        return ProbeStep::Ready { rate: source.rate, channels };
    }
    if stopped {
        return ProbeStep::GiveUp {
            error: LocalError::Stream("stopped".to_string()),
            halt: false,
        };
    }
    ProbeStep::Wait
}

/// How far a player has come that opens its output.
#[derive(Debug, Clone, Copy, PartialEq, Eq, Structural)]
pub enum StartStage {
    /// The output was just started.
    Started,
    /// The output has had a tenth of a second to settle.
    Settled,
}

/// Whether playback goes on, or why not; `halt` as in [`ProbeStep::GiveUp`].
pub open spec fn start_of(stage: StartStage, stopped: bool, error: Option<Seq<char>>) -> Result<
    (),
    (LocalErrorView, bool),
> {
    if stopped {
        Err((LocalErrorView::Stream("stopped"@), stage == StartStage::Settled))
    } else {
        match (stage, error) {
            (StartStage::Settled, Some(e)) => Err((LocalErrorView::Stream(e), true)),
            _ => Ok(()),
        }
    }
}

/// Whether playback goes on at a stage of its start.
pub fn start_step(stage: StartStage, stopped: bool, error: Option<String>) -> (r: Result<
    (),
    (LocalError, bool),
>)
    ensures
        match r {
            Ok(_) => start_of(stage, stopped, text::maybe(error)) == Ok::<
                (),
                (LocalErrorView, bool),
            >(()),
            Err((e, halt)) => start_of(stage, stopped, text::maybe(error)) == Err::<
                (),
                (LocalErrorView, bool),
            >((e@, halt)),
        },
        stopped ==> (r matches Err((e, halt)) && e@ == LocalErrorView::Stream("stopped"@) && (halt
            <==> stage is Settled)),
        !stopped && (stage is Started || error is None) ==> r is Ok,
        !stopped && stage is Settled ==> (error matches Some(why) ==> (r matches Err((e, halt))
            && halt && e@ == LocalErrorView::Stream(why@))),
{
    if stopped {
        return Err((LocalError::Stream("stopped".to_string()), stage == StartStage::Settled));
    }
    match (stage, error) {
        (StartStage::Settled, Some(e)) => Err((LocalError::Stream(e), true)),
        _ => Ok(()),
    }
}

/// What is shown while playback begins on a device, and once it plays.
pub fn play_status(name: &str, playing: bool) -> (s: String)
    ensures
        s@ == if playing {
            "Playing locally: «"@ + name@ + "»"@
        } else {
            "Local: «"@ + name@ + "»..."@
        },
{
    if playing {
        let s = text::joined_two("Playing locally: «", name);
        text::joined_two(s.as_str(), "»")
    } else {
        let s = text::joined_two("Local: «", name);
        text::joined_two(s.as_str(), "»...")
    }
}

/// A player never waits beyond the time for opening a stream.
pub proof fn waiting_ends(
    error: Option<Seq<char>>,
    source: SourceFormat,
    stopped: bool,
    elapsed_ms: u64,
)
    ensures
        probe_of(error, source, stopped, elapsed_ms) == ProbeView::Wait ==> elapsed_ms
            < OPEN_TIMEOUT_MS,
        probe_of(error, source, stopped, elapsed_ms) matches ProbeView::Ready(rate, channels)
            ==> rate > 0 && channels > 0,
{
}

/// Samples between the decoder and the sound card.
#[derive(Debug)]
pub struct SampleRing<T> {
    buf: Vec<T>,
    head: usize,
    len: usize,
}

impl<T: Copy> SampleRing<T> {
    /// The samples, oldest first.
    pub closed spec fn samples(&self) -> Seq<T> {
        Seq::new(
            self.len as nat,
            |i: int|
                self.buf@[crate::audio::pcm::slot(self.head as int, i, self.buf@.len() as int)],
        )
    }

    /// How many samples the ring can hold.
    pub closed spec fn room(&self) -> nat {
        self.buf@.len()
    }

    /// The samples lie within the ring.
    pub closed spec fn wf(&self) -> bool {
        &&& 0 < self.buf@.len() <= usize::MAX / 2
        &&& self.head < self.buf@.len()
        &&& self.len <= self.buf@.len()
    }

    /// A ring with nothing in it that holds so many samples, one at least. `silence`
    /// fills it at first.
    pub fn with_capacity(capacity: usize, silence: T) -> (r: SampleRing<T>)
        requires
            capacity <= usize::MAX / 2,
        ensures
            r.wf(),
            r.samples().len() == 0,
            r.room() == if capacity > 1 {
                capacity as int
            } else {
                1
            },
    {
        let cap: usize = if capacity > 1 {
            capacity
        } else {
            1
        };
        let mut buf: Vec<T> = Vec::new();
        while buf.len() < cap
            invariant
                buf@.len() <= cap,
            decreases cap - buf@.len(),
        {
            buf.push(silence);
        }
        let r = SampleRing { buf, head: 0, len: 0 };
        proof {
            assert(r.samples() =~= Seq::empty());
        }
        r
    }

    /// How many samples there are.
    pub fn len(&self) -> (n: usize)
        ensures
            n == self.samples().len(),
    {
        self.len
    }

    /// How many samples the ring can hold.
    pub fn capacity(&self) -> (n: usize)
        ensures
            n == self.room(),
    {
        self.buf.len()
    }

    /// One of the samples.
    pub fn sample_at(&self, offset: usize) -> (s: T)
        requires
            self.wf(),
            offset < self.samples().len(),
        ensures
            s == self.samples()[offset as int],
    {
        self.buf[(self.head + offset) % self.buf.len()]
    }

    /// Takes in samples that there is room for.
    pub fn push_slice(&mut self, samples: &[T])
        requires
            old(self).wf(),
            old(self).samples().len() + samples@.len() <= old(self).room(),
        ensures
            final(self).wf(),
            final(self).room() == old(self).room(),
            final(self).samples() == old(self).samples() + samples@,
    {
        let n: usize = samples.len();
        let cap: usize = self.buf.len();
        let ghost before = self.samples();
        let mut i: usize = 0;
        proof {
            assert(self.samples() =~= before + samples@.take(0));
        }
        while i < n
            invariant
                i <= n,
                n == samples@.len(),
                cap == self.buf@.len(),
                0 < cap <= usize::MAX / 2,
                self.head < cap,
                self.len == before.len() + i,
                before.len() + n <= cap,
                self.samples() == before + samples@.take(i as int),
                cap == old(self).buf@.len(),
                before == old(self).samples(),
            decreases n - i,
        {
            let at: usize = (self.head + self.len) % cap;
            let ghost held = self.samples();
            let ghost (h, c) = (self.head as int, self.len as int);
            let sample = samples[i];
            self.buf.set(at, sample);
            self.len = self.len + 1;
            i = i + 1;
            proof {
                assert forall|k: int| 0 <= k < c implies #[trigger] crate::audio::pcm::slot(
                    h,
                    k,
                    cap as int,
                ) != at by {
                    crate::audio::pcm::lemma_distinct(h, k, c, cap as int);
                }
                assert(crate::audio::pcm::slot(h, c, cap as int) == at);
                assert(self.samples() =~= held.push(sample));
                assert(samples@.take(i as int) =~= samples@.take(i - 1).push(sample));
                assert(self.samples() =~= before + samples@.take(i as int));
            }
        }
        proof {
            assert(samples@.take(n as int) =~= samples@);
        }
    }

    /// Drops the oldest samples, so many at most.
    pub fn discard(&mut self, count: usize)
        requires
            old(self).wf(),
        ensures
            final(self).wf(),
            final(self).room() == old(self).room(),
            final(self).samples() == old(self).samples().skip(
                if count < old(self).samples().len() {
                    count as int
                } else {
                    old(self).samples().len() as int
                },
            ),
    {
        let drop: usize = if count < self.len {
            count
        } else {
            self.len
        };
        let cap: usize = self.buf.len();
        let ghost before = self.samples();
        let ghost h = self.head as int;
        self.head = (self.head + drop) % cap;
        self.len = self.len - drop;
        proof {
            assert forall|i: int| 0 <= i < self.len implies self.samples()[i] == before[drop
                + i] by {
                let head = self.head as int;
                assert((head + i) % cap as int == (h + (drop + i)) % cap as int) by {
                    vstd::arithmetic::div_mod::lemma_add_mod_noop_right(i, h + drop, cap as int);
                    assert(i + (h + drop) == h + (drop + i));
                    assert(i + head == head + i);
                }
            }
            assert(self.samples() =~= before.skip(drop as int));
        }
    }
}

proof fn lemma_entry_stands(
    names: Seq<Option<Seq<char>>>,
    default_name: Option<Seq<char>>,
    i: int,
)
    requires
        0 <= i < names.len(),
        names[i] is Some,
    ensures
        entries_for(names, default_name).contains(entry_for(names[i]->0, default_name)),
    decreases names.len(),
{
    let front = names.drop_last();
    let before = entries_for(front, default_name);
    let r = entries_for(names, default_name);
    if i < front.len() {
        lemma_entry_stands(front, default_name, i);
        let k = before.index_of(entry_for(names[i]->0, default_name));
        assert(r[k] == before[k]);
    } else {
        assert(r[r.len() - 1] == entry_for(names[i]->0, default_name));
    }
}

proof fn lemma_entry_from(names: Seq<Option<Seq<char>>>, default_name: Option<Seq<char>>, k: int)
    requires
        0 <= k < entries_for(names, default_name).len(),
    ensures
        exists|i: int|
            0 <= i < names.len() && (#[trigger] names[i]) is Some && entries_for(
                names,
                default_name,
            )[k] == entry_for(names[i]->0, default_name),
    decreases names.len(),
{
    let front = names.drop_last();
    let before = entries_for(front, default_name);
    if k < before.len() {
        lemma_entry_from(front, default_name, k);
        let i = choose|i: int|
            0 <= i < front.len() && (#[trigger] front[i]) is Some && before[k] == entry_for(
                front[i]->0,
                default_name,
            );
        assert(names[i] == front[i]);
    } else {
        assert(names[names.len() - 1] is Some);
    }
}

/// Every output with a name is listed, under its name, the default one with a star, and
/// can be found again by its name.
pub proof fn outputs_with_a_name_are_listed(
    names: Seq<Option<Seq<char>>>,
    default_name: Option<Seq<char>>,
    speakers: Seq<char>,
    i: int,
    name: Seq<char>,
)
    requires
        0 <= i < names.len(),
        names[i] == Some(name),
    ensures
        local_list(Some(names), default_name, speakers).contains(
            LocalView {
                id: "local:"@ + name,
                name: if default_name == Some(name) {
                    name + " ★"@
                } else {
                    name
                },
                cpal_name: Some(name),
            },
        ),
{
    let entries = entries_for(names, default_name);
    let x = entry_for(name, default_name);
    lemma_entry_stands(names, default_name, i);
    order::sorting_keeps::<LocalDeviceInfo>(entries);
    let list = local_list(Some(names), default_name, speakers);
    assert(list.contains(x));
    let k = list.index_of(x);
    assert(list[k] == x);
}

/// Nothing else is listed, but for the default output where there is nothing else.
pub proof fn only_outputs_with_a_name_are_listed(
    names: Option<Seq<Option<Seq<char>>>>,
    default_name: Option<Seq<char>>,
    speakers: Seq<char>,
    k: int,
)
    requires
        0 <= k < local_list(names, default_name, speakers).len(),
    ensures
        ({
            let list = local_list(names, default_name, speakers);
            ||| list.len() == 1 && list[0].id == "local:default"@ && list[0].name == speakers
                && list[0].cpal_name is None
            ||| names matches Some(all) && list[k].cpal_name matches Some(n) && all.contains(
                Some(n),
            ) && list[k].id == "local:"@ + n
        }),
        names is None ==> local_list(names, default_name, speakers)[k].cpal_name is None,
{
    if let Some(all) = names {
        let entries = entries_for(all, default_name);
        let list = local_list(names, default_name, speakers);
        if entries.len() > 0 {
            order::sorting_keeps::<LocalDeviceInfo>(entries);
            assert(list.contains(list[k]));
            assert(entries.contains(list[k]));
            let m = entries.index_of(list[k]);
            lemma_entry_from(all, default_name, m);
            let i = choose|i: int|
                0 <= i < all.len() && (#[trigger] all[i]) is Some && entries[m] == entry_for(
                    all[i]->0,
                    default_name,
                );
            assert(all.contains(all[i]));
            assert(all[i] == Some(all[i]->0));
        }
    }
}

/// Outputs with a star in their names come first, and each of the two by name, whatever
/// the case of its letters.
pub proof fn starred_outputs_come_first(
    names: Seq<Option<Seq<char>>>,
    default_name: Option<Seq<char>>,
    speakers: Seq<char>,
    i: int,
    j: int,
)
    requires
        0 <= i < j < local_list(Some(names), default_name, speakers).len(),
    ensures
        ({
            let list = local_list(Some(names), default_name, speakers);
            &&& text::has_text(list[j].name, "★"@) ==> text::has_text(list[i].name, "★"@)
            &&& text::has_text(list[i].name, "★"@) == text::has_text(list[j].name, "★"@)
                ==> !text::precedes(
                text::unicode_lower(list[j].name),
                text::unicode_lower(list[i].name),
            )
        }),
{
    let entries = entries_for(names, default_name);
    outputs_have_an_order();
    order::sorting_orders::<LocalDeviceInfo>(entries);
    let list = local_list(Some(names), default_name, speakers);
    assert(!LocalDeviceInfo::ranks_before(list[j], list[i]));
}

/// An output is asked for as many channels as the stream has, one or two.
pub proof fn one_or_two_channels_are_asked_for(channels: usize)
    ensures
        channels <= 1 ==> preferred_channels(channels) == 1,
        channels >= 2 ==> preferred_channels(channels) == 2,
{
}

} // verus!
