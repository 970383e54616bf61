//! What the user is told, apart from the language it is told in.

use crate::output::{OutputDevice, OutputView};
use crate::text;
use vstd::prelude::*;

verus! {

/// A language of the player.
#[derive(Debug, Clone, Copy, PartialEq, Eq, Structural)]
pub enum Lang {
    Ru,
    En,
}

/// What the user is told.
#[derive(Debug)]
pub enum Phrase {
    /// These words, whatever the language.
    Plain(String),
    Loading,
    /// What to do to hear something.
    TrackHint,
    /// That titles will come.
    TrackMetaHint,
    Stopped,
    Connecting,
    PickStation,
    PickDevice,
    LoadingStations,
    SearchingDevices,
    /// Outputs are searched for, and so many were found so far.
    DevicesSoFar(usize),
    StationsCount(usize),
    /// No receiver, and so many local outputs.
    NoCast(usize),
    /// So many local outputs and receivers, and the one that is selected.
    Found(usize, usize, Option<OutputDevice>),
    TokenRequired,
    /// The stream begins anew through the relay, or without it.
    RelayRestart(bool),
}

/// The contents of a [`Phrase`].
#[verifier::ext_equal]
pub enum PhraseView {
    Plain(Seq<char>),
    Loading,
    TrackHint,
    TrackMetaHint,
    Stopped,
    Connecting,
    PickStation,
    PickDevice,
    LoadingStations,
    SearchingDevices,
    DevicesSoFar(nat),
    StationsCount(nat),
    NoCast(nat),
    Found(nat, nat, Option<OutputView>),
    TokenRequired,
    RelayRestart(bool),
}

impl View for Phrase {
    type V = PhraseView;

    open spec fn view(&self) -> PhraseView {
        match self {
            Phrase::Plain(s) => PhraseView::Plain(s@),
            Phrase::Loading => PhraseView::Loading,
            Phrase::TrackHint => PhraseView::TrackHint,
            Phrase::TrackMetaHint => PhraseView::TrackMetaHint,
            Phrase::Stopped => PhraseView::Stopped,
            Phrase::Connecting => PhraseView::Connecting,
            Phrase::PickStation => PhraseView::PickStation,
            Phrase::PickDevice => PhraseView::PickDevice,
            Phrase::LoadingStations => PhraseView::LoadingStations,
            Phrase::SearchingDevices => PhraseView::SearchingDevices,
            Phrase::DevicesSoFar(n) => PhraseView::DevicesSoFar(*n as nat),
            Phrase::StationsCount(n) => PhraseView::StationsCount(*n as nat),
            Phrase::NoCast(n) => PhraseView::NoCast(*n as nat),
            Phrase::Found(local, cast, selected) => PhraseView::Found(
                *local as nat,
                *cast as nat,
                match selected {
                    Some(d) => Some(d@),
                    None => None,
                },
            ),
            Phrase::TokenRequired => PhraseView::TokenRequired,
            Phrase::RelayRestart(on) => PhraseView::RelayRestart(*on),
        }
    }
}

/// What the user was told, and in which language.
#[derive(Debug)]
pub struct Said {
    pub lang: Lang,
    pub phrase: Phrase,
}

/// The contents of a [`Said`].
#[verifier::ext_equal]
pub struct SaidView {
    pub lang: Lang,
    pub phrase: PhraseView,
}

impl View for Said {
    type V = SaidView;

    open spec fn view(&self) -> SaidView {
        SaidView { lang: self.lang, phrase: self.phrase@ }
    }
}

/// `s` in at most `max` characters: where it has more, its end is left out, and an
/// ellipsis stands there.
pub open spec fn shortened(s: Seq<char>, max: nat) -> Seq<char> {
    if s.len() <= max {
        s
    } else if max == 0 {
        seq!['…']
    } else {
        s.take(max - 1).push('…')
    }
}

/// `s` in at most so many characters, with an ellipsis where something is left out.
pub fn truncate(s: &str, max_chars: usize) -> (r: String)
    ensures
        r@ == shortened(s@, max_chars as nat),
        s@.len() <= max_chars ==> r@ == s@,
        s@.len() > max_chars && max_chars > 0 ==> r@ == s@.take(max_chars - 1) + seq!['…'],
        s@.len() > max_chars && max_chars == 0 ==> r@ == seq!['…'],
{
    let all: Vec<char> = text::chars_of(s);
    let count: usize = all.len();
    if count <= max_chars {
        return s.to_string();
    }
    let kept: usize = if max_chars == 0 {
        0
    } else {
        max_chars - 1
    };
    let mut out: String = text::text_of(all.as_slice(), 0, kept);
    out.push('…');
    proof {
        assert(out@ =~= shortened(s@, max_chars as nat));
    }
    out
}

/// What is left of a text fits its place, and is its beginning but for the ellipsis.
/// What fits is left alone.
pub proof fn shortened_text_fits(s: Seq<char>, max: nat)
    requires
        max > 0,
    ensures
        shortened(s, max).len() <= max,
        s.len() <= max ==> shortened(s, max) == s,
        s.len() > max ==> shortened(s, max).take(max - 1) == s.take(max - 1),
        s.len() > max ==> shortened(s, max).last() == '…',
        shortened(shortened(s, max), max) == shortened(s, max),
{
    if s.len() > max {
        assert(shortened(s, max).take(max - 1) =~= s.take(max - 1));
    }
}

} // verus!
