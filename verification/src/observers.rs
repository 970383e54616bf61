//! When the watchers of titles and of the spectrum are started and stopped.

use crate::text;
use vstd::prelude::*;

verus! {

/// How long after the start of a relayed stream its watchers begin; in milliseconds.
pub const RELAY_DELAY_MS: u64 = 2_500;

/// How long after the start of any other stream its watchers begin; in milliseconds.
pub const DIRECT_DELAY_MS: u64 = 1_200;

/// What the watchers are to do.
#[derive(Debug)]
pub enum ObserverAction {
    /// Both stop.
    Stop,
    /// The spectrum of a stream is taken, and its titles read where `titles`.
    Spectrum { url: String, titles: bool },
    /// Only the titles of a stream are read.
    Titles { url: String },
}

/// The contents of an [`ObserverAction`].
#[verifier::ext_equal]
pub enum ActionView {
    Stop,
    Spectrum(Seq<char>, bool),
    Titles(Seq<char>),
}

impl View for ObserverAction {
    type V = ActionView;

    open spec fn view(&self) -> ActionView {
        match self {
            ObserverAction::Stop => ActionView::Stop,
            ObserverAction::Spectrum { url, titles } => ActionView::Spectrum(url@, *titles),
            ObserverAction::Titles { url } => ActionView::Titles(url@),
        }
    }
}

/// What actions hold.
pub open spec fn actions_of(v: Seq<ObserverAction>) -> Seq<ActionView> {
    v.map_values(|a: ObserverAction| a@)
}

/// Whether titles are to be read from a stream: not from the tap of a relay, which
/// has none, nor from the relay itself, which reads them upstream.
pub open spec fn reads_titles(url: Seq<char>, relay_url: Option<Seq<char>>) -> bool {
    !text::finishes_with(url, "/tap"@) && relay_url != Some(url)
}

/// What the watchers do for a stream that begins.
pub open spec fn start_actions(
    url: Seq<char>,
    eq_enabled: bool,
    relay_url: Option<Seq<char>>,
) -> Seq<ActionView> {
    if eq_enabled {
        seq![ActionView::Stop, ActionView::Spectrum(url, reads_titles(url, relay_url))]
    } else if reads_titles(url, relay_url) {
        seq![ActionView::Stop, ActionView::Titles(url)]
    } else {
        seq![ActionView::Stop]
    }
}

/// What a borrowed optional text holds.
pub open spec fn maybe_str(o: Option<&str>) -> Option<Seq<char>> {
    match o {
        Some(s) => Some(s@),
        None => None,
    }
}

/// The watchers of a stream, and the start that they wait for: when, for which
/// attempt to play, and of which stream.
#[derive(Debug)]
pub struct StreamObservers {
    pub due: Option<(u128, u64, String)>,
}

/// What a planned start holds.
pub open spec fn planned(due: Option<(u128, u64, String)>) -> Option<(u128, u64, Seq<char>)> {
    match due {
        Some((at, generation, url)) => Some((at, generation, url@)),
        None => None,
    }
}

impl StreamObservers {
    /// Watchers that do nothing.
    pub fn new() -> (o: StreamObservers)
        ensures
            o.due is None,
    {
        StreamObservers { due: None }
    }

    /// Stops watching, and forgets a planned start.
    pub fn stop(&mut self) -> (actions: Vec<ObserverAction>)
        ensures
            final(self).due is None,
            actions_of(actions@) == seq![ActionView::Stop],
    {
        self.due = None;
        let mut actions: Vec<ObserverAction> = Vec::new();
        actions.push(ObserverAction::Stop);
        proof {
            assert(actions_of(actions@) =~= seq![ActionView::Stop]);
        }
        actions
    }

    /// Stops watching, and plans the start for a stream; `now` is in milliseconds.
    pub fn schedule(&mut self, generation: u64, url: String, relay: bool, now: u64) -> (actions:
        Vec<ObserverAction>)
        ensures
            actions_of(actions@) == seq![ActionView::Stop],
            planned(final(self).due) == Some(
                (
                    (now + if relay {
                        RELAY_DELAY_MS
                    } else {
                        DIRECT_DELAY_MS
                    }) as u128,
                    generation,
                    url@,
                ),
            ),
            final(self).due matches Some((at, g, u)) && g == generation && u@ == url@ && (relay
                ==> at == now + 2_500) && (!relay ==> at == now + 1_200),
    {
        let actions = self.stop();
        let delay: u64 = if relay {
            RELAY_DELAY_MS
        } else {
            DIRECT_DELAY_MS
        };
        self.due = Some((now as u128 + delay as u128, generation, url));
        actions
    }

    /// Begins a planned start whose time has come, unless its attempt to play was
    /// given up meanwhile.
    pub fn poll(
        &mut self,
        current_generation: u64,
        playing: bool,
        eq_enabled: bool,
        relay_url: Option<&str>,
        now: u64,
    ) -> (actions: Vec<ObserverAction>)
        ensures
            match planned(old(self).due) {
                Some((at, generation, url)) => if now >= at {
                    &&& final(self).due is None
                    &&& actions_of(actions@) == if playing && generation == current_generation {
                        start_actions(url, eq_enabled, maybe_str(relay_url))
                    } else {
                        Seq::empty()
                    }
                } else {
                    &&& planned(final(self).due) == planned(old(self).due)
                    &&& actions@.len() == 0
                },
                None => final(self).due is None && actions@.len() == 0,
            },
    {
        let none: Vec<ObserverAction> = Vec::new();
        proof {
            assert(actions_of(none@) =~= Seq::empty());
        }
        match self.due.take() {
            Some((at, generation, url)) => {
                if (now as u128) < at {
                    self.due = Some((at, generation, url));
                    return none;
                }
                if playing && generation == current_generation {
                    self.start(url, eq_enabled, relay_url)
                } else {
                    none
                }
            },
            None => none,
        }
    }

    /// Watches a stream from now on.
    pub fn start(&mut self, url: String, eq_enabled: bool, relay_url: Option<&str>) -> (actions:
        Vec<ObserverAction>)
        ensures
            final(self).due is None,
            actions_of(actions@) == start_actions(url@, eq_enabled, maybe_str(relay_url)),
    {
        let mut actions = self.stop();
        let ghost first = actions@;
        let same = match relay_url {
            Some(r) => text::same(r, url.as_str()),
            None => false,
        };
        let titles = !text::ends_with(url.as_str(), "/tap") && !same;
        let ghost address = url@;
        if eq_enabled {
            actions.push(ObserverAction::Spectrum { url, titles });
        } else if titles {
            actions.push(ObserverAction::Titles { url });
        }
        proof {
            assert(actions_of(first)[0] == ActionView::Stop);
            assert(first.len() == actions_of(first).len());
            assert(actions_of(actions@) =~= start_actions(
                address,
                eq_enabled,
                maybe_str(relay_url),
            ));
        }
        actions
    }

    /// Watches what is playing now: nothing where nothing plays, where it plays on this
    /// computer, or where the stream has no tap.
    pub fn sync(
        &mut self,
        playing: bool,
        local: bool,
        eq_enabled: bool,
        tap_url: Option<String>,
        relay_url: Option<&str>,
    ) -> (actions: Vec<ObserverAction>)
        ensures
            final(self).due is None,
            actions_of(actions@) == match tap_url {
                Some(url) => if playing && !local {
                    start_actions(url@, eq_enabled, maybe_str(relay_url))
                } else {
                    seq![ActionView::Stop]
                },
                None => seq![ActionView::Stop],
            },
    {
        if !playing || local {
            return self.stop();
        }
        match tap_url {
            Some(url) => self.start(url, eq_enabled, relay_url),
            None => self.stop(),
        }
    }
}

/// Watchers always stop before they begin anew.
pub proof fn watchers_stop_before_they_begin(
    url: Seq<char>,
    eq_enabled: bool,
    relay_url: Option<Seq<char>>,
)
    ensures
        start_actions(url, eq_enabled, relay_url).len() > 0,
        start_actions(url, eq_enabled, relay_url)[0] == ActionView::Stop,
{
}

/// A stream that a relay serves is never read for titles a second time.
pub proof fn relayed_titles_are_read_once(url: Seq<char>, eq_enabled: bool)
    ensures
        ({
            let actions = start_actions(url, eq_enabled, Some(url));
            forall|i: int|
                0 <= i < actions.len() ==> match #[trigger] actions[i] {
                    ActionView::Spectrum(_, titles) => !titles,
                    ActionView::Titles(_) => false,
                    ActionView::Stop => true,
                }
        }),
{
}

/// What a stream is watched for: its spectrum where the equalizer is on, and its titles
/// unless it is a tap or the relay reads them already.
pub proof fn what_a_stream_is_watched_for(
    url: Seq<char>,
    eq_enabled: bool,
    relay_url: Option<Seq<char>>,
)
    ensures
        ({
            let actions = start_actions(url, eq_enabled, relay_url);
            let titles = !text::finishes_with(url, "/tap"@) && relay_url != Some(url);
            &&& eq_enabled ==> actions.len() == 2 && actions[1] == ActionView::Spectrum(url, titles)
            &&& !eq_enabled && titles ==> actions.len() == 2 && actions[1] == ActionView::Titles(
                url,
            )
            &&& !eq_enabled && !titles ==> actions.len() == 1
            &&& actions[0] is Stop
        }),
{
}

} // verus!
