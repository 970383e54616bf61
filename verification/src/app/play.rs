//! Playing, stopping, and what goes with it.

use super::state;
use super::state::{
    ActionView, AppAction, AppView, ChoicesView, Flags, NowPlaying, NowView, RockCastApp, ShownView,
    VoiceView,
};
use super::words::{Phrase, PhraseView};
use crate::observers;
use crate::order;
use crate::output::OutputView;
use crate::stations::StationView;
use crate::text;
use vstd::prelude::*;

verus! {

/// One list of actions after another.
pub(crate) fn all_of(first: Vec<AppAction>, second: Vec<AppAction>) -> (out: Vec<AppAction>)
    ensures
        order::views(out@) == order::views(first@) + order::views(second@),
{
    let mut out = first;
    let mut rest = second;
    out.append(&mut rest);
    proof {
        assert(order::views(out@) =~= order::views(first@) + order::views(second@));
    }
    out
}

/// One action.
pub(crate) fn one(a: AppAction) -> (out: Vec<AppAction>)
    ensures
        order::views(out@) == seq![a@],
{
    let mut out: Vec<AppAction> = Vec::new();
    out.push(a);
    proof {
        assert(order::views(out@) =~= seq![a@]);
    }
    out
}

/// No action.
pub(crate) fn nothing() -> (out: Vec<AppAction>)
    ensures
        order::views(out@) == Seq::<ActionView>::empty(),
{
    let out: Vec<AppAction> = Vec::new();
    proof {
        assert(order::views(out@) =~= Seq::<ActionView>::empty());
    }
    out
}

/// The watchers stop.
pub open spec fn watchers_stop() -> ActionView {
    ActionView::Observe(observers::ActionView::Stop)
}

/// A station is being played on an output.
pub open spec fn begun(a: AppView, s: StationView, d: OutputView) -> AppView {
    state::marked(
        AppView {
            observers: None,
            playing: NowView { op: true, on: false, local: d is Local, url: None },
            shown: ShownView {
                status: a.choices.plain("Play: "@ + s.name + " -> "@ + d.name()),
                station: s.name,
                track: a.choices.say(PhraseView::Connecting),
            },
            ..a
        },
    )
}

/// The player, once it was told to play.
pub open spec fn played(a: AppView, now: u64) -> AppView {
    if !a.can_start() {
        a
    } else {
        match (a.lists.station(), a.lists.device()) {
            (None, _) => a.with_status(a.choices.say(PhraseView::PickStation)),
            (Some(_), None) => a.with_status(a.choices.say(PhraseView::PickDevice)),
            (Some(s), Some(d)) => state::persisted(begun(a, s, d), true, now),
        }
    }
}

/// What playing takes.
pub open spec fn play_actions(a: AppView) -> Seq<ActionView> {
    match (a.can_start(), a.lists.station(), a.lists.device()) {
        (true, Some(s), Some(d)) => seq![
            watchers_stop(),
            ActionView::Save(begun(a, s, d).saving.settings),
            ActionView::Play(
                s,
                d,
                a.choices.volume,
                a.choices.cast_relay && !(d is Local),
                a.choices.eq_enabled,
            ),
        ],
        _ => Seq::empty(),
    }
}

/// Nothing plays.
pub open spec fn silent(op: bool) -> NowView {
    NowView { op, on: false, local: false, url: None }
}

/// The player, once it was told to stop.
pub open spec fn stopped(a: AppView) -> AppView {
    if a.flags.shutting_down {
        a
    } else {
        AppView {
            observers: None,
            playing: silent(true),
            voice: VoiceView { fallback: Seq::empty(), pending_play: false, ..a.voice },
            shown: ShownView {
                status: a.choices.plain("Stop…"@),
                track: a.choices.say(PhraseView::Stopped),
                ..a.shown
            },
            ..a
        }
    }
}

/// What stopping takes.
pub open spec fn stop_actions(a: AppView) -> Seq<ActionView> {
    if a.flags.shutting_down {
        Seq::empty()
    } else {
        seq![watchers_stop(), ActionView::Stop]
    }
}

/// The player at its end, before its settings are saved.
pub open spec fn ending(a: AppView) -> AppView {
    state::marked(
        AppView {
            observers: None,
            playing: silent(a.playing.op),
            flags: Flags { shutting_down: true, ..a.flags },
            ..a
        },
    )
}

/// The player at its end.
pub open spec fn shut_down(a: AppView, now: u64) -> AppView {
    if a.flags.shutting_down {
        a
    } else {
        state::persisted(ending(a), true, now)
    }
}

/// What ending takes.
pub open spec fn shutdown_actions(a: AppView) -> Seq<ActionView> {
    if a.flags.shutting_down {
        Seq::empty()
    } else {
        seq![
            watchers_stop(),
            ActionView::Save(ending(a).saving.settings),
            ActionView::Shutdown,
        ]
    }
}

/// What the watchers of a stream do when something about it changes. A relay has
/// watchers of its own.
pub open spec fn sync_actions(
    a: AppView,
    relay_active: bool,
    relay_url: Option<Seq<char>>,
) -> Seq<observers::ActionView> {
    if relay_active || !a.playing.on || a.playing.local {
        seq![observers::ActionView::Stop]
    } else {
        match a.playing.url {
            Some(url) => observers::start_actions(url, a.choices.eq_enabled, relay_url),
            None => seq![observers::ActionView::Stop],
        }
    }
}

/// The player with the spectrum shown or hidden.
pub open spec fn with_eq(a: AppView, enabled: bool) -> AppView {
    AppView { choices: ChoicesView { eq_enabled: enabled, ..a.choices }, ..a }
}

/// The player with the relay in use or not.
pub open spec fn with_relay(a: AppView, enabled: bool) -> AppView {
    AppView { choices: ChoicesView { cast_relay: enabled, ..a.choices }, ..a }
}

/// The player, once it was told to use the relay or not.
pub open spec fn relay_set(a: AppView, enabled: bool, now: u64) -> AppView {
    let kept = state::persisted(state::marked(with_relay(a, enabled)), true, now);
    if a.choices.cast_relay == enabled {
        a
    } else if casts(a) {
        played(kept.with_status(kept.choices.say(PhraseView::RelayRestart(enabled))), now)
    } else {
        kept
    }
}

/// Something plays on a receiver, or is about to.
pub open spec fn casts(a: AppView) -> bool {
    (a.playing.on || a.playing.op) && !a.playing.local
}

/// What it takes to use the relay or not.
pub open spec fn relay_actions(a: AppView, enabled: bool, now: u64) -> Seq<ActionView> {
    let changed = state::marked(with_relay(a, enabled));
    let kept = state::persisted(changed, true, now);
    if a.choices.cast_relay == enabled {
        Seq::empty()
    } else if casts(a) {
        seq![ActionView::Save(changed.saving.settings)] + play_actions(
            kept.with_status(kept.choices.say(PhraseView::RelayRestart(enabled))),
        )
    } else {
        seq![ActionView::Save(changed.saving.settings)]
    }
}

impl RockCastApp {
    /// Stops the watchers of the stream.
    pub(crate) fn stop_watching(&mut self) -> (out: Vec<AppAction>)
        ensures
            final(self)@ == (AppView { observers: None, ..old(self)@ }),
            order::views(out@) == seq![watchers_stop()],
    {
        let out = state::observe(self.observers.stop());
        proof {
            assert(state::observing(seq![observers::ActionView::Stop]) =~= seq![watchers_stop()]);
        }
        out
    }

    /// Sets the volume of the output that is selected: that of this computer where it
    /// is one of its own, or where something plays there.
    pub fn queue_volume(&self) -> (out: AppAction)
        ensures
            out@ == ActionView::Volume(
                (self@.lists.device() matches Some(d) && d is Local) || self@.playing.local,
                self@.choices.volume,
            ),
    {
        let selected = match self.lists.device() {
            Some(d) => d.is_local(),
            None => false,
        };
        AppAction::Volume { local: selected || self.playing.local, volume: self.choices.volume }
    }

    /// Takes another volume.
    pub fn set_volume(&mut self, volume: u8) -> (out: AppAction)
        ensures
            final(self)@ == state::marked(
                AppView { choices: ChoicesView { volume, ..old(self)@.choices }, ..old(self)@ },
            ),
            out@ == ActionView::Volume(
                (old(self)@.lists.device() matches Some(d) && d is Local)
                    || old(self)@.playing.local,
                volume,
            ),
    {
        self.choices.volume = volume;
        let out = self.queue_volume();
        self.mark_settings_dirty();
        out
    }

    /// Plays the selected station on the selected output. Says what is missing where
    /// one is not selected; does nothing while outputs are searched for.
    pub fn play(&mut self, now: u64) -> (out: Vec<AppAction>)
        ensures
            final(self)@ == played(old(self)@, now),
            order::views(out@) == play_actions(old(self)@),
    {
        if !self.can_start_play() {
            return nothing();
        }
        let station = match self.lists.station() {
            Some(s) => s,
            None => {
                self.shown.status = self.choices.say(Phrase::PickStation);
                return nothing();
            },
        };
        let device = match self.lists.device() {
            Some(d) => d,
            None => {
                self.shown.status = self.choices.say(Phrase::PickDevice);
                return nothing();
            },
        };
        let local = device.is_local();
        let stop = self.stop_watching();
        self.playing = NowPlaying { op: true, on: false, local, url: None };
        let words = text::joined_two("Play: ", station.name.as_str());
        let words = text::joined_two(words.as_str(), " -> ");
        let words = text::joined_two(words.as_str(), device.name());
        self.shown.status = self.choices.plain(words.as_str());
        self.shown.station = station.name.clone();
        self.shown.track = self.choices.say(Phrase::Connecting);
        self.mark_settings_dirty();
        let save = self.persist_settings_if_needed(true, now);
        let play = AppAction::Play {
            station,
            device,
            volume: self.choices.volume,
            relay: self.choices.cast_relay && !local,
            eq: self.choices.eq_enabled,
        };
        let out = all_of(all_of(stop, save), one(play));
        proof {
            assert(order::views(out@) =~= play_actions(old(self)@));
        }
        out
    }

    /// Stops playing, and gives up what was asked for by voice.
    pub fn stop(&mut self) -> (out: Vec<AppAction>)
        ensures
            final(self)@ == stopped(old(self)@),
            order::views(out@) == stop_actions(old(self)@),
    {
        if self.flags.shutting_down {
            return nothing();
        }
        self.shown.status = self.choices.plain("Stop…");
        self.voice.pending_play = false;
        self.voice.fallback = Vec::new();
        let stop = self.stop_watching();
        self.playing = NowPlaying { op: true, on: false, local: false, url: None };
        self.shown.track = self.choices.say(Phrase::Stopped);
        proof {
            assert(self@.voice.fallback =~= Seq::empty());
        }
        let out = all_of(stop, one(AppAction::Stop));
        proof {
            assert(order::views(out@) =~= stop_actions(old(self)@));
        }
        out
    }

    /// Ends: stops playing, and saves the settings. A second time it does nothing.
    pub fn shutdown_playback(&mut self, now: u64) -> (out: Vec<AppAction>)
        ensures
            final(self)@ == shut_down(old(self)@, now),
            order::views(out@) == shutdown_actions(old(self)@),
    {
        if self.flags.shutting_down {
            return nothing();
        }
        self.flags.shutting_down = true;
        let stop = self.stop_watching();
        self.playing.on = false;
        self.playing.local = false;
        self.playing.url = None;
        self.mark_settings_dirty();
        let save = self.persist_settings_if_needed(true, now);
        let out = all_of(all_of(stop, save), one(AppAction::Shutdown));
        proof {
            assert(order::views(out@) =~= shutdown_actions(old(self)@));
        }
        out
    }

    /// Has the watchers begin with a stream, after a while that is longer where it
    /// comes through the relay.
    pub fn schedule_stream_tap(
        &mut self,
        generation: u64,
        tap_url: String,
        relay_active: bool,
        now: u64,
    ) -> (out: Vec<AppAction>)
        ensures
            final(self)@ == (AppView {
                observers: Some(
                    (
                        (now + if relay_active {
                            observers::RELAY_DELAY_MS
                        } else {
                            observers::DIRECT_DELAY_MS
                        }) as u128,
                        generation,
                        tap_url@,
                    ),
                ),
                ..old(self)@
            }),
            order::views(out@) == seq![watchers_stop()],
    {
        let out = state::observe(self.observers.schedule(generation, tap_url, relay_active, now));
        proof {
            assert(state::observing(seq![observers::ActionView::Stop]) =~= seq![watchers_stop()]);
        }
        out
    }

    /// Has the watchers watch what plays now.
    pub fn sync_spectrum(&mut self, relay_active: bool, relay_url: Option<&str>) -> (out: Vec<
        AppAction,
    >)
        ensures
            final(self)@ == (AppView { observers: None, ..old(self)@ }),
            order::views(out@) == state::observing(
                sync_actions(old(self)@, relay_active, observers::maybe_str(relay_url)),
            ),
    {
        if relay_active {
            return state::observe(self.observers.stop());
        }
        let tap = text::copy_maybe(&self.playing.url);
        state::observe(
            self.observers.sync(
                self.playing.on,
                self.playing.local,
                self.choices.eq_enabled,
                tap,
                relay_url,
            ),
        )
    }

    /// Shows the spectrum, or hides it.
    pub fn set_eq_enabled(
        &mut self,
        enabled: bool,
        relay_active: bool,
        relay_url: Option<&str>,
        now: u64,
    ) -> (out: Vec<AppAction>)
        ensures
            old(self)@.choices.eq_enabled == enabled ==> final(self)@ == old(self)@
                && order::views(out@) == Seq::<ActionView>::empty(),
            old(self)@.choices.eq_enabled != enabled ==> {
                let changed = state::marked(with_eq(old(self)@, enabled));
                &&& final(self)@ == (AppView {
                    observers: None,
                    ..state::persisted(changed, true, now)
                })
                &&& order::views(out@) == seq![ActionView::Save(changed.saving.settings)]
                    + state::observing(
                    sync_actions(changed, relay_active, observers::maybe_str(relay_url)),
                )
            },
    {
        if self.choices.eq_enabled == enabled {
            return nothing();
        }
        self.choices.eq_enabled = enabled;
        self.mark_settings_dirty();
        let save = self.persist_settings_if_needed(true, now);
        let sync = self.sync_spectrum(relay_active, relay_url);
        all_of(save, sync)
    }

    /// Has receivers get the stream through this computer, or not. What plays on a
    /// receiver begins anew.
    pub fn set_cast_relay(&mut self, enabled: bool, now: u64) -> (out: Vec<AppAction>)
        ensures
            final(self)@ == relay_set(old(self)@, enabled, now),
            order::views(out@) == relay_actions(old(self)@, enabled, now),
    {
        if self.choices.cast_relay == enabled {
            return nothing();
        }
        self.choices.cast_relay = enabled;
        self.mark_settings_dirty();
        let save = self.persist_settings_if_needed(true, now);
        let cast_active = (self.playing.on || self.playing.op) && !self.playing.local;
        if cast_active {
            self.shown.status = self.choices.say(Phrase::RelayRestart(enabled));
            let play = self.play(now);
            all_of(save, play)
        } else {
            save
        }
    }
}

/// Nothing plays while outputs are searched for, nor once the end has begun.
pub proof fn playing_waits_for_outputs(a: AppView, now: u64)
    requires
        !a.can_start(),
    ensures
        played(a, now) == a,
        play_actions(a) == Seq::<ActionView>::empty(),
{
}

/// What plays is what is selected, and the settings remember it.
pub proof fn the_selected_station_plays(a: AppView, s: StationView, d: OutputView, now: u64)
    requires
        a.can_start(),
        a.lists.station() == Some(s),
        a.lists.device() == Some(d),
    ensures
        play_actions(a)[2] == ActionView::Play(
            s,
            d,
            a.choices.volume,
            a.choices.cast_relay && !(d is Local),
            a.choices.eq_enabled,
        ),
        played(a, now).playing == (NowView { op: true, on: false, local: d is Local, url: None }),
        played(a, now).saving.settings.station_url == Some(s.url),
        played(a, now).saving.settings.device_id == Some(d.id()),
        !played(a, now).saving.dirty,
{
}

/// The end comes once: after it nothing plays and nothing stops, and ending again
/// does nothing.
pub proof fn the_end_comes_once(a: AppView, now: u64, later: u64)
    ensures
        ({
            let end = shut_down(a, now);
            &&& end.flags.shutting_down
            &&& shutdown_actions(end) == Seq::<ActionView>::empty()
            &&& shut_down(end, later) == end
            &&& played(end, later) == end
            &&& play_actions(end) == Seq::<ActionView>::empty()
            &&& stopped(end) == end
            &&& stop_actions(end) == Seq::<ActionView>::empty()
        }),
{
}

/// A relay that is in use already, or is out of use already, restarts nothing.
pub proof fn an_unchanged_relay_restarts_nothing(a: AppView, now: u64)
    ensures
        relay_set(a, a.choices.cast_relay, now) == a,
        relay_actions(a, a.choices.cast_relay, now) == Seq::<ActionView>::empty(),
        relay_actions(a, !a.choices.cast_relay, now).len() > 1 ==> casts(a),
{
}

} // verus!
