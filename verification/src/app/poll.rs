//! What reports lead to: of the stream, of the watchers, and of work in the
//! background.

use super::catalog;
use super::devices;
use super::play;
use super::state;
use super::state::{
    ActionView, AppAction, AppView, ListsView, NowPlaying, NowView, Prompt, RockCastApp, ShownView,
    VoiceView,
};
use super::words::{Phrase, PhraseView};
use crate::observers;
use crate::order;
use crate::output::OutputDevice;
use crate::playback::{EventView, PlaybackEvent};
use crate::stations::{Station, StationView};
use crate::text;
use vstd::prelude::*;

verus! {

/// What a command by voice asks for: stations, the best first, and whether it is to
/// be played.
#[derive(Debug)]
pub struct VoiceSearchResult {
    pub stations: Vec<Station>,
    pub auto_play: bool,
}

/// A report of work in the background.
#[derive(Debug)]
pub enum UiMsg {
    /// Stations were loaded, and are all there are where `finished`.
    Stations { list: Vec<Station>, source: String, finished: bool },
    DeviceFound(OutputDevice),
    /// The search for outputs has ended, with a report in words.
    DevicesFinished(String),
    VoiceResult(Result<VoiceSearchResult, String>),
}

/// The player without the station that failed.
pub open spec fn failed(a: AppView) -> AppView {
    AppView {
        observers: None,
        playing: play::silent(false),
        lists: ListsView {
            stations: match a.lists.station() {
                Some(s) => catalog::without(a.lists.stations, s.url),
                None => a.lists.stations,
            },
            selected_station: None,
            ..a.lists
        },
        shown: ShownView {
            station: "—"@,
            track: a.choices.say(PhraseView::TrackHint),
            ..a.shown
        },
        ..a
    }
}

/// The player, about to try the next station that was asked for by voice.
pub open spec fn falling_back(a: AppView) -> AppView {
    let next = a.voice.fallback[0];
    AppView {
        voice: VoiceView { fallback: a.voice.fallback.skip(1), ..a.voice },
        lists: ListsView {
            stations: seq![next] + catalog::without(a.lists.stations, next.url),
            selected_station: Some(0),
            scroll_to_station: Some(0),
            ..a.lists
        },
        ..a.with_status(
            a.choices.plain("Станция недоступна; пробую следующую: "@ + next.name),
        )
    }
}

/// The player, once a stream was reported to play.
pub open spec fn playing_ok(a: AppView, url: Seq<char>, local: bool) -> AppView {
    AppView {
        playing: NowView { op: false, on: true, local, url: Some(url) },
        shown: ShownView { track: a.choices.say(PhraseView::TrackMetaHint), ..a.shown },
        ..a
    }
}

/// Whether the watchers are to watch a stream themselves: where it plays on a
/// receiver without the relay, its spectrum is shown, and it has a tap.
pub open spec fn is_tapped(a: AppView, local: bool, tap_url: Option<Seq<char>>) -> bool {
    !local && !a.choices.cast_relay && a.choices.eq_enabled && tap_url is Some
}

/// The player, once a stream made a report.
pub open spec fn after_event(a: AppView, e: EventView, relay_active: bool, now: u64) -> AppView {
    match e {
        EventView::Status(words, _) => a.with_status(a.choices.plain(words)),
        EventView::Title(title, _) => AppView {
            shown: ShownView { track: a.choices.plain(title), ..a.shown },
            ..a
        },
        EventView::PlayOk { url, tap_url, generation, local } => if is_tapped(a, local, tap_url) {
            AppView {
                observers: Some(
                    (
                        (now + if relay_active {
                            observers::RELAY_DELAY_MS
                        } else {
                            observers::DIRECT_DELAY_MS
                        }) as u128,
                        generation,
                        tap_url->0,
                    ),
                ),
                ..playing_ok(a, url, local)
            }
        } else {
            playing_ok(a, url, local)
        },
        EventView::StopOk(_) => AppView {
            observers: None,
            playing: play::silent(false),
            shown: ShownView {
                track: a.choices.say(PhraseView::Stopped),
                status: a.choices.say(PhraseView::Stopped),
                ..a.shown
            },
            ..a
        },
        EventView::Error(message, _) => if a.voice.fallback.len() > 0 {
            play::played(falling_back(failed(a)), now)
        } else {
            failed(a).with_status(a.choices.plain(message))
        },
    }
}

/// What the report of a stream leads to.
pub open spec fn event_actions(a: AppView, e: EventView) -> Seq<ActionView> {
    match e {
        EventView::Status(_, _) => Seq::empty(),
        EventView::Title(_, _) => Seq::empty(),
        EventView::PlayOk { url, tap_url, generation, local } => if is_tapped(a, local, tap_url) {
            seq![play::watchers_stop()]
        } else {
            Seq::empty()
        },
        EventView::StopOk(_) => seq![play::watchers_stop()],
        EventView::Error(_, _) => if a.voice.fallback.len() > 0 {
            seq![play::watchers_stop()] + play::play_actions(falling_back(failed(a)))
        } else {
            seq![play::watchers_stop()]
        },
    }
}

/// The player, once a command by voice was understood, and is no longer waited for.
pub open spec fn heard(a: AppView) -> AppView {
    AppView { voice: VoiceView { busy: false, recording: false, ..a.voice }, ..a }
}

/// The player with the stations that were asked for by voice.
pub open spec fn with_candidates(a: AppView, stations: Seq<StationView>, auto_play: bool) -> AppView {
    AppView {
        voice: VoiceView {
            fallback: if auto_play {
                stations.skip(1)
            } else {
                Seq::empty()
            },
            ..a.voice
        },
        lists: ListsView {
            stations,
            source: "RockServer · голос · "@ + text::decimal(stations.len()),
            selected_station: Some(0),
            scroll_to_station: Some(0),
            ..a.lists
        },
        shown: ShownView { station: stations[0].name, ..a.shown },
        ..a
    }
}

/// The player, once what was asked for by voice is to be played later, or not.
pub open spec fn put_off(a: AppView, pending_play: bool) -> AppView {
    AppView { voice: VoiceView { pending_play, ..a.voice }, ..a }
}

/// The player with the words that a command by voice is answered with.
pub open spec fn answered(a: AppView, stations: Seq<StationView>, auto_play: bool) -> AppView {
    let b = with_candidates(heard(a), stations, auto_play);
    if !auto_play {
        put_off(b, false).with_status(
            a.choices.plain(
                "Найдено станций: "@ + text::decimal(stations.len())
                    + ". Список отсортирован по похожести."@,
            ),
        )
    } else if a.can_start() {
        b.with_status(a.choices.plain("Голосовая команда распознана; запускаю станцию"@))
    } else {
        put_off(b, true).with_status(
            a.choices.plain("Команда распознана; ожидаю аудиоустройство…"@),
        )
    }
}

/// The player, once a command by voice was understood, or was not.
pub open spec fn after_voice(
    a: AppView,
    r: Result<(Seq<StationView>, bool), Seq<char>>,
    now: u64,
) -> AppView {
    match r {
        Ok((stations, auto_play)) => if auto_play {
            play_if_ready(answered(a, stations, auto_play), now)
        } else {
            answered(a, stations, auto_play)
        },
        Err(e) => heard(a).with_status(a.choices.plain("Голосовое управление: "@ + e)),
    }
}

/// Plays where that can begin.
pub open spec fn play_if_ready(a: AppView, now: u64) -> AppView {
    if a.can_start() {
        play::played(a, now)
    } else {
        a
    }
}

/// What a command by voice leads to.
pub open spec fn voice_actions(
    a: AppView,
    r: Result<(Seq<StationView>, bool), Seq<char>>,
) -> Seq<ActionView> {
    match r {
        Ok((stations, true)) => seq![ActionView::Say(Prompt::TurningOn)] + play::play_actions(
            answered(a, stations, true),
        ),
        Ok((_, false)) => Seq::empty(),
        Err(_) => seq![ActionView::Say(Prompt::NotFound)],
    }
}

/// What a command by voice asks for.
pub open spec fn asked(r: Result<VoiceSearchResult, String>) -> Result<
    (Seq<StationView>, bool),
    Seq<char>,
> {
    match r {
        Ok(v) => Ok((order::views(v.stations@), v.auto_play)),
        Err(e) => Err(e@),
    }
}

/// A report can be taken in: a command that was understood names a station.
pub open spec fn is_valid(m: UiMsg) -> bool {
    m matches UiMsg::VoiceResult(Ok(v)) ==> v.stations@.len() > 0
}

/// All but the first of the stations.
fn all_but_first(stations: &Vec<Station>) -> (out: Vec<Station>)
    requires
        stations@.len() > 0,
    ensures
        order::views(out@) == order::views(stations@).skip(1),
{
    let ghost all = order::views(stations@);
    let mut out: Vec<Station> = Vec::new();
    let mut i: usize = 1;
    proof {
        assert(order::views(out@) =~= all.subrange(1, 1));
    }
    while i < stations.len()
        invariant
            1 <= i <= stations@.len(),
            all == order::views(stations@),
            order::views(out@) == all.subrange(1, i as int),
        decreases stations@.len() - i,
    {
        let ghost before = out@;
        out.push(stations[i].clone());
        i = i + 1;
        proof {
            assert(order::views(out@) =~= order::views(before).push(all[i - 1]));
            assert(order::views(out@) =~= all.subrange(1, i as int));
        }
    }
    proof {
        assert(all.subrange(1, i as int) =~= all.skip(1));
    }
    out
}

impl RockCastApp {
    /// Has the watchers begin where they were to begin by now.
    pub fn poll_observers(
        &mut self,
        current_generation: u64,
        relay_url: Option<&str>,
        now: u64,
    ) -> (out: Vec<AppAction>)
        ensures
            match old(self)@.observers {
                Some((at, generation, url)) => if now >= at {
                    &&& final(self)@ == (AppView { observers: None, ..old(self)@ })
                    &&& order::views(out@) == if old(self)@.playing.on && generation
                        == current_generation {
                        state::observing(
                            observers::start_actions(
                                url,
                                old(self)@.choices.eq_enabled,
                                observers::maybe_str(relay_url),
                            ),
                        )
                    } else {
                        Seq::empty()
                    }
                } else {
                    final(self)@ == old(self)@ && order::views(out@) == Seq::<ActionView>::empty()
                },
                None => final(self)@ == old(self)@ && order::views(out@) == Seq::<
                    ActionView,
                >::empty(),
            },
    {
        let out = state::observe(
            self.observers.poll(
                current_generation,
                self.playing.on,
                self.choices.eq_enabled,
                relay_url,
                now,
            ),
        );
        proof {
            if order::views(out@).len() == 0 {
                assert(order::views(out@) =~= Seq::<ActionView>::empty());
            }
        }
        out
    }

    /// Titles were read, the latest last.
    pub fn titles_read(&mut self, titles: &Vec<String>)
        ensures
            final(self)@ == if titles@.len() == 0 {
                old(self)@
            } else {
                AppView {
                    shown: ShownView {
                        track: old(self)@.choices.plain(titles@.last()@),
                        ..old(self)@.shown
                    },
                    ..old(self)@
                }
            },
    {
        let n: usize = titles.len();
        if n > 0 {
            self.shown.track = self.choices.plain(titles[n - 1].as_str());
        }
    }

    /// The relay says what it plays.
    pub fn relay_title(&mut self, title: Option<&str>)
        ensures
            final(self)@ == match title {
                Some(t) => if t@.len() > 0 && old(self)@.playing.on
                    && old(self)@.choices.cast_relay && !old(self)@.playing.local {
                    AppView {
                        shown: ShownView {
                            track: old(self)@.choices.plain(t@),
                            ..old(self)@.shown
                        },
                        ..old(self)@
                    }
                } else {
                    old(self)@
                },
                None => old(self)@,
            },
    {
        if self.playing.on && self.choices.cast_relay && !self.playing.local {
            if let Some(t) = title {
                if !text::is_empty(t) {
                    self.shown.track = self.choices.plain(t);
                }
            }
        }
    }

    /// Gives up a station that failed, and tries the next that was asked for by voice.
    fn stream_failed(&mut self, message: String, now: u64) -> (out: Vec<AppAction>)
        ensures
            final(self)@ == after_event(old(self)@, EventView::Error(message@, 0), false, now),
            order::views(out@) == event_actions(old(self)@, EventView::Error(message@, 0)),
    {
        self.playing = NowPlaying { op: false, on: false, local: false, url: None };
        let stop = self.stop_watching();
        if let Some(station) = self.lists.station() {
            self.lists.stations = catalog::retain_others(
                &self.lists.stations,
                station.url.as_str(),
            );
        }
        self.lists.selected_station = None;
        self.shown.station = "—".to_string();
        self.shown.track = self.choices.say(Phrase::TrackHint);
        proof {
            assert(self@ == failed(old(self)@));
            assert(self@.voice.fallback.len() == self.voice.fallback@.len());
        }
        if self.voice.fallback.len() > 0 {
            let ghost a = self@;
            let next = self.voice.fallback.remove(0);
            proof {
                assert(self@.voice.fallback =~= a.voice.fallback.skip(1));
                assert(next@ == a.voice.fallback[0]);
            }
            let words = text::joined_two(
                "Станция недоступна; пробую следующую: ",
                next.name.as_str(),
            );
            self.shown.status = self.choices.plain(words.as_str());
            let mut stations = catalog::retain_others(&self.lists.stations, next.url.as_str());
            let ghost rest = stations@;
            stations.insert(0, next);
            proof {
                assert(order::views(stations@) =~= seq![next@] + order::views(rest));
            }
            self.lists.stations = stations;
            self.lists.selected_station = Some(0);
            self.lists.scroll_to_station = Some(0);
            proof {
                assert(self@ == falling_back(failed(old(self)@)));
            }
            let more = self.play(now);
            play::all_of(stop, more)
        } else {
            self.shown.status = self.choices.plain(message.as_str());
            stop
        }
    }

    /// Takes in the report of a stream. One of an attempt that was given up meanwhile
    /// is not to be handed in.
    pub fn apply_event(&mut self, event: PlaybackEvent, relay_active: bool, now: u64) -> (out: Vec<
        AppAction,
    >)
        ensures
            final(self)@ == after_event(old(self)@, event@, relay_active, now),
            order::views(out@) == event_actions(old(self)@, event@),
    {
        match event {
            PlaybackEvent::Status { text: words, generation: _ } => {
                self.shown.status = self.choices.plain(words.as_str());
                play::nothing()
            },
            PlaybackEvent::Title { title, generation: _ } => {
                self.shown.track = self.choices.plain(title.as_str());
                play::nothing()
            },
            PlaybackEvent::PlayOk { url, tap_url, generation, local } => {
                self.playing = NowPlaying { op: false, on: true, local, url: Some(url) };
                self.shown.track = self.choices.say(Phrase::TrackMetaHint);
                if !local && !self.choices.cast_relay && self.choices.eq_enabled {
                    if let Some(tap) = tap_url {
                        return self.schedule_stream_tap(generation, tap, relay_active, now);
                    }
                }
                play::nothing()
            },
            PlaybackEvent::StopOk { generation: _ } => {
                self.playing = NowPlaying { op: false, on: false, local: false, url: None };
                let stop = self.stop_watching();
                self.shown.track = self.choices.say(Phrase::Stopped);
                self.shown.status = self.choices.say(Phrase::Stopped);
                stop
            },
            PlaybackEvent::Error { message, generation: _ } => self.stream_failed(message, now),
        }
    }

    /// Takes in what a command by voice asks for.
    fn voice_answered(&mut self, result: VoiceSearchResult, now: u64) -> (out: Vec<AppAction>)
        requires
            result.stations@.len() > 0,
        ensures
            final(self)@ == after_voice(old(self)@, asked(Ok(result)), now),
            order::views(out@) == voice_actions(old(self)@, asked(Ok(result))),
    {
        let ghost all = order::views(result.stations@);
        let auto_play = result.auto_play;
        let stations = result.stations;
        let n: usize = stations.len();
        let digits = text::decimal_text(n as u64);
        self.voice.busy = false;
        self.voice.recording = false;
        self.voice.fallback = if auto_play {
            all_but_first(&stations)
        } else {
            Vec::new()
        };
        proof {
            if !auto_play {
                assert(self@.voice.fallback =~= Seq::empty());
            }
            assert(all[0] == stations@[0]@);
        }
        self.shown.station = stations[0].name.clone();
        self.lists.stations = stations;
        self.lists.source = text::joined_two("RockServer · голос · ", digits.as_str());
        self.lists.selected_station = Some(0);
        self.lists.scroll_to_station = Some(0);
        proof {
            assert(self@ == with_candidates(heard(old(self)@), all, auto_play));
        }
        if !auto_play {
            self.voice.pending_play = false;
            let words = text::joined_two("Найдено станций: ", digits.as_str());
            let words = text::joined_two(words.as_str(), ". Список отсортирован по похожести.");
            self.shown.status = self.choices.plain(words.as_str());
            return play::nothing();
        }
        let said = play::one(AppAction::Say(Prompt::TurningOn));
        if self.can_start_play() {
            self.shown.status = self.choices.plain(
                "Голосовая команда распознана; запускаю станцию",
            );
            proof {
                assert(self@ == answered(old(self)@, all, true));
            }
            let more = self.play(now);
            play::all_of(said, more)
        } else {
            self.voice.pending_play = true;
            self.shown.status = self.choices.plain(
                "Команда распознана; ожидаю аудиоустройство…",
            );
            proof {
                assert(self@ == answered(old(self)@, all, true));
                assert(order::views(said@) =~= voice_actions(old(self)@, asked(Ok(result))));
            }
            said
        }
    }

    /// Takes in that a command by voice was understood, or was not.
    pub fn voice_result(&mut self, result: Result<VoiceSearchResult, String>, now: u64) -> (out:
        Vec<AppAction>)
        requires
            is_valid(UiMsg::VoiceResult(result)),
        ensures
            final(self)@ == after_voice(old(self)@, asked(result), now),
            order::views(out@) == voice_actions(old(self)@, asked(result)),
    {
        match result {
            Ok(found) => self.voice_answered(found, now),
            Err(e) => {
                self.voice.busy = false;
                self.voice.recording = false;
                let words = text::joined_two("Голосовое управление: ", e.as_str());
                self.shown.status = self.choices.plain(words.as_str());
                play::one(AppAction::Say(Prompt::NotFound))
            },
        }
    }

    /// Takes in a report of work in the background.
    pub fn apply_message(&mut self, message: UiMsg, now: u64) -> (out: Vec<AppAction>)
        requires
            is_valid(message),
        ensures
            match message {
                UiMsg::Stations { list, source, finished } => {
                    &&& final(self)@ == catalog::loaded(
                        old(self)@,
                        order::views(list@),
                        source@,
                        finished,
                    )
                    &&& order::views(out@) == Seq::<ActionView>::empty()
                },
                UiMsg::DeviceFound(device) => {
                    let a = devices::found(old(self)@, device@);
                    if devices::voice_resumes(a) {
                        &&& final(self)@ == play::played(devices::resumed(a), now)
                        &&& order::views(out@) == play::play_actions(devices::resumed(a))
                    } else {
                        &&& final(self)@ == a
                        &&& order::views(out@) == Seq::<ActionView>::empty()
                    }
                },
                UiMsg::DevicesFinished(report) => {
                    &&& final(self)@ == devices::search_ended(old(self)@, report@)
                    &&& order::views(out@) == Seq::<ActionView>::empty()
                },
                UiMsg::VoiceResult(result) => {
                    &&& final(self)@ == after_voice(old(self)@, asked(result), now)
                    &&& order::views(out@) == voice_actions(old(self)@, asked(result))
                },
            },
    {
        match message {
            UiMsg::Stations { list, source, finished } => {
                self.stations_loaded(list, source, finished);
                play::nothing()
            },
            UiMsg::DeviceFound(device) => self.device_found(device, now),
            UiMsg::DevicesFinished(report) => {
                self.devices_finished(report);
                play::nothing()
            },
            UiMsg::VoiceResult(result) => self.voice_result(result, now),
        }
    }

    /// Whether the window is to be drawn anew soon, though nobody touches it.
    /// `levels_move` says that the spectrum has not come to rest.
    pub fn needs_repaint(&self, levels_move: bool) -> (r: bool)
        ensures
            r == (self@.playing.on || self@.flags.loading_stations || self@.flags.loading_devices
                || self@.saving.dirty || levels_move),
    {
        self.playing.on || self.flags.loading_stations || self.flags.loading_devices
            || self.saving.dirty || (self.choices.eq_enabled && self.playing.on) || levels_move
    }
}

proof fn lemma_gone(stations: Seq<StationView>, url: Seq<char>)
    ensures
        forall|i: int|
            0 <= i < catalog::without(stations, url).len() ==> (#[trigger] catalog::without(
                stations,
                url,
            )[i]).url != url,
    decreases stations.len(),
{
    reveal(Seq::filter);
    if stations.len() > 0 {
        lemma_gone(stations.drop_last(), url);
        let stays = |s: StationView| s.url != url;
        let before = stations.drop_last().filter(stays);
        assert(before == catalog::without(stations.drop_last(), url));
        assert forall|i: int| 0 <= i < catalog::without(stations, url).len() implies (
        #[trigger] catalog::without(stations, url)[i]).url != url by {
            if i < before.len() {
                assert(catalog::without(stations, url)[i] == before[i]);
            }
        }
    }
}

/// A station that failed is no longer listed, nor selected, and nothing plays unless
/// another was asked for.
pub proof fn a_failed_station_is_given_up(a: AppView, s: StationView, message: Seq<char>, now: u64)
    requires
        a.lists.station() == Some(s),
        a.voice.fallback.len() == 0,
    ensures
        ({
            let b = after_event(a, EventView::Error(message, 0), false, now);
            &&& b.lists.selected_station is None
            &&& b.playing == play::silent(false)
            &&& b.shown.status == a.choices.plain(message)
            &&& forall|i: int|
                0 <= i < b.lists.stations.len() ==> (#[trigger] b.lists.stations[i]).url != s.url
            &&& event_actions(a, EventView::Error(message, 0)) == seq![play::watchers_stop()]
        }),
{
    lemma_gone(a.lists.stations, s.url);
}

/// Where several stations were asked for, each failure leads to the next of them, and
/// there is one fewer left: they come to an end.
pub proof fn fallbacks_come_to_an_end(a: AppView, message: Seq<char>, now: u64)
    requires
        a.voice.fallback.len() > 0,
    ensures
        ({
            let b = after_event(a, EventView::Error(message, 0), false, now);
            &&& b.voice.fallback == a.voice.fallback.skip(1)
            &&& b.voice.fallback.len() == a.voice.fallback.len() - 1
            &&& b.lists.station() == Some(a.voice.fallback[0])
        }),
{
}

/// A stream that stopped or failed is watched no more.
pub proof fn what_ended_is_not_watched(a: AppView, e: EventView, relay_active: bool, now: u64)
    requires
        e is StopOk || e is Error,
    ensures
        after_event(a, e, relay_active, now).observers is None,
        !after_event(a, e, relay_active, now).playing.on,
        event_actions(a, e).len() > 0 && event_actions(a, e)[0] == play::watchers_stop(),
{
}

/// What is asked for by voice while outputs are searched for plays as soon as the
/// search allows it: the first output found then resumes it.
pub proof fn voice_waits_for_an_output(
    a: AppView,
    stations: Seq<StationView>,
    now: u64,
    d: crate::output::OutputView,
)
    requires
        stations.len() > 0,
        !a.can_start(),
    ensures
        ({
            let b = after_voice(a, Ok((stations, true)), now);
            &&& b.voice.pending_play
            &&& b.lists.station() == Some(stations[0])
            &&& !devices::voice_resumes(devices::found(b, d))
            &&& !b.flags.shutting_down ==> devices::voice_resumes(
                devices::found(
                    AppView {
                        flags: state::Flags { loading_devices: false, ..b.flags },
                        ..b
                    },
                    d,
                ),
            )
        }),
{
}

} // verus!
