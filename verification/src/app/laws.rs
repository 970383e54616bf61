//! What each click and each report does to the player, and what it leaves alone.

use super::catalog;
use super::devices;
use super::panels;
use super::personal;
use super::play;
use super::poll;
use super::state;
use super::state::{
    ActionView, AppView, ChoicesView, ListsView, NowView, Prompt, SettingsView, VoiceView,
};
use super::voice;
use super::words;
use super::words::{Lang, PhraseView, SaidView};
use crate::observers;
use crate::output::OutputView;
use crate::personal_data::moves;
use crate::personal_data::records::{FavouriteView, HistoryView, UnresolvedView};
use crate::personal_data::ProfileView;
use crate::playback::EventView;
use crate::stations::StationView;
use crate::text;
use vstd::prelude::*;

verus! {

// ---------------------------------------------------------------------------
// Settings
// ---------------------------------------------------------------------------

/// What is selected is the item of its list at the place that is selected, if there is one.
pub proof fn what_is_selected(l: ListsView)
    ensures
        l.selected_station is None ==> l.station() is None,
        l.selected_station matches Some(i) ==> (i < l.stations.len() ==> l.station() == Some(
            l.stations[i as int],
        )) && (i >= l.stations.len() ==> l.station() is None),
        l.selected_device is None ==> l.device() is None,
        l.selected_device matches Some(i) ==> (i < l.devices.len() ==> l.device() == Some(
            l.devices[i as int],
        )) && (i >= l.devices.len() ==> l.device() is None),
{
}

/// The settings take over each choice, the address and the token without white space at
/// their ends, and what is selected; they are to be saved then. Nothing else changes.
pub proof fn settings_take_over_each_choice(a: AppView)
    ensures
        ({
            let b = state::marked(a);
            let s = b.saving.settings;
            &&& s.volume == a.choices.volume
            &&& s.eq_enabled == a.choices.eq_enabled
            &&& s.cast_relay == a.choices.cast_relay
            &&& s.language == a.choices.lang
            &&& s.rockserver_enabled == a.choices.rockserver_enabled
            &&& s.rockserver_url == text::trimmed(a.choices.rockserver_url)
            &&& s.rockserver_bearer_token == text::trimmed(a.choices.rockserver_bearer_token)
            &&& a.lists.station() matches Some(x) ==> s.station_url == Some(x.url)
            &&& a.lists.station() is None ==> s.station_url == a.saving.settings.station_url
            &&& a.lists.device() matches Some(d) ==> s.device_id == Some(d.id())
            &&& a.lists.device() is None ==> s.device_id == a.saving.settings.device_id
            &&& b.saving.dirty
            &&& b.saving.last == a.saving.last
            &&& b.lists == a.lists && b.shown == a.shown && b.voice == a.voice
            &&& b.playing == a.playing && b.choices == a.choices && b.flags == a.flags
            &&& b.observers == a.observers
        }),
{
}

/// Settings that have changed are saved where they have to be, else once four tenths of a
/// second have passed since the last time. What is saved are the settings, and nothing
/// else changes.
pub proof fn when_settings_are_saved(a: AppView, force: bool, now: u64)
    ensures
        ({
            let due = a.saving.dirty && (force || now >= a.saving.last + 400);
            let b = state::persisted(a, force, now);
            &&& due ==> state::save_actions(a, force, now) == seq![
                ActionView::Save(a.saving.settings),
            ]
            &&& !due ==> state::save_actions(a, force, now) == Seq::<ActionView>::empty()
            &&& due ==> !b.saving.dirty && b.saving.last == now
            &&& !due ==> b == a
            &&& b.saving.settings == a.saving.settings
            &&& b.lists == a.lists && b.shown == a.shown && b.voice == a.voice
            &&& b.playing == a.playing && b.choices == a.choices && b.flags == a.flags
            &&& b.observers == a.observers
        }),
{
}

// ---------------------------------------------------------------------------
// Playing and stopping
// ---------------------------------------------------------------------------

/// Playing needs outputs that were searched for, a station and an output; the user is told
/// which of the last two is missing, and nothing else changes.
pub proof fn what_playing_needs(a: AppView, now: u64)
    ensures
        a.can_start() <==> !a.flags.loading_devices && !a.flags.shutting_down,
        a.can_start() && a.lists.station() is None ==> play::played(a, now).shown.status == (
        SaidView { lang: a.choices.lang, phrase: PhraseView::PickStation }),
        a.can_start() && a.lists.station() is Some && a.lists.device() is None ==> play::played(
            a,
            now,
        ).shown.status == (SaidView { lang: a.choices.lang, phrase: PhraseView::PickDevice }),
        a.lists.station() is None || a.lists.device() is None ==> {
            let b = play::played(a, now);
            &&& play::play_actions(a) == Seq::<ActionView>::empty()
            &&& b.lists == a.lists && b.voice == a.voice && b.playing == a.playing
            &&& b.choices == a.choices && b.flags == a.flags && b.saving == a.saving
            &&& b.observers == a.observers && b.shown.station == a.shown.station
            &&& b.shown.track == a.shown.track
        },
{
}

/// A station that begins to play: its name is shown, and that it is being connected to; the
/// watchers of the one before stop, the settings are saved, and it plays on the output that
/// is selected, through the relay only where that is a receiver.
pub proof fn how_a_station_begins(a: AppView, s: StationView, d: OutputView, now: u64)
    requires
        a.can_start(),
        a.lists.station() == Some(s),
        a.lists.device() == Some(d),
    ensures
        ({
            let b = play::played(a, now);
            let out = play::play_actions(a);
            &&& b.shown.status == (SaidView {
                lang: a.choices.lang,
                phrase: PhraseView::Plain("Play: "@ + s.name + " -> "@ + d.name()),
            })
            &&& b.shown.station == s.name
            &&& b.shown.track == (SaidView {
                lang: a.choices.lang,
                phrase: PhraseView::Connecting,
            })
            &&& b.playing.op && !b.playing.on && b.playing.url is None
            &&& b.playing.local <==> d is Local
            &&& b.observers is None
            &&& b.lists == a.lists && b.voice == a.voice && b.choices == a.choices
            &&& b.flags == a.flags
            &&& !b.saving.dirty && b.saving.last == now
            &&& b.saving.settings.station_url == Some(s.url)
            &&& b.saving.settings.device_id == Some(d.id())
            &&& out.len() == 3
            &&& out[0] == ActionView::Observe(observers::ActionView::Stop)
            &&& out[1] == ActionView::Save(b.saving.settings)
            &&& out[2] matches ActionView::Play(x, y, volume, relay, eq) && x == s && y == d
                && volume == a.choices.volume && (relay <==> a.choices.cast_relay && d is Cast)
                && eq == a.choices.eq_enabled
        }),
{
}

/// Stopping ends what plays and what waits to be played, says so, and leaves the rest.
pub proof fn what_stopping_does(a: AppView)
    requires
        !a.flags.shutting_down,
    ensures
        ({
            let b = play::stopped(a);
            let out = play::stop_actions(a);
            &&& out.len() == 2
            &&& out[0] == ActionView::Observe(observers::ActionView::Stop)
            &&& out[1] is Stop
            &&& b.playing.op && !b.playing.on && !b.playing.local && b.playing.url is None
            &&& b.voice.fallback.len() == 0 && !b.voice.pending_play
            &&& b.voice.busy == a.voice.busy && b.voice.recording == a.voice.recording
            &&& b.shown.status == (SaidView {
                lang: a.choices.lang,
                phrase: PhraseView::Plain("Stop…"@),
            })
            &&& b.shown.track == (SaidView { lang: a.choices.lang, phrase: PhraseView::Stopped })
            &&& b.shown.station == a.shown.station
            &&& b.observers is None
            &&& b.lists == a.lists && b.choices == a.choices && b.saving == a.saving
            &&& b.flags == a.flags
        }),
{
}

/// The end: the settings are saved once more, the watchers stop, and so does what plays.
pub proof fn what_the_end_does(a: AppView, now: u64)
    requires
        !a.flags.shutting_down,
    ensures
        ({
            let b = play::shut_down(a, now);
            let out = play::shutdown_actions(a);
            &&& out.len() == 3
            &&& out[0] == ActionView::Observe(observers::ActionView::Stop)
            &&& out[1] == ActionView::Save(state::marked(a).saving.settings)
            &&& out[2] is Shutdown
            &&& b.flags.shutting_down
            &&& !b.playing.on && !b.playing.local && b.playing.url is None && b.playing.op
                == a.playing.op
            &&& !b.saving.dirty && b.saving.last == now
            &&& b.observers is None
            &&& b.lists == a.lists && b.shown == a.shown && b.voice == a.voice
            &&& b.choices == a.choices
        }),
{
}

/// What plays on a receiver without the relay is watched at its own address; what plays
/// here, through the relay, or not at all is not.
pub proof fn what_is_watched(a: AppView, relay_active: bool, relay_url: Option<Seq<char>>)
    ensures
        relay_active || !a.playing.on || a.playing.local || a.playing.url is None
            ==> play::sync_actions(a, relay_active, relay_url) == seq![observers::ActionView::Stop],
        !relay_active && a.playing.on && !a.playing.local ==> (a.playing.url matches Some(url)
            ==> play::sync_actions(a, relay_active, relay_url) == observers::start_actions(
            url,
            a.choices.eq_enabled,
            relay_url,
        )),
{
}

/// Switching the relay saves the choice. What plays on a receiver, or is about to, begins
/// anew with it; what plays here goes on.
pub proof fn what_switching_the_relay_does(a: AppView, enabled: bool, now: u64)
    requires
        a.choices.cast_relay != enabled,
    ensures
        ({
            let b = play::relay_set(a, enabled, now);
            let out = play::relay_actions(a, enabled, now);
            &&& b.choices.cast_relay == enabled
            &&& b.choices.volume == a.choices.volume && b.choices.eq_enabled == a.choices.eq_enabled
            &&& b.saving.settings.cast_relay == enabled && !b.saving.dirty
            &&& b.lists == a.lists && b.voice == a.voice && b.flags == a.flags
            &&& out.len() > 0
            &&& out[0] matches ActionView::Save(s) && s.cast_relay == enabled && s.volume
                == a.choices.volume
            &&& a.playing.local || (!a.playing.on && !a.playing.op) ==> out.len() == 1 && b.playing
                == a.playing && b.shown == a.shown
            &&& !a.playing.local && (a.playing.on || a.playing.op) && a.can_start() ==> (
            a.lists.station() matches Some(s) ==> (a.lists.device() matches Some(d) ==> {
                &&& out.len() == 4
                &&& out[3] == ActionView::Play(
                    s,
                    d,
                    a.choices.volume,
                    enabled && !(d is Local),
                    a.choices.eq_enabled,
                )
                &&& b.playing.op && !b.playing.on
            }))
            &&& !a.playing.local && (a.playing.on || a.playing.op) && !a.can_start() ==> out.len()
                == 1 && b.playing == a.playing && b.shown.status == (SaidView {
                lang: a.choices.lang,
                phrase: PhraseView::RelayRestart(enabled),
            })
        }),
{
}

/// Switching the equalizer or the relay changes that choice and no other.
pub proof fn one_choice_at_a_time(a: AppView, enabled: bool)
    ensures
        play::with_eq(a, enabled).choices == (ChoicesView { eq_enabled: enabled, ..a.choices }),
        play::with_relay(a, enabled).choices == (ChoicesView { cast_relay: enabled, ..a.choices }),
        play::with_eq(a, enabled).lists == a.lists && play::with_eq(a, enabled).playing
            == a.playing,
        play::with_relay(a, enabled).lists == a.lists && play::with_relay(a, enabled).playing
            == a.playing,
{
}

// ---------------------------------------------------------------------------
// Reports of what plays
// ---------------------------------------------------------------------------

/// Words and titles are shown where they belong, and nothing else changes.
pub proof fn words_and_titles_are_shown(
    a: AppView,
    words: Seq<char>,
    n: u64,
    relay_active: bool,
    now: u64,
)
    ensures
        ({
            let b = poll::after_event(a, EventView::Status(words, n), relay_active, now);
            let c = poll::after_event(a, EventView::Title(words, n), relay_active, now);
            let said = SaidView { lang: a.choices.lang, phrase: PhraseView::Plain(words) };
            &&& b.shown.status == said && b.shown.track == a.shown.track && b.shown.station
                == a.shown.station
            &&& c.shown.track == said && c.shown.status == a.shown.status && c.shown.station
                == a.shown.station
            &&& b.playing == a.playing && c.playing == a.playing
            &&& b.lists == a.lists && c.lists == a.lists
            &&& b.voice == a.voice && c.voice == a.voice
            &&& b.observers == a.observers && c.observers == a.observers
            &&& poll::event_actions(a, EventView::Status(words, n)).len() == 0
            &&& poll::event_actions(a, EventView::Title(words, n)).len() == 0
        }),
{
}

/// A stream that plays is on, here or on a receiver, at its address. Where it plays on a
/// receiver without the relay and the equalizer is on, its tap is watched after a while.
pub proof fn what_a_stream_that_plays_does(
    a: AppView,
    url: Seq<char>,
    tap_url: Option<Seq<char>>,
    generation: u64,
    local: bool,
    relay_active: bool,
    now: u64,
)
    ensures
        ({
            let e = EventView::PlayOk { url, tap_url, generation, local };
            let b = poll::after_event(a, e, relay_active, now);
            let out = poll::event_actions(a, e);
            let tapped = !local && !a.choices.cast_relay && a.choices.eq_enabled && tap_url is Some;
            &&& b.playing.on && !b.playing.op && b.playing.local == local && b.playing.url == Some(
                url,
            )
            &&& b.shown.track == (SaidView {
                lang: a.choices.lang,
                phrase: PhraseView::TrackMetaHint,
            })
            &&& b.shown.status == a.shown.status && b.shown.station == a.shown.station
            &&& b.lists == a.lists && b.voice == a.voice && b.choices == a.choices && b.saving
                == a.saving
            &&& !tapped ==> b.observers == a.observers && out.len() == 0
            &&& tapped ==> {
                &&& out == seq![ActionView::Observe(observers::ActionView::Stop)]
                &&& b.observers matches Some((at, g, u)) && g == generation && Some(u) == tap_url && (
                relay_active ==> at == now + 2_500) && (!relay_active ==> at == now + 1_200)
            }
        }),
{
}

/// A stream that has stopped is off, and the user is told so.
pub proof fn what_a_stream_that_stopped_does(a: AppView, n: u64, relay_active: bool, now: u64)
    ensures
        ({
            let b = poll::after_event(a, EventView::StopOk(n), relay_active, now);
            let said = SaidView { lang: a.choices.lang, phrase: PhraseView::Stopped };
            &&& !b.playing.on && !b.playing.op && !b.playing.local && b.playing.url is None
            &&& b.shown.status == said && b.shown.track == said && b.shown.station
                == a.shown.station
            &&& b.lists == a.lists && b.voice == a.voice && b.choices == a.choices && b.saving
                == a.saving
            &&& poll::event_actions(a, EventView::StopOk(n)) == seq![
                ActionView::Observe(observers::ActionView::Stop),
            ]
        }),
{
}

/// A stream that failed is off; its station leaves the list and no other does, and none is
/// selected.
pub proof fn what_a_stream_that_failed_does(
    a: AppView,
    message: Seq<char>,
    n: u64,
    relay_active: bool,
    now: u64,
    x: StationView,
)
    requires
        a.voice.fallback.len() == 0,
    ensures
        ({
            let b = poll::after_event(a, EventView::Error(message, n), relay_active, now);
            &&& !b.playing.on && !b.playing.op && !b.playing.local && b.playing.url is None
            &&& b.lists.selected_station is None
            &&& b.lists.devices == a.lists.devices && b.lists.selected_device
                == a.lists.selected_device && b.lists.source == a.lists.source
            &&& a.lists.station() matches Some(s) ==> (b.lists.stations.contains(x)
                <==> a.lists.stations.contains(x) && x.url != s.url)
            &&& a.lists.station() is None ==> b.lists.stations == a.lists.stations
            &&& b.shown.station == "—"@
            &&& b.shown.track == (SaidView { lang: a.choices.lang, phrase: PhraseView::TrackHint })
            &&& b.shown.status == (SaidView {
                lang: a.choices.lang,
                phrase: PhraseView::Plain(message),
            })
            &&& b.voice == a.voice && b.choices == a.choices && b.saving == a.saving
            &&& b.observers is None
        }),
{
    if let Some(s) = a.lists.station() {
        let stays = |y: StationView| y.url != s.url;
        moves::lemma_filtered(a.lists.stations, stays);
        assert(catalog::without(a.lists.stations, s.url) == a.lists.stations.filter(stays));
        assert(stays(x) == (x.url != s.url));
    }
}

/// A station that was found by voice and failed is followed by the next that was found:
/// that stands first in the list, once, is selected, and plays.
pub proof fn the_next_station_that_was_found_plays(
    a: AppView,
    message: Seq<char>,
    n: u64,
    relay_active: bool,
    now: u64,
    k: int,
)
    requires
        a.voice.fallback.len() > 0,
    ensures
        ({
            let next = a.voice.fallback[0];
            let b = poll::after_event(a, EventView::Error(message, n), relay_active, now);
            let out = poll::event_actions(a, EventView::Error(message, n));
            &&& b.lists.stations.len() > 0 && b.lists.stations[0] == next
            &&& b.lists.selected_station == Some(0usize) && b.lists.scroll_to_station == Some(
                0usize,
            )
            &&& 0 < k < b.lists.stations.len() ==> b.lists.stations[k].url != next.url
            &&& b.voice.fallback == a.voice.fallback.skip(1)
            &&& out.len() > 0 && out[0] == ActionView::Observe(observers::ActionView::Stop)
            &&& a.can_start() ==> (a.lists.device() matches Some(d) ==> {
                &&& out.len() == 4
                &&& out[3] == ActionView::Play(
                    next,
                    d,
                    a.choices.volume,
                    a.choices.cast_relay && !(d is Local),
                    a.choices.eq_enabled,
                )
                &&& b.shown.station == next.name
            })
            &&& !a.can_start() ==> out.len() == 1 && b.shown.status == (SaidView {
                lang: a.choices.lang,
                phrase: PhraseView::Plain(
                    "Станция недоступна; пробую следующую: "@ + next.name,
                ),
            })
        }),
{
    let next = a.voice.fallback[0];
    let f = poll::failed(a);
    let stays = |y: StationView| y.url != next.url;
    let rest = catalog::without(f.lists.stations, next.url);
    moves::lemma_filtered(f.lists.stations, stays);
    assert(rest == f.lists.stations.filter(stays));
    let b = poll::after_event(a, EventView::Error(message, n), relay_active, now);
    assert(b.lists.stations == seq![next] + rest);
    if 0 < k < b.lists.stations.len() {
        assert(b.lists.stations[k] == rest[k - 1]);
        assert(rest.contains(rest[k - 1]));
        assert(stays(rest[k - 1]));
    }
}

// ---------------------------------------------------------------------------
// Voice
// ---------------------------------------------------------------------------

/// Pressing the button records where a server is in use, nothing is being recorded or
/// understood, and there is a token: what is recorded goes to that server with that token.
/// Without a token its settings are shown.
pub proof fn what_pressing_the_button_does(a: AppView)
    ensures
        ({
            let b = voice::listening(a);
            let out = voice::listen_actions(a);
            let can = a.choices.rockserver_enabled && !a.voice.busy;
            let token = text::trimmed(a.choices.rockserver_bearer_token).len() > 0;
            &&& !can ==> b == a && out.len() == 0
            &&& can && token ==> {
                &&& out == seq![
                    ActionView::Say(Prompt::Beep),
                    ActionView::Record(
                        a.choices.rockserver_url,
                        a.choices.rockserver_bearer_token,
                    ),
                ]
                &&& b.voice.busy && b.voice.recording
                &&& b.flags == a.flags
                &&& b.shown.status == (SaidView {
                    lang: a.choices.lang,
                    phrase: PhraseView::Plain("Слушаю, пока удерживается кнопка…"@),
                })
            }
            &&& can && !token ==> {
                &&& out == seq![ActionView::Say(Prompt::TokenMissing)]
                &&& b.voice == a.voice
                &&& b.flags.rockserver_setup_open
                &&& b.shown.status == (SaidView {
                    lang: a.choices.lang,
                    phrase: PhraseView::TokenRequired,
                })
            }
            &&& b.playing == a.playing && b.lists == a.lists && b.choices == a.choices && b.saving
                == a.saving
            &&& b.voice.fallback == a.voice.fallback && b.voice.pending_play
                == a.voice.pending_play
        }),
{
}

/// Releasing the button ends a recording, which is then understood, and does nothing else.
pub proof fn what_releasing_the_button_does(a: AppView)
    ensures
        !a.voice.recording ==> voice::released(a) == a && voice::release_actions(a).len() == 0,
        a.voice.recording ==> {
            let b = voice::released(a);
            &&& voice::release_actions(a) == seq![ActionView::EndRecording]
            &&& !b.voice.recording && b.voice.busy == a.voice.busy
            &&& b.shown.status == (SaidView {
                lang: a.choices.lang,
                phrase: PhraseView::Plain("Распознаю команду…"@),
            })
            &&& b.playing == a.playing && b.lists == a.lists && b.choices == a.choices
        },
{
}

/// What was found by voice is listed, the best first and selected. Where it is to be
/// played it is, or waits for an output; the others are kept to fall back on.
pub proof fn what_was_found_by_voice_is_listed(
    a: AppView,
    stations: Seq<StationView>,
    auto_play: bool,
    now: u64,
)
    requires
        stations.len() > 0,
    ensures
        ({
            let b = poll::after_voice(a, Ok((stations, auto_play)), now);
            let out = poll::voice_actions(a, Ok((stations, auto_play)));
            &&& b.lists.stations == stations
            &&& b.lists.selected_station == Some(0usize) && b.lists.scroll_to_station == Some(
                0usize,
            )
            &&& b.lists.source == "RockServer · голос · "@ + text::decimal(stations.len())
            &&& b.lists.devices == a.lists.devices && b.lists.selected_device
                == a.lists.selected_device
            &&& !b.voice.busy && !b.voice.recording
            &&& b.shown.station == stations[0].name
            &&& auto_play ==> b.voice.fallback == stations.skip(1)
            &&& !auto_play ==> {
                &&& b.voice.fallback.len() == 0 && !b.voice.pending_play
                &&& out.len() == 0
                &&& b.playing == a.playing
                &&& b.shown.status == (SaidView {
                    lang: a.choices.lang,
                    phrase: PhraseView::Plain(
                        "Найдено станций: "@ + text::decimal(stations.len())
                            + ". Список отсортирован по похожести."@,
                    ),
                })
            }
            &&& auto_play ==> out.len() > 0 && out[0] == ActionView::Say(Prompt::TurningOn)
            &&& auto_play && !a.can_start() ==> {
                &&& b.voice.pending_play
                &&& out.len() == 1
                &&& b.playing == a.playing
                &&& b.shown.status == (SaidView {
                    lang: a.choices.lang,
                    phrase: PhraseView::Plain("Команда распознана; ожидаю аудиоустройство…"@),
                })
            }
            &&& auto_play && a.can_start() ==> (a.lists.device() matches Some(d) ==> out.len() == 4
                && out[3] == ActionView::Play(
                stations[0],
                d,
                a.choices.volume,
                a.choices.cast_relay && !(d is Local),
                a.choices.eq_enabled,
            ))
        }),
{
}

/// A command that was not understood is said not to be found, with the reason.
pub proof fn a_command_that_was_not_understood(a: AppView, e: Seq<char>, now: u64)
    ensures
        ({
            let b = poll::after_voice(a, Err(e), now);
            &&& poll::voice_actions(a, Err(e)) == seq![ActionView::Say(Prompt::NotFound)]
            &&& !b.voice.busy && !b.voice.recording
            &&& b.voice.fallback == a.voice.fallback && b.voice.pending_play
                == a.voice.pending_play
            &&& b.shown.status == (SaidView {
                lang: a.choices.lang,
                phrase: PhraseView::Plain("Голосовое управление: "@ + e),
            })
            &&& b.lists == a.lists && b.playing == a.playing && b.choices == a.choices
        }),
{
}

// ---------------------------------------------------------------------------
// Outputs
// ---------------------------------------------------------------------------

/// Two reports are of one output where both are local and have one identity, or both are
/// receivers at one address.
pub proof fn when_two_outputs_are_one(a: OutputView, b: OutputView)
    ensures
        a matches OutputView::Local(x) ==> (b matches OutputView::Local(y) ==> (devices::is_same(
            a,
            b,
        ) <==> x.id == y.id)),
        a matches OutputView::Cast(x) ==> (b matches OutputView::Cast(y) ==> (devices::is_same(a, b)
            <==> x.host == y.host)),
        a is Local && b is Cast ==> !devices::is_same(a, b),
        a is Cast && b is Local ==> !devices::is_same(a, b),
{
}

/// A report of an output that is listed replaces it, and leaves all others; one of a new
/// output stands behind all others.
pub proof fn a_report_replaces_or_adds(list: Seq<OutputView>, d: OutputView, k: int)
    requires
        list.len() <= usize::MAX,
        0 <= k < list.len(),
    ensures
        !devices::is_same(list[k], d) ==> devices::reported(list, d)[k] == list[k],
        devices::is_same(list[k], d) ==> devices::reported(list, d).len() == list.len()
            && devices::reported(list, d).contains(d),
        (forall|i: int| 0 <= i < list.len() ==> !devices::is_same(#[trigger] list[i], d))
            ==> devices::reported(list, d) == list.push(d),
{
    let same = |e: OutputView| devices::is_same(e, d);
    devices::the_first_is_found(list, same);
    match devices::first_where(list, same) {
        Some(i) => {
            assert(same(list[i as int]));
            assert(devices::reported(list, d)[i as int] == d);
        },
        None => {
            assert(!same(list[k]));
        },
    }
    if devices::is_same(list[k], d) {
        assert(same(list[k]));
    }
    if forall|i: int| 0 <= i < list.len() ==> !devices::is_same(#[trigger] list[i], d) {
        if let Some(i) = devices::first_where(list, same) {
            assert(same(list[i as int]));
        }
    }
}

/// Which output is selected of a list: the first with the identity that was saved, else
/// the first local one, else the first.
pub proof fn which_output_is_selected(
    list: Seq<OutputView>,
    saved: Option<Seq<char>>,
    k: int,
)
    requires
        list.len() <= usize::MAX,
    ensures
        list.len() == 0 ==> devices::restored(list, saved) is None,
        list.len() > 0 ==> (devices::restored(list, saved) matches Some(i) && i < list.len()),
        0 <= k < list.len() && saved == Some(list[k].id()) ==> (devices::restored(
            list,
            saved,
        ) matches Some(i) && i <= k && list[i as int].id() == list[k].id()),
        0 <= k < list.len() && list[k] is Local && (saved matches Some(id) ==> forall|i: int|
            0 <= i < list.len() ==> (#[trigger] list[i]).id() != id) ==> (devices::restored(
            list,
            saved,
        ) matches Some(i) && i <= k && list[i as int] is Local),
        list.len() > 0 && (forall|i: int| 0 <= i < list.len() ==> (#[trigger] list[i]) is Cast) && (
        saved matches Some(id) ==> forall|i: int|
            0 <= i < list.len() ==> (#[trigger] list[i]).id() != id) ==> devices::restored(
            list,
            saved,
        ) == Some(0usize),
{
    let is_local = |d: OutputView| d is Local;
    devices::the_first_is_found(list, is_local);
    if let Some(id) = saved {
        let has_id = |d: OutputView| d.id() == id;
        devices::the_first_is_found(list, has_id);
        if let Some(i) = devices::first_where(list, has_id) {
            assert(has_id(list[i as int]));
        }
        if 0 <= k < list.len() {
            assert(has_id(list[k]) == (list[k].id() == id));
        }
    }
    if let Some(i) = devices::first_where(list, is_local) {
        assert(is_local(list[i as int]));
    }
    if 0 <= k < list.len() {
        assert(is_local(list[k]) == (list[k] is Local));
    }
}

/// A search is begun once, and told.
pub proof fn what_a_search_for_outputs_does(a: AppView)
    ensures
        a.flags.loading_devices ==> devices::searching(a) == a && devices::search_actions(a).len()
            == 0,
        !a.flags.loading_devices ==> {
            let b = devices::searching(a);
            &&& b.flags.loading_devices
            &&& b.flags.loading_stations == a.flags.loading_stations
            &&& b.shown.status == (SaidView {
                lang: a.choices.lang,
                phrase: PhraseView::SearchingDevices,
            })
            &&& b.lists == a.lists && b.playing == a.playing && b.voice == a.voice
            &&& devices::search_actions(a) == seq![ActionView::ScanDevices(a.choices.lang)]
        },
{
}

/// An output that is found is listed, and the user is told how many are.
pub proof fn what_an_output_that_is_found_does(a: AppView, d: OutputView)
    ensures
        ({
            let b = devices::found(a, d);
            &&& b.lists.devices == devices::local_first(devices::reported(a.lists.devices, d))
            &&& b.shown.status == (SaidView {
                lang: a.choices.lang,
                phrase: PhraseView::DevicesSoFar(b.lists.devices.len()),
            })
            &&& b.lists.stations == a.lists.stations && b.lists.selected_station
                == a.lists.selected_station
            &&& b.playing == a.playing && b.voice == a.voice && b.flags == a.flags && b.choices
                == a.choices && b.saving == a.saving
            &&& devices::voice_resumes(b) <==> a.voice.pending_play && !a.flags.loading_devices
                && !a.flags.shutting_down
            &&& !devices::resumed(b).voice.pending_play
        }),
{
}

/// The end of a search: it can be begun again, and the user is told what was found, or the
/// failure in its words.
pub proof fn what_the_end_of_a_search_does(a: AppView, report: Seq<char>)
    ensures
        ({
            let b = devices::search_ended(a, report);
            let local = a.lists.devices.filter(|d: OutputView| d is Local).len();
            let failure = text::has_text(report, "panic"@) || text::has_text(report, "Ошибка"@);
            &&& !b.flags.loading_devices
            &&& b.lists.devices == a.lists.devices
            &&& b.lists.selected_device == devices::restored(
                a.lists.devices,
                a.saving.settings.device_id,
            )
            &&& failure ==> b.shown.status == (SaidView {
                lang: a.choices.lang,
                phrase: PhraseView::Plain(report),
            })
            &&& !failure && local == a.lists.devices.len() ==> b.shown.status == (SaidView {
                lang: a.choices.lang,
                phrase: PhraseView::NoCast(local),
            })
            &&& !failure && local < a.lists.devices.len() ==> b.shown.status == (SaidView {
                lang: a.choices.lang,
                phrase: PhraseView::Found(
                    local,
                    (a.lists.devices.len() - local) as nat,
                    b.lists.device(),
                ),
            })
            &&& b.playing == a.playing && b.voice == a.voice && b.choices == a.choices
        }),
{
}

// ---------------------------------------------------------------------------
// Stations
// ---------------------------------------------------------------------------

/// Which station is selected of a list: the first with the address that was saved, else
/// what is selected, else the first.
pub proof fn which_station_is_selected(
    list: Seq<StationView>,
    saved: Option<Seq<char>>,
    selected: Option<usize>,
    k: int,
)
    requires
        list.len() <= usize::MAX,
    ensures
        0 <= k < list.len() && saved == Some(list[k].url) ==> (catalog::restored(
            list,
            saved,
            selected,
        ) matches Some(i) && i <= k && list[i as int].url == list[k].url),
        (saved matches Some(url) ==> forall|i: int|
            0 <= i < list.len() ==> (#[trigger] list[i]).url != url) ==> {
            &&& selected is Some ==> catalog::restored(list, saved, selected) == selected
            &&& selected is None && list.len() > 0 ==> catalog::restored(list, saved, selected)
                == Some(0usize)
            &&& selected is None && list.len() == 0 ==> catalog::restored(list, saved, selected)
                is None
        },
{
    if let Some(url) = saved {
        let has = |s: StationView| s.url == url;
        devices::the_first_is_found(list, has);
        if let Some(i) = devices::first_where(list, has) {
            assert(has(list[i as int]));
        }
        if 0 <= k < list.len() {
            assert(has(list[k]) == (list[k].url == url));
        }
    }
}

/// Leaving out a stream leaves all stations of other streams, and no other.
pub proof fn leaving_out_a_stream(list: Seq<StationView>, url: Seq<char>, x: StationView)
    ensures
        catalog::without(list, url).contains(x) <==> list.contains(x) && x.url != url,
{
    let stays = |s: StationView| s.url != url;
    moves::lemma_filtered(list, stays);
    assert(catalog::without(list, url) == list.filter(stays));
    assert(stays(x) == (x.url != url));
}

/// A server is asked only where it is in use and there is a token, at its address and with
/// that token. Stations are loaded once at a time, and the user is told.
pub proof fn what_loading_stations_does(a: AppView)
    ensures
        a.choices.rockserver_enabled && text::trimmed(a.choices.rockserver_bearer_token).len() > 0
            ==> catalog::server(a.choices) == Some(
            (a.choices.rockserver_url, a.choices.rockserver_bearer_token),
        ),
        !a.choices.rockserver_enabled || text::trimmed(a.choices.rockserver_bearer_token).len() == 0
            ==> catalog::server(a.choices) is None,
        a.flags.loading_stations ==> catalog::loading(a) == a && catalog::load_actions(a).len()
            == 0,
        !a.flags.loading_stations ==> {
            let b = catalog::loading(a);
            &&& b.flags.loading_stations
            &&& b.flags.loading_devices == a.flags.loading_devices
            &&& b.shown.status == (SaidView {
                lang: a.choices.lang,
                phrase: PhraseView::LoadingStations,
            })
            &&& b.lists == a.lists && b.playing == a.playing && b.voice == a.voice
            &&& catalog::load_actions(a) == seq![
                ActionView::LoadStations(a.choices.lang, catalog::server(a.choices)),
            ]
        },
{
}

/// Stations that were loaded are listed with where they come from, and the user is told how
/// many there are. Loading goes on until they are all there.
pub proof fn what_loaded_stations_do(
    a: AppView,
    list: Seq<StationView>,
    source: Seq<char>,
    finished: bool,
)
    ensures
        ({
            let b = catalog::loaded(a, list, source, finished);
            &&& b.lists.stations == list
            &&& b.lists.source == source
            &&& b.lists.selected_station == catalog::restored(
                list,
                a.saving.settings.station_url,
                a.lists.selected_station,
            )
            &&& b.lists.devices == a.lists.devices && b.lists.selected_device
                == a.lists.selected_device
            &&& b.flags.loading_stations <==> !finished
            &&& b.flags.loading_devices == a.flags.loading_devices
            &&& b.shown.status == (SaidView {
                lang: a.choices.lang,
                phrase: PhraseView::StationsCount(list.len()),
            })
            &&& b.playing == a.playing && b.voice == a.voice && b.choices == a.choices && b.saving
                == a.saving
        }),
{
}

/// Another language: it is saved, the window and the hint are in it, outputs are searched
/// for anew, and where the stations come from is said in it.
pub proof fn what_another_language_does(
    a: AppView,
    lang: Lang,
    local_catalog: Seq<char>,
    catalog_plus_rb: Seq<char>,
    now: u64,
)
    ensures
        ({
            let b = catalog::translated(a, lang, local_catalog, catalog_plus_rb, now);
            let out = catalog::language_actions(a, lang);
            let here = text::has_text(a.lists.source, "локаль"@) || text::has_text(
                a.lists.source,
                "local catalog"@,
            ) || !text::has_text(a.lists.source, "Radio Browser"@);
            &&& b.choices.lang == lang
            &&& b.choices.volume == a.choices.volume && b.choices.cast_relay
                == a.choices.cast_relay
            &&& b.saving.settings.language == lang && !b.saving.dirty
            &&& b.shown.track == (SaidView {
                lang,
                phrase: if a.playing.on {
                    PhraseView::TrackMetaHint
                } else {
                    PhraseView::TrackHint
                },
            })
            &&& b.flags.loading_devices
            &&& a.lists.stations.len() == 0 ==> b.lists.source == a.lists.source
            &&& a.lists.stations.len() > 0 && here ==> b.lists.source == local_catalog
            &&& a.lists.stations.len() > 0 && !here ==> b.lists.source == catalog_plus_rb
            &&& b.lists.stations == a.lists.stations && b.lists.devices == a.lists.devices
            &&& b.playing == a.playing && b.voice == a.voice
            &&& out.len() >= 2
            &&& out[0] matches ActionView::Save(s) && s.language == lang
            &&& out[1] == ActionView::WindowTitle(lang)
            &&& !a.flags.loading_devices ==> out.len() == 3 && out[2] == ActionView::ScanDevices(
                lang,
            )
            &&& a.flags.loading_devices ==> out.len() == 2
        }),
{
}

// ---------------------------------------------------------------------------
// What is shown
// ---------------------------------------------------------------------------

/// A station's line: its name and tags as far as they fit, its bit rate and codec as far as
/// they are known, whether it is selected, and every second line striped.
pub proof fn what_a_line_shows(s: StationView, i: int, selected: Option<usize>)
    ensures
        ({
            let r = panels::row_of(s, i, selected);
            &&& s.name.len() <= 48 ==> r.name == s.name
            &&& s.name.len() > 48 ==> r.name == s.name.take(47).push('…')
            &&& s.tags.len() <= 42 ==> r.tags == s.tags
            &&& s.tags.len() > 42 ==> r.tags == s.tags.take(41).push('…')
            &&& s.bitrate == 0 ==> r.meta == s.codec
            &&& s.bitrate > 0 && s.codec.len() == 0 ==> r.meta == text::decimal(s.bitrate as nat)
                + "k"@
            &&& s.bitrate > 0 && s.codec.len() > 0 ==> r.meta == text::decimal(s.bitrate as nat)
                + "k"@ + " / "@ + s.codec
            &&& r.selected <==> (selected matches Some(k) && k == i)
            &&& r.striped <==> i % 2 == 1
        }),
{
}

/// A percentage takes four characters, of which the last is the sign.
pub proof fn a_percentage_takes_four_characters(n: u8)
    requires
        n <= 100,
    ensures
        panels::percent_text(n).len() == 4,
        panels::percent_text(n)[3] == '%',
        n < 10 ==> panels::percent_text(n).take(2) == seq![' ', ' '] && panels::percent_text(n)[2]
            as int == 48 + n,
        10 <= n < 100 ==> panels::percent_text(n)[0] == ' ' && panels::percent_text(n)[1] as int
            == 48 + n / 10 && panels::percent_text(n)[2] as int == 48 + n % 10,
{
    reveal_strlit("  ");
    reveal_strlit(" ");
    reveal_strlit("%");
    reveal_with_fuel(text::decimal, 4);
    let d = text::decimal(n as nat);
    if n < 10 {
        assert(d.len() == 1);
        assert(panels::percent_text(n).take(2) =~= seq![' ', ' ']);
    } else if n < 100 {
        assert(d.len() == 2);
    } else {
        assert(d.len() == 3);
    }
}

/// The address of a server is shown without white space at its ends, as far as it fits.
pub proof fn what_is_shown_of_a_server(url: Seq<char>, c: ChoicesView)
    ensures
        text::trimmed(url).len() == 0 ==> panels::url_hint_of(url) is None,
        0 < text::trimmed(url).len() <= 42 ==> panels::url_hint_of(url) == Some(
            "· "@ + text::trimmed(url),
        ),
        text::trimmed(url).len() > 42 ==> panels::url_hint_of(url) == Some(
            "· "@ + text::trimmed(url).take(41).push('…'),
        ),
        panels::token_is_saved(c) <==> text::trimmed(c.rockserver_bearer_token).len() > 0,
{
}

/// Switching a server changes that choice and no other, and the settings with it.
pub proof fn what_switching_a_server_does(a: AppView, enabled: bool)
    ensures
        ({
            let b = panels::server_set(a, enabled);
            &&& b.choices == (ChoicesView { rockserver_enabled: enabled, ..a.choices })
            &&& b.saving.settings.rockserver_enabled == enabled && b.saving.dirty
            &&& b.lists == a.lists && b.playing == a.playing && b.voice == a.voice && b.flags
                == a.flags && b.shown == a.shown
        }),
{
}

/// A favourite is shown by its name, or by its identity where that is not known, and can
/// be played; so is a play, with its identity and its time.
pub proof fn what_personal_lines_show(p: ProfileView, i: int)
    ensures
        0 <= i < p.favourites.len() ==> {
            let f = p.favourites[i];
            let r = personal::favourite_rows(p)[i];
            &&& f.metadata.name matches Some(n) ==> r.name == n
            &&& f.metadata.name is None ==> r.name == f.station_id
            &&& r.station_id == f.station_id && r.detail is None && r.available
        },
        0 <= i < p.history.len() ==> {
            let h = p.history[i];
            let r = personal::history_rows(p)[i];
            &&& h.metadata.name matches Some(n) ==> r.name == n
            &&& h.metadata.name is None ==> r.name == h.station_id
            &&& r.station_id == h.station_id && r.available
            &&& r.detail == Some(h.station_id + " · "@ + h.last_played_at)
        },
        personal::favourite_rows(p).len() >= p.favourites.len(),
        personal::history_rows(p).len() >= p.history.len(),
{
}

proof fn lemma_unavailable(list: Seq<UnresolvedView>, kind: Seq<char>, i: int)
    requires
        0 <= i < list.len(),
        list[i].what.source_kind == kind,
    ensures
        personal::unavailable_rows(list, kind).contains(personal::unavailable_row(list[i])),
    decreases list.len(),
{
    let front = list.drop_last();
    let before = personal::unavailable_rows(front, kind);
    let r = personal::unavailable_rows(list, kind);
    if i < front.len() {
        lemma_unavailable(front, kind, i);
        let k = before.index_of(personal::unavailable_row(list[i]));
        assert(r[k] == before[k]);
    } else {
        assert(r[r.len() - 1] == personal::unavailable_row(list[i]));
    }
}

proof fn lemma_unavailable_from(list: Seq<UnresolvedView>, kind: Seq<char>, k: int) -> (i: int)
    requires
        0 <= k < personal::unavailable_rows(list, kind).len(),
    ensures
        0 <= i < list.len(),
        list[i].what.source_kind == kind,
        personal::unavailable_rows(list, kind)[k] == personal::unavailable_row(list[i]),
    decreases list.len(),
{
    let front = list.drop_last();
    let before = personal::unavailable_rows(front, kind);
    if k < before.len() {
        lemma_unavailable_from(front, kind, k)
    } else {
        list.len() - 1
    }
}

/// What was set aside is shown behind the rest, in the list that it came from, under the
/// identity that it had, and cannot be played.
pub proof fn what_was_set_aside_is_shown(p: ProfileView, i: int)
    requires
        0 <= i < p.unresolved.len(),
    ensures
        ({
            let u = p.unresolved[i].what;
            let row = personal::RowView {
                name: match u.name {
                    Some(n) => n,
                    None => u.original_station_id,
                },
                station_id: u.original_station_id,
                detail: Some("Station unavailable · "@ + u.original_station_id),
                available: false,
            };
            &&& u.source_kind == "favourite"@ ==> personal::favourite_rows(p).skip(
                p.favourites.len() as int,
            ).contains(row)
            &&& u.source_kind == "history"@ ==> personal::history_rows(p).skip(
                p.history.len() as int,
            ).contains(row)
        }),
{
    let u = p.unresolved[i].what;
    let row = personal::unavailable_row(p.unresolved[i]);
    if u.source_kind == "favourite"@ {
        lemma_unavailable(p.unresolved, "favourite"@, i);
        assert(personal::favourite_rows(p).skip(p.favourites.len() as int)
            =~= personal::unavailable_rows(p.unresolved, "favourite"@));
    }
    if u.source_kind == "history"@ {
        lemma_unavailable(p.unresolved, "history"@, i);
        assert(personal::history_rows(p).skip(p.history.len() as int)
            =~= personal::unavailable_rows(p.unresolved, "history"@));
    }
}

/// What is shown behind the favourites and the plays was set aside from them.
pub proof fn what_is_shown_behind_was_set_aside(p: ProfileView, k: int)
    ensures
        p.favourites.len() <= k < personal::favourite_rows(p).len() ==> exists|i: int|
            0 <= i < p.unresolved.len() && (#[trigger] p.unresolved[i]).what.source_kind
                == "favourite"@ && personal::favourite_rows(p)[k].station_id
                == p.unresolved[i].what.original_station_id,
        p.history.len() <= k < personal::history_rows(p).len() ==> exists|i: int|
            0 <= i < p.unresolved.len() && (#[trigger] p.unresolved[i]).what.source_kind
                == "history"@ && personal::history_rows(p)[k].station_id
                == p.unresolved[i].what.original_station_id,
{
    if p.favourites.len() <= k < personal::favourite_rows(p).len() {
        let i = lemma_unavailable_from(p.unresolved, "favourite"@, k - p.favourites.len());
        assert(personal::favourite_rows(p)[k] == personal::unavailable_row(p.unresolved[i]));
    }
    if p.history.len() <= k < personal::history_rows(p).len() {
        let i = lemma_unavailable_from(p.unresolved, "history"@, k - p.history.len());
        assert(personal::history_rows(p)[k] == personal::unavailable_row(p.unresolved[i]));
    }
}

/// A favourite or a play that is chosen has its station selected and played, the first of
/// the list with its identity; where the list has none, the user is told.
pub proof fn what_choosing_a_personal_line_does(
    a: AppView,
    id: Seq<char>,
    now: u64,
    k: int,
)
    requires
        a.lists.stations.len() <= usize::MAX,
    ensures
        0 <= k < a.lists.stations.len() && a.lists.stations[k].id == id && (forall|j: int|
            0 <= j < k ==> (#[trigger] a.lists.stations[j]).id != id) ==> {
            let b = personal::played_again(a, id, now);
            &&& b.lists.selected_station == Some(k as usize)
            &&& b.lists.scroll_to_station == Some(k as usize)
            &&& b.saving.settings.station_url == Some(a.lists.stations[k].url)
            &&& a.can_start() ==> (a.lists.device() matches Some(d) ==> personal::replay_actions(
                a,
                id,
            )[2] == ActionView::Play(
                a.lists.stations[k],
                d,
                a.choices.volume,
                a.choices.cast_relay && !(d is Local),
                a.choices.eq_enabled,
            ))
        },
        (forall|j: int| 0 <= j < a.lists.stations.len() ==> (#[trigger] a.lists.stations[j]).id
            != id) ==> personal::played_again(a, id, now).shown.status == (SaidView {
            lang: a.choices.lang,
            phrase: PhraseView::Plain("Station unavailable: "@ + id),
        }),
{
    let has = |s: StationView| s.id == id;
    devices::the_first_is_found(a.lists.stations, has);
    if let Some(i) = devices::first_where(a.lists.stations, has) {
        assert(has(a.lists.stations[i as int]));
    }
    if 0 <= k < a.lists.stations.len() {
        assert(has(a.lists.stations[k]) == (a.lists.stations[k].id == id));
    }
}

/// The mouse on the button is a press of it unless a command is under way, and the mouse
/// elsewhere is none.
pub proof fn the_mouse_presses_the_button(a: AppView)
    ensures
        !a.voice.busy ==> voice::pressed(a, true) == voice::listening(a),
        a.voice.busy ==> voice::pressed(a, true) == a,
        voice::pressed(a, false) == a,
{
}

/// Every output is shown by its label, in the order of the list.
pub proof fn outputs_are_shown_by_their_labels(
    list: Seq<OutputView>,
    this_pc: Seq<char>,
    i: int,
)
    requires
        0 <= i < list.len(),
    ensures
        panels::labels_of(list, this_pc).len() == list.len(),
        list[i] matches OutputView::Local(d) ==> panels::labels_of(list, this_pc)[i] == d.name
            + "  ["@ + this_pc + "]"@,
        list[i] matches OutputView::Cast(d) ==> (d.model.len() > 0 ==> panels::labels_of(
            list,
            this_pc,
        )[i] == d.name + "  ["@ + d.model + "]"@) && (d.model.len() == 0 ==> panels::labels_of(
            list,
            this_pc,
        )[i] == d.name + "  ["@ + "Chromecast"@ + "]"@),
{
}

/// A report while nothing is selected selects what was saved, else a local output.
pub proof fn a_report_selects_what_was_saved(
    l: ListsView,
    d: OutputView,
    saved: Option<Seq<char>>,
)
    requires
        l.device() is None,
    ensures
        devices::with_report(l, d, saved).selected_device == devices::restored(
            devices::with_report(l, d, saved).devices,
            saved,
        ),
        devices::with_report(l, d, saved).stations == l.stations,
        devices::with_report(l, d, saved).selected_station == l.selected_station,
{
}

/// Local outputs stand in front in their order, and receivers behind them in theirs.
pub proof fn outputs_keep_their_order(list: Seq<OutputView>, d: OutputView)
    ensures
        d is Local && (forall|i: int| 0 <= i < list.len() ==> (#[trigger] list[i]) is Local)
            ==> devices::local_first(list.push(d)) == devices::local_first(list).push(d),
        d is Cast ==> devices::local_first(list.push(d)) == devices::local_first(list).push(d),
{
    reveal(Seq::filter);
    let p = |x: OutputView| x is Local;
    let q = |x: OutputView| x is Cast;
    let more = list.push(d);
    assert(more.drop_last() =~= list);
    assert(more.last() == d);
    let a = list.filter(p);
    let b = list.filter(q);
    if d is Cast {
        assert(more.filter(p) == a);
        assert(more.filter(q) == b.push(d));
        assert(a + b.push(d) =~= (a + b).push(d));
    } else if forall|i: int| 0 <= i < list.len() ==> (#[trigger] list[i]) is Local {
        assert(more.filter(p) == a.push(d));
        assert(more.filter(q) == b);
        moves::lemma_filtered(list, q);
        assert(b.len() == 0) by {
            if b.len() > 0 {
                assert(b.contains(b[0]));
                assert(list.contains(b[0]) && q(b[0]));
            }
        }
        assert(a.push(d) + b =~= (a + b).push(d));
    }
}

} // verus!
