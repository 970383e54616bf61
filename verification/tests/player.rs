//! The player as its user sees it.

use rockcast::app::catalog::{after_search, CatalogStep};
use rockcast::app::devices::same_output_device;
use rockcast::app::panels::{percent, station_meta, DeviceText, EmptyNote, ServerPanel};
use rockcast::app::personal::{show_favourites, show_history};
use rockcast::app::poll::{UiMsg, VoiceSearchResult};
use rockcast::app::state::{AppAction, AppSettings, Prompt, RockCastApp};
use rockcast::app::words::{truncate, Lang, Phrase, Said};
use rockcast::cast::client::service::CastDeviceInfo;
use rockcast::cast::discovery::DiscoveredDevice;
use rockcast::local::LocalDeviceInfo;
use rockcast::observers::ObserverAction;
use rockcast::output::OutputDevice;
use rockcast::personal_data::{CatalogResolver, PersonalDataStore};
use rockcast::playback::PlaybackEvent;
use rockcast::stations::Station;

fn settings() -> AppSettings {
    AppSettings {
        volume: 120,
        eq_enabled: true,
        cast_relay: false,
        language: Lang::Ru,
        rockserver_enabled: true,
        rockserver_url: " https://server ".to_string(),
        rockserver_bearer_token: "token".to_string(),
        station_url: Some("https://b".to_string()),
        device_id: None,
    }
}

fn station(id: &str) -> Station {
    Station::from_primary(
        id.to_string(),
        format!("Station {id}"),
        format!("https://{id}"),
        "rock".to_string(),
        "".to_string(),
        128,
        "mp3".to_string(),
    )
}

fn local(id: &str) -> OutputDevice {
    OutputDevice::Local(LocalDeviceInfo {
        id: id.to_string(),
        name: format!("Local {id}"),
        cpal_name: None,
    })
}

fn cast(id: &str, host: &str) -> OutputDevice {
    OutputDevice::Cast(CastDeviceInfo {
        discovered: DiscoveredDevice {
            name: format!("Cast {id}"),
            model: String::new(),
            host: host.to_string(),
            port: 8009,
            id: id.to_string(),
        },
    })
}

fn plain(said: &Said) -> String {
    match &said.phrase {
        Phrase::Plain(s) => s.clone(),
        other => panic!("{other:?}"),
    }
}

/// A player with stations a, b, c and one local output, ready to play.
fn ready() -> RockCastApp {
    let mut app = RockCastApp::new(settings());
    let begin = app.bootstrap();
    assert_eq!(begin.len(), 2);
    app.apply_message(
        UiMsg::Stations {
            list: vec![station("a"), station("b"), station("c")],
            source: "local catalog".to_string(),
            finished: true,
        },
        0,
    );
    app.apply_message(UiMsg::DeviceFound(cast("r", "h")), 0);
    app.apply_message(UiMsg::DeviceFound(local("l")), 0);
    app.apply_message(UiMsg::DevicesFinished("done".to_string()), 0);
    app
}

fn play_of(actions: &[AppAction]) -> Option<(String, String)> {
    actions.iter().find_map(|a| match a {
        AppAction::Play { station, device, .. } => {
            Some((station.id.clone(), device.id().to_string()))
        }
        _ => None,
    })
}

#[test]
fn the_player_starts_quiet() {
    let app = RockCastApp::new(settings());
    assert_eq!(app.choices.volume, 100);
    assert_eq!(app.shown.station, "—");
    assert!(!app.playing.on);
    assert_eq!(app.empty_note(), Some(EmptyNote::Empty));
}

#[test]
fn the_last_station_and_a_local_output_are_selected() {
    let app = ready();
    assert_eq!(app.lists.selected_station, Some(1));
    assert!(app.lists.devices[0].is_local());
    assert_eq!(app.lists.selected_device, Some(0));
    assert!(!app.flags.loading_devices);
    match &app.shown.status.phrase {
        Phrase::Found(1, 1, Some(d)) => assert_eq!(d.id(), "l"),
        other => panic!("{other:?}"),
    }
    assert_eq!(app.empty_note(), None);
}

#[test]
fn a_failed_search_is_told() {
    let mut app = ready();
    app.devices_finished("scan: panic".to_string());
    assert_eq!(plain(&app.shown.status), "scan: panic");
}

#[test]
fn playing_saves_and_plays() {
    let mut app = ready();
    let actions = app.play(5);
    assert!(matches!(actions[0], AppAction::Observe(ObserverAction::Stop)));
    match &actions[1] {
        AppAction::Save(s) => {
            assert_eq!(s.station_url.as_deref(), Some("https://b"));
            assert_eq!(s.device_id.as_deref(), Some("l"));
            assert_eq!(s.rockserver_url, "https://server");
        }
        other => panic!("{other:?}"),
    }
    assert_eq!(play_of(&actions), Some(("b".to_string(), "l".to_string())));
    assert_eq!(plain(&app.shown.status), "Play: Station b -> Local l");
    assert!(app.playing.op && app.playing.local && !app.playing.on);
    assert!(!app.saving.dirty);
}

#[test]
fn playing_needs_a_station_and_an_output() {
    let mut app = RockCastApp::new(settings());
    assert!(app.play(0).is_empty());
    assert!(matches!(app.shown.status.phrase, Phrase::PickStation));
    app.stations_loaded(vec![station("a")], String::new(), true);
    assert!(app.play(0).is_empty());
    assert!(matches!(app.shown.status.phrase, Phrase::PickDevice));
    app.refresh_devices();
    assert!(app.play(0).is_empty());
    assert!(matches!(app.shown.status.phrase, Phrase::SearchingDevices));
}

#[test]
fn a_stream_that_plays_is_watched() {
    let mut app = ready();
    app.choose_device(1);
    app.play(0);
    let actions = app.apply_event(
        PlaybackEvent::PlayOk {
            url: "https://b".to_string(),
            tap_url: Some("https://tap".to_string()),
            generation: 1,
            local: false,
        },
        false,
        1_000,
    );
    assert_eq!(actions.len(), 1);
    assert!(app.playing.on && !app.playing.op);
    assert!(app.poll_observers(1, None, 2_199).is_empty());
    assert_eq!(app.poll_observers(1, None, 2_200).len(), 2);
    app.titles_read(&vec!["one".to_string(), "two".to_string()]);
    assert_eq!(plain(&app.shown.track), "two");
    app.relay_title(Some("relay"));
    assert_eq!(plain(&app.shown.track), "two");
    assert!(app.needs_repaint(false));
    let stop = app.apply_event(PlaybackEvent::StopOk { generation: 1 }, false, 0);
    assert_eq!(stop.len(), 1);
    assert!(matches!(app.shown.status.phrase, Phrase::Stopped));
    assert!(!app.playing.on);
}

#[test]
fn the_relay_tells_titles() {
    let mut app = ready();
    app.choose_device(1);
    app.set_cast_relay(true, 0);
    app.play(0);
    app.apply_event(
        PlaybackEvent::PlayOk {
            url: "https://b".to_string(),
            tap_url: None,
            generation: 1,
            local: false,
        },
        true,
        0,
    );
    app.relay_title(Some("relay"));
    assert_eq!(plain(&app.shown.track), "relay");
    let again = app.set_cast_relay(false, 9);
    assert_eq!(play_of(&again), Some(("b".to_string(), "r".to_string())));
    assert!(app.set_cast_relay(false, 9).is_empty());
}

#[test]
fn a_station_that_fails_is_removed() {
    let mut app = ready();
    app.play(0);
    let actions = app.apply_event(
        PlaybackEvent::Error { message: "no stream".to_string(), generation: 1 },
        false,
        0,
    );
    assert_eq!(actions.len(), 1);
    assert_eq!(app.lists.selected_station, None);
    let ids: Vec<&str> = app.lists.stations.iter().map(|s| s.id.as_str()).collect();
    assert_eq!(ids, vec!["a", "c"]);
    assert_eq!(plain(&app.shown.status), "no stream");
}

#[test]
fn voice_finds_stations_and_falls_back() {
    let mut app = ready();
    let record = app.start_voice();
    assert!(matches!(record[0], AppAction::Say(Prompt::Beep)));
    assert!(matches!(&record[1], AppAction::Record { token, .. } if token == "token"));
    assert_eq!(app.voice_caption(), "Слушаю…");
    assert!(app.start_voice().is_empty());
    assert_eq!(app.voice_button(false, false).len(), 1);
    assert_eq!(app.voice_caption(), "Распознаю…");
    let found = VoiceSearchResult { stations: vec![station("x"), station("y")], auto_play: true };
    let actions = app.apply_message(UiMsg::VoiceResult(Ok(found)), 0);
    assert!(matches!(actions[0], AppAction::Say(Prompt::TurningOn)));
    assert_eq!(play_of(&actions), Some(("x".to_string(), "l".to_string())));
    assert_eq!(app.lists.source, "RockServer · голос · 2");
    let next = app.apply_event(
        PlaybackEvent::Error { message: "no".to_string(), generation: 1 },
        false,
        0,
    );
    assert_eq!(play_of(&next), Some(("y".to_string(), "l".to_string())));
    assert_eq!(app.lists.scroll_to_station, Some(0));
    let last = app.apply_event(
        PlaybackEvent::Error { message: "no".to_string(), generation: 2 },
        false,
        0,
    );
    assert_eq!(play_of(&last), None);
    assert_eq!(app.voice_caption(), "Голос");
}

#[test]
fn voice_waits_while_outputs_are_searched_for() {
    let mut app = ready();
    app.refresh_devices();
    let found = VoiceSearchResult { stations: vec![station("x")], auto_play: true };
    let actions = app.apply_message(UiMsg::VoiceResult(Ok(found)), 0);
    assert_eq!(actions.len(), 1);
    assert!(app.voice.pending_play);
    assert_eq!(
        plain(&app.shown.status),
        "Команда распознана; ожидаю аудиоустройство…"
    );
    app.devices_finished("done".to_string());
    let actions = app.device_found(local("m"), 0);
    assert_eq!(play_of(&actions), Some(("x".to_string(), "l".to_string())));
    assert!(!app.voice.pending_play);
}

#[test]
fn voice_lists_without_playing_and_tells_failures() {
    let mut app = ready();
    let found = VoiceSearchResult { stations: vec![station("x"), station("y")], auto_play: false };
    assert!(app.apply_message(UiMsg::VoiceResult(Ok(found)), 0).is_empty());
    assert_eq!(
        plain(&app.shown.status),
        "Найдено станций: 2. Список отсортирован по похожести."
    );
    assert!(app.voice.fallback.is_empty());
    let actions = app.apply_message(UiMsg::VoiceResult(Err("тишина".to_string())), 0);
    assert!(matches!(actions[0], AppAction::Say(Prompt::NotFound)));
    assert_eq!(plain(&app.shown.status), "Голосовое управление: тишина");
}

#[test]
fn voice_needs_a_token() {
    let mut app = ready();
    app.choices.rockserver_bearer_token = "  ".to_string();
    let actions = app.start_voice();
    assert!(matches!(actions[0], AppAction::Say(Prompt::TokenMissing)));
    assert!(app.flags.rockserver_setup_open);
    assert!(matches!(app.shown.status.phrase, Phrase::TokenRequired));
}

#[test]
fn stopping_gives_up_what_was_asked_for() {
    let mut app = ready();
    app.voice.pending_play = true;
    app.voice.fallback = vec![station("x")];
    let actions = app.stop();
    assert!(matches!(actions[1], AppAction::Stop));
    assert!(!app.voice.pending_play);
    assert!(app.voice.fallback.is_empty());
    assert_eq!(plain(&app.shown.status), "Stop…");
}

#[test]
fn the_end_comes_once() {
    let mut app = ready();
    let actions = app.shutdown_playback(9);
    assert!(matches!(actions.last(), Some(AppAction::Shutdown)));
    assert!(app.shutdown_playback(10).is_empty());
    assert!(app.play(11).is_empty());
    assert!(app.stop().is_empty());
}

#[test]
fn settings_wait_to_be_saved() {
    let mut app = ready();
    app.persist_settings_if_needed(true, 0);
    let volume = app.set_volume(30);
    assert!(matches!(volume, AppAction::Volume { local: true, volume: 30 }));
    assert!(app.persist_settings_if_needed(false, 399).is_empty());
    assert_eq!(app.persist_settings_if_needed(false, 400).len(), 1);
    assert!(app.persist_settings_if_needed(true, 401).is_empty());
}

#[test]
fn the_spectrum_can_be_hidden() {
    let mut app = ready();
    let actions = app.set_eq_enabled(false, false, None, 0);
    assert!(matches!(actions[0], AppAction::Save(_)));
    assert!(matches!(actions[1], AppAction::Observe(ObserverAction::Stop)));
    assert!(app.set_eq_enabled(false, false, None, 0).is_empty());
}

#[test]
fn another_language_searches_anew() {
    let mut app = ready();
    let actions =
        app.set_language(Lang::En, "3 local".to_string(), "3 and more".to_string(), 0);
    assert!(matches!(actions[0], AppAction::Save(_)));
    assert!(matches!(actions[1], AppAction::WindowTitle(Lang::En)));
    assert!(matches!(actions[2], AppAction::ScanDevices(Lang::En)));
    assert_eq!(app.lists.source, "3 local");
    app.lists.source = "catalog + Radio Browser".to_string();
    app.set_language(Lang::Ru, "3 local".to_string(), "3 and more".to_string(), 0);
    assert_eq!(app.lists.source, "3 and more");
}

#[test]
fn reports_of_one_output_are_one() {
    assert!(same_output_device(&cast("1", "h"), &cast("2", "h")));
    assert!(!same_output_device(&cast("1", "h"), &cast("1", "g")));
    assert!(!same_output_device(&cast("1", "h"), &local("1")));
    let mut app = ready();
    app.device_found(cast("r2", "h"), 0);
    assert_eq!(app.lists.devices.len(), 2);
    assert_eq!(app.lists.devices[1].id(), "r2");
    assert_eq!(app.lists.selected_device, Some(0));
}

#[test]
fn a_double_click_plays() {
    let mut app = ready();
    assert!(app.choose_station(2, false, 0).is_empty());
    let actions = app.choose_station(0, true, 0);
    assert_eq!(play_of(&actions), Some(("a".to_string(), "l".to_string())));
}

#[test]
fn a_server_is_searched_first() {
    match after_search(Some(Ok(vec![station("a")]))) {
        CatalogStep::Show { list, source } => {
            assert_eq!(list.len(), 1);
            assert_eq!(source, "RockServer · 1");
        }
        other => panic!("{other:?}"),
    }
    assert!(matches!(after_search(Some(Ok(vec![]))), CatalogStep::Enrich));
    assert!(matches!(after_search(Some(Err("x".to_string()))), CatalogStep::Enrich));
    assert!(matches!(after_search(None), CatalogStep::Enrich));
}

#[test]
fn texts_are_shortened() {
    assert_eq!(truncate("abc", 3), "abc");
    assert_eq!(truncate("abcd", 3), "ab…");
    assert_eq!(truncate("abcd", 0), "…");
    assert_eq!(station_meta(128, "mp3"), "128k / mp3");
    assert_eq!(station_meta(0, "mp3"), "mp3");
    assert_eq!(station_meta(64, ""), "64k");
    assert_eq!(percent(7), "  7%");
    assert_eq!(percent(42), " 42%");
    assert_eq!(percent(100), "100%");
}

#[test]
fn rows_are_shown() {
    let app = ready();
    let rows = app.station_rows();
    assert_eq!(rows.len(), 3);
    assert!(rows[1].selected && rows[1].striped);
    assert_eq!(rows[0].meta, "128k / mp3");
    assert_eq!(app.source_note(), Some("· local catalog".to_string()));
    let row = app.device_row("PC");
    assert_eq!(row.labels, vec!["Local l  [PC]".to_string(), "Cast r  [Chromecast]".to_string()]);
    assert!(matches!(&row.selected, DeviceText::Label(s) if s == "Local l  [PC]"));
    assert!(!row.cast_selected && row.can_search);
    let bare = RockCastApp::new(settings());
    assert!(matches!(bare.device_row("PC").selected, DeviceText::NoDevice));
}

#[test]
fn the_server_is_shown() {
    let mut app = ready();
    match app.server_panel() {
        ServerPanel::Summary { token_saved, url_hint } => {
            assert!(token_saved);
            assert_eq!(url_hint, Some("· https://server".to_string()));
        }
        other => panic!("{other:?}"),
    }
    app.set_rockserver_enabled(false);
    assert!(matches!(app.server_panel(), ServerPanel::Autonomous));
    app.choices.rockserver_bearer_token = String::new();
    app.set_rockserver_enabled(true);
    assert!(matches!(app.server_panel(), ServerPanel::Setup));
}

#[test]
fn favourites_are_shown_and_played() {
    let mut app = ready();
    let resolver = CatalogResolver::from_stations(&app.lists.stations, None);
    let mut store = PersonalDataStore::open(None, resolver).unwrap().0;
    let marked = store.toggle_favourite(&station("c")).unwrap();
    app.favourite_toggled("Station c", Ok(marked));
    assert_eq!(plain(&app.shown.status), "Added to favourites: Station c");
    store.record_play(&station("a")).unwrap();
    let rows = show_favourites(store.profile());
    assert_eq!(rows.len(), 1);
    assert_eq!(rows[0].name, "Station c");
    assert!(rows[0].available);
    let history = show_history(store.profile());
    assert_eq!(history.len(), 1);
    assert!(history[0].detail.as_ref().unwrap().starts_with("a · "));
    let actions = app.play_personal_station("c", 0);
    assert_eq!(play_of(&actions), Some(("c".to_string(), "l".to_string())));
    assert!(app.play_personal_station("zz", 0).is_empty());
    assert_eq!(plain(&app.shown.status), "Station unavailable: zz");
    app.history_cleared(Ok(()));
    assert_eq!(plain(&app.shown.status), "Playback history cleared");
    app.favourite_toggled("x", Err("disk".to_string()));
    assert_eq!(plain(&app.shown.status), "Favourites unavailable: disk");
}

#[test]
fn stations_gone_from_the_catalog_are_shown() {
    let a = station("a");
    let resolver = CatalogResolver::from_stations(&[a.clone()], None);
    let mut store = PersonalDataStore::open(None, resolver).unwrap().0;
    store.toggle_favourite(&a).unwrap();
    let (store, changed) = PersonalDataStore::open(
        Some(store.profile),
        CatalogResolver::from_stations(&[], None),
    )
    .unwrap();
    assert!(changed);
    let rows = show_favourites(store.profile());
    assert_eq!(rows.len(), 1);
    assert!(!rows[0].available);
    assert_eq!(rows[0].detail.as_deref(), Some("Station unavailable · a"));
    assert!(show_history(store.profile()).is_empty());
}
