//! What the player knows, and what it has done by others.

use super::words::{Lang, Phrase, PhraseView, Said, SaidView};
use crate::observers;
use crate::observers::{ObserverAction, StreamObservers};
use crate::order;
use crate::output::{OutputDevice, OutputView};
use crate::stations::{Station, StationView};
use crate::text;
use vstd::prelude::*;

verus! {

/// How long changed settings wait to be saved, in milliseconds.
pub const SAVE_INTERVAL_MS: u64 = 400;

/// What is kept from one run to the next.
#[derive(Debug)]
pub struct AppSettings {
    pub volume: u8,
    pub eq_enabled: bool,
    pub cast_relay: bool,
    pub language: Lang,
    pub rockserver_enabled: bool,
    pub rockserver_url: String,
    pub rockserver_bearer_token: String,
    pub station_url: Option<String>,
    pub device_id: Option<String>,
}

/// The contents of [`AppSettings`].
#[verifier::ext_equal]
pub struct SettingsView {
    pub volume: u8,
    pub eq_enabled: bool,
    pub cast_relay: bool,
    pub language: Lang,
    pub rockserver_enabled: bool,
    pub rockserver_url: Seq<char>,
    pub rockserver_bearer_token: Seq<char>,
    pub station_url: Option<Seq<char>>,
    pub device_id: Option<Seq<char>>,
}

impl View for AppSettings {
    type V = SettingsView;

    open spec fn view(&self) -> SettingsView {
        SettingsView {
            volume: self.volume,
            eq_enabled: self.eq_enabled,
            cast_relay: self.cast_relay,
            language: self.language,
            rockserver_enabled: self.rockserver_enabled,
            rockserver_url: self.rockserver_url@,
            rockserver_bearer_token: self.rockserver_bearer_token@,
            station_url: text::maybe(self.station_url),
            device_id: text::maybe(self.device_id),
        }
    }
}

impl Clone for AppSettings {
    fn clone(&self) -> (r: AppSettings)
        ensures
            r@ == self@,
    {
        AppSettings {
            volume: self.volume,
            eq_enabled: self.eq_enabled,
            cast_relay: self.cast_relay,
            language: self.language,
            rockserver_enabled: self.rockserver_enabled,
            rockserver_url: self.rockserver_url.clone(),
            rockserver_bearer_token: self.rockserver_bearer_token.clone(),
            station_url: text::copy_maybe(&self.station_url),
            device_id: text::copy_maybe(&self.device_id),
        }
    }
}

/// A spoken prompt.
#[derive(Debug, Clone, Copy, PartialEq, Eq, Structural)]
pub enum Prompt {
    Beep,
    TurningOn,
    NotFound,
    TokenMissing,
}

/// What is to be done.
#[derive(Debug)]
pub enum AppAction {
    /// By the watchers of the stream.
    Observe(ObserverAction),
    /// Keep these settings.
    Save(AppSettings),
    /// Play a station.
    Play { station: Station, device: OutputDevice, volume: u8, relay: bool, eq: bool },
    /// Stop playing.
    Stop,
    /// Stop playing, and end.
    Shutdown,
    /// Set the volume of this computer, or of a receiver.
    Volume { local: bool, volume: u8 },
    /// Load the stations, searching a server for them where one is given.
    LoadStations { lang: Lang, server: Option<(String, String)> },
    /// Search for outputs.
    ScanDevices(Lang),
    /// Speak.
    Say(Prompt),
    /// Record a command, and have this server understand it with this token.
    Record { url: String, token: String },
    /// End the recording.
    EndRecording,
    /// Show the title of the window in this language.
    WindowTitle(Lang),
}

/// The contents of an [`AppAction`].
#[verifier::ext_equal]
pub enum ActionView {
    Observe(observers::ActionView),
    Save(SettingsView),
    Play(StationView, OutputView, u8, bool, bool),
    Stop,
    Shutdown,
    Volume(bool, u8),
    LoadStations(Lang, Option<(Seq<char>, Seq<char>)>),
    ScanDevices(Lang),
    Say(Prompt),
    Record(Seq<char>, Seq<char>),
    EndRecording,
    WindowTitle(Lang),
}

impl View for AppAction {
    type V = ActionView;

    open spec fn view(&self) -> ActionView {
        match self {
            AppAction::Observe(a) => ActionView::Observe(a@),
            AppAction::Save(s) => ActionView::Save(s@),
            AppAction::Play { station, device, volume, relay, eq } => ActionView::Play(
                station@,
                device@,
                *volume,
                *relay,
                *eq,
            ),
            AppAction::Stop => ActionView::Stop,
            AppAction::Shutdown => ActionView::Shutdown,
            AppAction::Volume { local, volume } => ActionView::Volume(*local, *volume),
            AppAction::LoadStations { lang, server } => ActionView::LoadStations(
                *lang,
                match server {
                    Some((url, token)) => Some((url@, token@)),
                    None => None,
                },
            ),
            AppAction::ScanDevices(lang) => ActionView::ScanDevices(*lang),
            AppAction::Say(p) => ActionView::Say(*p),
            AppAction::Record { url, token } => ActionView::Record(url@, token@),
            AppAction::EndRecording => ActionView::EndRecording,
            AppAction::WindowTitle(lang) => ActionView::WindowTitle(*lang),
        }
    }
}

/// The stations and the outputs, and what is selected.
#[derive(Debug)]
pub struct Lists {
    pub stations: Vec<Station>,
    pub devices: Vec<OutputDevice>,
    /// Where the stations come from, in words.
    pub source: String,
    pub selected_station: Option<usize>,
    pub selected_device: Option<usize>,
    /// The station that the list is to be scrolled to.
    pub scroll_to_station: Option<usize>,
}

/// The contents of [`Lists`].
pub struct ListsView {
    pub stations: Seq<StationView>,
    pub devices: Seq<OutputView>,
    pub source: Seq<char>,
    pub selected_station: Option<usize>,
    pub selected_device: Option<usize>,
    pub scroll_to_station: Option<usize>,
}

impl View for Lists {
    type V = ListsView;

    open spec fn view(&self) -> ListsView {
        ListsView {
            stations: order::views(self.stations@),
            devices: order::views(self.devices@),
            source: self.source@,
            selected_station: self.selected_station,
            selected_device: self.selected_device,
            scroll_to_station: self.scroll_to_station,
        }
    }
}

impl ListsView {
    /// The selected station.
    pub open spec fn station(self) -> Option<StationView> {
        match self.selected_station {
            Some(i) => if i < self.stations.len() {
                Some(self.stations[i as int])
            } else {
                None
            },
            None => None,
        }
    }

    /// The selected output.
    pub open spec fn device(self) -> Option<OutputView> {
        match self.selected_device {
            Some(i) => if i < self.devices.len() {
                Some(self.devices[i as int])
            } else {
                None
            },
            None => None,
        }
    }
}

impl Lists {
    /// The selected station.
    pub fn station(&self) -> (r: Option<Station>)
        ensures
            match r {
                Some(s) => self@.station() == Some(s@),
                None => self@.station() is None,
            },
    {
        match self.selected_station {
            Some(i) => {
                if i < self.stations.len() {
                    Some(self.stations[i].clone())
                } else {
                    None
                }
            },
            None => None,
        }
    }

    /// The selected output.
    pub fn device(&self) -> (r: Option<OutputDevice>)
        ensures
            match r {
                Some(d) => self@.device() == Some(d@),
                None => self@.device() is None,
            },
    {
        match self.selected_device {
            Some(i) => {
                if i < self.devices.len() {
                    Some(self.devices[i].clone())
                } else {
                    None
                }
            },
            None => None,
        }
    }
}

/// What the user reads.
#[derive(Debug)]
pub struct Shown {
    pub status: Said,
    /// The station that plays.
    pub station: String,
    /// What plays there.
    pub track: Said,
}

/// The contents of [`Shown`].
pub struct ShownView {
    pub status: SaidView,
    pub station: Seq<char>,
    pub track: SaidView,
}

impl View for Shown {
    type V = ShownView;

    open spec fn view(&self) -> ShownView {
        ShownView { status: self.status@, station: self.station@, track: self.track@ }
    }
}

/// Commands by voice.
#[derive(Debug)]
pub struct Voice {
    /// A command is being recorded or understood.
    pub busy: bool,
    /// A command is being recorded.
    pub recording: bool,
    /// The stations to try where the one before is not available.
    pub fallback: Vec<Station>,
    /// What was asked for plays as soon as there is an output.
    pub pending_play: bool,
}

/// The contents of [`Voice`].
pub struct VoiceView {
    pub busy: bool,
    pub recording: bool,
    pub fallback: Seq<StationView>,
    pub pending_play: bool,
}

impl View for Voice {
    type V = VoiceView;

    open spec fn view(&self) -> VoiceView {
        VoiceView {
            busy: self.busy,
            recording: self.recording,
            fallback: order::views(self.fallback@),
            pending_play: self.pending_play,
        }
    }
}

/// What plays.
#[derive(Debug)]
pub struct NowPlaying {
    /// Playing or stopping is under way.
    pub op: bool,
    pub on: bool,
    /// It plays on this computer.
    pub local: bool,
    pub url: Option<String>,
}

/// The contents of [`NowPlaying`].
pub struct NowView {
    pub op: bool,
    pub on: bool,
    pub local: bool,
    pub url: Option<Seq<char>>,
}

impl View for NowPlaying {
    type V = NowView;

    open spec fn view(&self) -> NowView {
        NowView { op: self.op, on: self.on, local: self.local, url: text::maybe(self.url) }
    }
}

/// What the user has set.
#[derive(Debug)]
pub struct Choices {
    pub volume: u8,
    pub eq_enabled: bool,
    /// Receivers get the stream through this computer.
    pub cast_relay: bool,
    pub lang: Lang,
    pub rockserver_enabled: bool,
    pub rockserver_url: String,
    pub rockserver_bearer_token: String,
}

/// The contents of [`Choices`].
pub struct ChoicesView {
    pub volume: u8,
    pub eq_enabled: bool,
    pub cast_relay: bool,
    pub lang: Lang,
    pub rockserver_enabled: bool,
    pub rockserver_url: Seq<char>,
    pub rockserver_bearer_token: Seq<char>,
}

impl View for Choices {
    type V = ChoicesView;

    open spec fn view(&self) -> ChoicesView {
        ChoicesView {
            volume: self.volume,
            eq_enabled: self.eq_enabled,
            cast_relay: self.cast_relay,
            lang: self.lang,
            rockserver_enabled: self.rockserver_enabled,
            rockserver_url: self.rockserver_url@,
            rockserver_bearer_token: self.rockserver_bearer_token@,
        }
    }
}

impl ChoicesView {
    /// A phrase in the language of the player.
    pub open spec fn say(self, phrase: PhraseView) -> SaidView {
        SaidView { lang: self.lang, phrase }
    }

    /// Words in the language of the player.
    pub open spec fn plain(self, words: Seq<char>) -> SaidView {
        SaidView { lang: self.lang, phrase: PhraseView::Plain(words) }
    }
}

impl Choices {
    /// A phrase in the language of the player.
    pub fn say(&self, phrase: Phrase) -> (s: Said)
        ensures
            s@ == self@.say(phrase@),
    {
        Said { lang: self.lang, phrase }
    }

    /// Words in the language of the player.
    pub fn plain(&self, words: &str) -> (s: Said)
        ensures
            s@ == self@.plain(words@),
    {
        Said { lang: self.lang, phrase: Phrase::Plain(words.to_string()) }
    }
}

/// The settings, and whether they are saved.
#[derive(Debug)]
pub struct Saving {
    pub settings: AppSettings,
    /// When they were last saved, in milliseconds.
    pub last: u64,
    pub dirty: bool,
}

/// The contents of [`Saving`].
pub struct SavingView {
    pub settings: SettingsView,
    pub last: u64,
    pub dirty: bool,
}

impl View for Saving {
    type V = SavingView;

    open spec fn view(&self) -> SavingView {
        SavingView { settings: self.settings@, last: self.last, dirty: self.dirty }
    }
}

/// What is open, and what is under way.
#[derive(Debug, Clone, Copy)]
pub struct Flags {
    pub loading_stations: bool,
    pub loading_devices: bool,
    pub shutting_down: bool,
    pub bootstrapped: bool,
    pub rockserver_setup_open: bool,
    pub favourites_open: bool,
    pub history_open: bool,
}

/// The player.
#[derive(Debug)]
pub struct RockCastApp {
    pub lists: Lists,
    pub shown: Shown,
    pub voice: Voice,
    pub playing: NowPlaying,
    pub choices: Choices,
    pub saving: Saving,
    pub flags: Flags,
    pub observers: StreamObservers,
}

/// The contents of a [`RockCastApp`].
pub struct AppView {
    pub lists: ListsView,
    pub shown: ShownView,
    pub voice: VoiceView,
    pub playing: NowView,
    pub choices: ChoicesView,
    pub saving: SavingView,
    pub flags: Flags,
    /// The start that the watchers of the stream wait for.
    pub observers: Option<(u128, u64, Seq<char>)>,
}

impl View for RockCastApp {
    type V = AppView;

    open spec fn view(&self) -> AppView {
        AppView {
            lists: self.lists@,
            shown: self.shown@,
            voice: self.voice@,
            playing: self.playing@,
            choices: self.choices@,
            saving: self.saving@,
            flags: self.flags,
            observers: observers::planned(self.observers.due),
        }
    }
}

impl AppView {
    /// Playing can begin.
    pub open spec fn can_start(self) -> bool {
        !self.flags.loading_devices && !self.flags.shutting_down
    }

    /// The player with another status.
    pub open spec fn with_status(self, status: SaidView) -> AppView {
        AppView { shown: ShownView { status, ..self.shown }, ..self }
    }
}

/// The settings, once they are taken over from what the player shows. What is not
/// selected leaves what was selected before.
pub open spec fn taken_over(lists: ListsView, choices: ChoicesView, before: SettingsView) -> SettingsView {
    SettingsView {
        volume: choices.volume,
        eq_enabled: choices.eq_enabled,
        cast_relay: choices.cast_relay,
        language: choices.lang,
        rockserver_enabled: choices.rockserver_enabled,
        rockserver_url: text::trimmed(choices.rockserver_url),
        rockserver_bearer_token: text::trimmed(choices.rockserver_bearer_token),
        station_url: match lists.station() {
            Some(s) => Some(s.url),
            None => before.station_url,
        },
        device_id: match lists.device() {
            Some(d) => Some(d.id()),
            None => before.device_id,
        },
    }
}

/// The player, once its settings were taken over.
pub open spec fn marked(a: AppView) -> AppView {
    AppView {
        saving: SavingView {
            settings: taken_over(a.lists, a.choices, a.saving.settings),
            dirty: true,
            ..a.saving
        },
        ..a
    }
}

/// Whether changed settings are to be saved now.
pub open spec fn save_is_due(s: SavingView, force: bool, now: u64) -> bool {
    s.dirty && (force || now - s.last >= SAVE_INTERVAL_MS)
}

/// The player, once changed settings were saved.
pub open spec fn persisted(a: AppView, force: bool, now: u64) -> AppView {
    if save_is_due(a.saving, force, now) {
        AppView { saving: SavingView { dirty: false, last: now, ..a.saving }, ..a }
    } else {
        a
    }
}

/// What saves changed settings.
pub open spec fn save_actions(a: AppView, force: bool, now: u64) -> Seq<ActionView> {
    if save_is_due(a.saving, force, now) {
        seq![ActionView::Save(a.saving.settings)]
    } else {
        Seq::empty()
    }
}

/// What the watchers have to do, as actions of the player.
pub open spec fn observing(v: Seq<observers::ActionView>) -> Seq<ActionView> {
    v.map_values(|a: observers::ActionView| ActionView::Observe(a))
}

/// The actions of the watchers as actions of the player.
pub fn observe(list: Vec<ObserverAction>) -> (out: Vec<AppAction>)
    ensures
        order::views(out@) == observing(observers::actions_of(list@)),
{
    let ghost all = observing(observers::actions_of(list@));
    let mut rest = list;
    let mut back: Vec<AppAction> = Vec::new();
    proof {
        assert(order::views(back@) =~= all.subrange(all.len() as int, all.len() as int).reverse());
    }
    while rest.len() > 0
        invariant
            rest@.len() <= list@.len(),
            all == observing(observers::actions_of(list@)),
            forall|i: int| 0 <= i < rest@.len() ==> rest@[i] == list@[i],
            order::views(back@) == all.subrange(rest@.len() as int, all.len() as int).reverse(),
        decreases rest@.len(),
    {
        let ghost n = rest@.len() - 1;
        let ghost before = back@;
        match rest.pop() {
            Some(a) => {
                let ghost held = a@;
                back.push(AppAction::Observe(a));
                proof {
                    assert(order::views(back@) =~= order::views(before).push(
                        ActionView::Observe(held),
                    ));
                    assert(all[n] == ActionView::Observe(held));
                    assert(order::views(back@) =~= all.subrange(n, all.len() as int).reverse());
                }
            },
            None => {},
        }
    }
    let mut out: Vec<AppAction> = Vec::new();
    let ghost reversed = order::views(back@);
    proof {
        assert(all.subrange(0, all.len() as int) =~= all);
        assert(reversed =~= all.reverse());
        assert(order::views(out@) =~= all.subrange(0, 0));
    }
    while back.len() > 0
        invariant
            back@.len() <= all.len(),
            order::views(back@) == all.reverse().subrange(0, back@.len() as int),
            order::views(out@) == all.subrange(0, all.len() - back@.len()),
        decreases back@.len(),
    {
        let ghost n = back@.len() - 1;
        let ghost (o, b) = (out@, back@);
        match back.pop() {
            Some(a) => {
                let ghost held = a@;
                out.push(a);
                proof {
                    assert(order::views(b)[n] == held);
                    assert(held == all[all.len() - 1 - n]);
                    assert(order::views(out@) =~= order::views(o).push(held));
                    assert(order::views(out@) =~= all.subrange(0, all.len() - n));
                    assert(order::views(back@) =~= all.reverse().subrange(0, n));
                }
            },
            None => {},
        }
    }
    proof {
        assert(all.subrange(0, all.len() as int) =~= all);
    }
    out
}

impl Saving {
    fn take_over(&mut self, lists: &Lists, choices: &Choices)
        ensures
            final(self)@ == (SavingView {
                settings: taken_over(lists@, choices@, old(self)@.settings),
                dirty: true,
                ..old(self)@
            }),
    {
        let station_url = match lists.station() {
            Some(station) => Some(station.url),
            None => text::copy_maybe(&self.settings.station_url),
        };
        let device_id = match lists.device() {
            Some(device) => Some(device.id().to_string()),
            None => text::copy_maybe(&self.settings.device_id),
        };
        self.settings = AppSettings {
            volume: choices.volume,
            eq_enabled: choices.eq_enabled,
            cast_relay: choices.cast_relay,
            language: choices.lang,
            rockserver_enabled: choices.rockserver_enabled,
            rockserver_url: text::trim(choices.rockserver_url.as_str()),
            rockserver_bearer_token: text::trim(choices.rockserver_bearer_token.as_str()),
            station_url,
            device_id,
        };
        self.dirty = true;
    }
}

impl RockCastApp {
    /// A player that was just started, with the settings of the last run.
    pub fn new(settings: AppSettings) -> (a: RockCastApp)
        ensures
            a@.lists == (ListsView {
                stations: Seq::empty(),
                devices: Seq::empty(),
                source: Seq::empty(),
                selected_station: None,
                selected_device: None,
                scroll_to_station: None,
            }),
            a@.shown == (ShownView {
                status: SaidView { lang: settings.language, phrase: PhraseView::Loading },
                station: "—"@,
                track: SaidView { lang: settings.language, phrase: PhraseView::TrackHint },
            }),
            a@.voice == (VoiceView {
                busy: false,
                recording: false,
                fallback: Seq::empty(),
                pending_play: false,
            }),
            a@.playing == (NowView { op: false, on: false, local: false, url: None }),
            a@.choices == (ChoicesView {
                volume: if settings.volume > 100 {
                    100
                } else {
                    settings.volume
                },
                eq_enabled: settings.eq_enabled,
                cast_relay: settings.cast_relay,
                lang: settings.language,
                rockserver_enabled: settings.rockserver_enabled,
                rockserver_url: settings.rockserver_url@,
                rockserver_bearer_token: settings.rockserver_bearer_token@,
            }),
            a@.saving == (SavingView { settings: settings@, last: 0, dirty: false }),
            a@.flags == (Flags {
                loading_stations: false,
                loading_devices: false,
                shutting_down: false,
                bootstrapped: false,
                rockserver_setup_open: false,
                favourites_open: false,
                history_open: false,
            }),
            a@.observers is None,
    {
        let lang = settings.language;
        let volume: u8 = if settings.volume > 100 {
            100
        } else {
            settings.volume
        };
        let lists = Lists {
            stations: Vec::new(),
            devices: Vec::new(),
            source: String::new(),
            selected_station: None,
            selected_device: None,
            scroll_to_station: None,
        };
        let voice = Voice {
            busy: false,
            recording: false,
            fallback: Vec::new(),
            pending_play: false,
        };
        proof {
            assert(lists@.stations =~= Seq::empty());
            assert(lists@.devices =~= Seq::empty());
            assert(lists@.source =~= Seq::empty());
            assert(voice@.fallback =~= Seq::empty());
        }
        let choices = Choices {
            volume,
            eq_enabled: settings.eq_enabled,
            cast_relay: settings.cast_relay,
            lang,
            rockserver_enabled: settings.rockserver_enabled,
            rockserver_url: settings.rockserver_url.clone(),
            rockserver_bearer_token: settings.rockserver_bearer_token.clone(),
        };
        RockCastApp {
            lists,
            shown: Shown {
                status: Said { lang, phrase: Phrase::Loading },
                station: "—".to_string(),
                track: Said { lang, phrase: Phrase::TrackHint },
            },
            voice,
            playing: NowPlaying { op: false, on: false, local: false, url: None },
            choices,
            saving: Saving { settings, last: 0, dirty: false },
            flags: Flags {
                loading_stations: false,
                loading_devices: false,
                shutting_down: false,
                bootstrapped: false,
                rockserver_setup_open: false,
                favourites_open: false,
                history_open: false,
            },
            observers: StreamObservers::new(),
        }
    }

    /// Whether playing can begin: not while outputs are searched for, nor at the end.
    pub fn can_start_play(&self) -> (r: bool)
        ensures
            r == self@.can_start(),
    {
        !self.flags.loading_devices && !self.flags.shutting_down
    }

    /// Takes the settings over from what the player shows.
    pub fn mark_settings_dirty(&mut self)
        ensures
            final(self)@ == marked(old(self)@),
    {
        self.saving.take_over(&self.lists, &self.choices);
    }

    /// Saves changed settings: at once where `force`, else where they were not saved
    /// just now. `now` is in milliseconds.
    pub fn persist_settings_if_needed(&mut self, force: bool, now: u64) -> (out: Vec<AppAction>)
        ensures
            final(self)@ == persisted(old(self)@, force, now),
            order::views(out@) == save_actions(old(self)@, force, now),
    {
        let mut out: Vec<AppAction> = Vec::new();
        proof {
            assert(order::views(out@) =~= Seq::empty());
        }
        if !self.saving.dirty {
            return out;
        }
        if !force && (now < self.saving.last || now - self.saving.last < SAVE_INTERVAL_MS) {
            return out;
        }
        self.saving.dirty = false;
        self.saving.last = now;
        let copy = self.saving.settings.clone();
        out.push(AppAction::Save(copy));
        proof {
            assert(order::views(out@) =~= seq![ActionView::Save(old(self)@.saving.settings)]);
        }
        out
    }
}

/// Settings that are taken over a second time stay as they are, and what was chosen
/// before is kept while nothing else is.
pub proof fn taking_over_settings_is_stable(a: AppView)
    ensures
        a.lists.station() is None ==> marked(a).saving.settings.station_url
            == a.saving.settings.station_url,
        a.lists.device() is None ==> marked(a).saving.settings.device_id
            == a.saving.settings.device_id,
        marked(marked(a)) == marked(a),
{
}

/// Settings that were saved are not saved again, unless something changes; and then
/// not at once, unless they have to be.
pub proof fn saved_settings_are_saved_once(a: AppView, force: bool, now: u64, later: u64)
    requires
        save_is_due(a.saving, force, now),
    ensures
        save_actions(persisted(a, force, now), true, later) == Seq::<ActionView>::empty(),
        save_is_due(marked(persisted(a, force, now)).saving, false, later) ==> later - now
            >= SAVE_INTERVAL_MS,
{
}

} // verus!
