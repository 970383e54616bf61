//! What the window shows, line by line.

use super::catalog;
use super::state;
use super::state::{AppAction, AppView, ChoicesView, Flags, RockCastApp};
use super::words;
use super::words::truncate;
use crate::order;
use crate::output::{OutputDevice, OutputView};
use crate::stations::{Station, StationView};
use crate::text;
use vstd::prelude::*;

verus! {

/// How many characters of a station's name are shown.
pub const NAME_CHARS: usize = 48;

/// How many characters of a station's tags are shown.
pub const TAG_CHARS: usize = 42;

/// How many characters of the status are shown.
pub const STATUS_CHARS: usize = 120;

/// How many characters of a server's address are shown.
pub const URL_CHARS: usize = 42;

/// A line of the list of stations.
#[derive(Debug)]
pub struct StationRow {
    pub name: String,
    pub tags: String,
    /// Bit rate and codec.
    pub meta: String,
    pub selected: bool,
    /// Every second line has a darker ground.
    pub striped: bool,
}

/// The contents of a [`StationRow`].
#[verifier::ext_equal]
pub struct StationRowView {
    pub name: Seq<char>,
    pub tags: Seq<char>,
    pub meta: Seq<char>,
    pub selected: bool,
    pub striped: bool,
}

impl View for StationRow {
    type V = StationRowView;

    open spec fn view(&self) -> StationRowView {
        StationRowView {
            name: self.name@,
            tags: self.tags@,
            meta: self.meta@,
            selected: self.selected,
            striped: self.striped,
        }
    }
}

/// Bit rate and codec, as far as they are known.
pub open spec fn meta_of(bitrate: u32, codec: Seq<char>) -> Seq<char> {
    let rate = text::decimal(bitrate as nat) + "k"@;
    if bitrate == 0 {
        codec
    } else if codec.len() == 0 {
        rate
    } else {
        rate + " / "@ + codec
    }
}

/// Bit rate and codec, as far as they are known.
pub fn station_meta(bitrate: u32, codec: &str) -> (s: String)
    ensures
        s@ == meta_of(bitrate, codec@),
        bitrate == 0 ==> s@ == codec@,
        bitrate > 0 && codec@.len() == 0 ==> s@ == text::decimal(bitrate as nat) + "k"@,
        bitrate > 0 && codec@.len() > 0 ==> s@ == text::decimal(bitrate as nat) + "k"@ + " / "@
            + codec@,
{
    if bitrate == 0 {
        return codec.to_string();
    }
    let rate = text::joined_two(text::decimal_text(bitrate as u64).as_str(), "k");
    if text::is_empty(codec) {
        return rate;
    }
    let s = text::joined_two(rate.as_str(), " / ");
    text::joined_two(s.as_str(), codec)
}

/// The line of a station.
pub open spec fn row_of(s: StationView, i: int, selected: Option<usize>) -> StationRowView {
    StationRowView {
        name: words::shortened(s.name, NAME_CHARS as nat),
        tags: words::shortened(s.tags, TAG_CHARS as nat),
        meta: meta_of(s.bitrate, s.codec),
        selected: selected matches Some(k) && k == i,
        striped: i % 2 == 1,
    }
}

/// The line of a station.
pub fn station_row(s: &Station, i: usize, selected: Option<usize>) -> (r: StationRow)
    ensures
        r@ == row_of(s@, i as int, selected),
{
    let is_selected = match selected {
        Some(k) => k == i,
        None => false,
    };
    StationRow {
        name: truncate(s.name.as_str(), NAME_CHARS),
        tags: truncate(s.tags.as_str(), TAG_CHARS),
        meta: station_meta(s.bitrate, s.codec.as_str()),
        selected: is_selected,
        striped: i % 2 == 1,
    }
}

/// What stands in the place of the list where there are no stations.
#[derive(Debug, Clone, Copy, PartialEq, Eq, Structural)]
pub enum EmptyNote {
    Loading,
    Empty,
}

/// What is selected among the outputs, as it is shown.
#[derive(Debug)]
pub enum DeviceText {
    Label(String),
    Searching,
    NoDevice,
}

/// The outputs as they are shown.
#[derive(Debug)]
pub struct DeviceRow {
    pub labels: Vec<String>,
    pub selected: DeviceText,
    /// A receiver is selected: the relay can be switched.
    pub cast_selected: bool,
    /// Outputs can be searched for.
    pub can_search: bool,
}

/// The labels of outputs.
pub open spec fn labels_of(devices: Seq<OutputView>, this_pc: Seq<char>) -> Seq<Seq<char>> {
    devices.map_values(|d: OutputView| d.label(this_pc))
}

fn labels(devices: &Vec<OutputDevice>, this_pc: &str) -> (out: Vec<String>)
    ensures
        text::texts(out@) == labels_of(order::views(devices@), this_pc@),
{
    let ghost all = labels_of(order::views(devices@), this_pc@);
    let mut out: Vec<String> = Vec::new();
    let mut i: usize = 0;
    while i < devices.len()
        invariant
            i <= devices@.len(),
            all == labels_of(order::views(devices@), this_pc@),
            text::texts(out@) == all.subrange(0, i as int),
        decreases devices@.len() - i,
    {
        let ghost before = out@;
        let label = devices[i].label(this_pc);
        let ghost held = label@;
        out.push(label);
        i = i + 1;
        proof {
            assert(held == all[i - 1]);
            assert(text::texts(out@) =~= text::texts(before).push(held));
            assert(text::texts(out@) =~= all.subrange(0, i as int));
        }
    }
    proof {
        assert(all.subrange(0, i as int) =~= all);
    }
    out
}

/// What is shown of the server that is searched.
#[derive(Debug)]
pub enum ServerPanel {
    /// It is not in use.
    Autonomous,
    /// It is in use: whether there is a token, and its address, where there is one.
    Summary { token_saved: bool, url_hint: Option<String> },
    /// Its settings.
    Setup,
}

/// The address of a server as it is shown, where there is one.
pub open spec fn url_hint_of(url: Seq<char>) -> Option<Seq<char>> {
    if text::trimmed(url).len() == 0 {
        None
    } else {
        Some("· "@ + words::shortened(text::trimmed(url), URL_CHARS as nat))
    }
}

/// Whether there is a token.
pub open spec fn token_is_saved(c: ChoicesView) -> bool {
    text::trimmed(c.rockserver_bearer_token).len() > 0
}

/// The player with the server in use or not, before stations are loaded anew.
pub open spec fn server_set(a: AppView, enabled: bool) -> AppView {
    state::marked(
        AppView { choices: ChoicesView { rockserver_enabled: enabled, ..a.choices }, ..a },
    )
}

/// A percentage of up to three digits, right-aligned.
pub open spec fn percent_text(n: u8) -> Seq<char> {
    let digits = text::decimal(n as nat);
    (if digits.len() == 1 {
        "  "@
    } else if digits.len() == 2 {
        " "@
    } else {
        Seq::empty()
    }) + digits + "%"@
}

/// A percentage of up to three digits, right-aligned.
pub fn percent(n: u8) -> (s: String)
    ensures
        s@ == percent_text(n),
{
    let digits = text::decimal_text(n as u64);
    let size: usize = text::char_count(digits.as_str());
    let pad = if size == 1 {
        "  "
    } else if size == 2 {
        " "
    } else {
        ""
    };
    proof {
        reveal_strlit("");
        assert(""@ =~= Seq::<char>::empty());
    }
    let s = text::joined_two(pad, digits.as_str());
    text::joined_two(s.as_str(), "%")
}

impl RockCastApp {
    /// The lines of the list of stations.
    pub fn station_rows(&self) -> (out: Vec<StationRow>)
        ensures
            order::views(out@).len() == self@.lists.stations.len(),
            forall|i: int|
                0 <= i < out@.len() ==> (#[trigger] out@[i])@ == row_of(
                    self@.lists.stations[i],
                    i,
                    self@.lists.selected_station,
                ),
    {
        let mut out: Vec<StationRow> = Vec::new();
        let mut i: usize = 0;
        while i < self.lists.stations.len()
            invariant
                i <= self.lists.stations@.len(),
                out@.len() == i,
                forall|k: int|
                    0 <= k < i ==> (#[trigger] out@[k])@ == row_of(
                        self@.lists.stations[k],
                        k,
                        self@.lists.selected_station,
                    ),
            decreases self.lists.stations@.len() - i,
        {
            out.push(station_row(&self.lists.stations[i], i, self.lists.selected_station));
            i = i + 1;
        }
        out
    }

    /// What stands in the place of the list where there are no stations.
    pub fn empty_note(&self) -> (r: Option<EmptyNote>)
        ensures
            r == if self@.lists.stations.len() > 0 {
                None
            } else if self@.flags.loading_stations {
                Some(EmptyNote::Loading)
            } else {
                Some(EmptyNote::Empty)
            },
    {
        proof {
            assert(self@.lists.stations.len() == self.lists.stations@.len());
        }
        if self.lists.stations.len() > 0 {
            None
        } else if self.flags.loading_stations {
            Some(EmptyNote::Loading)
        } else {
            Some(EmptyNote::Empty)
        }
    }

    /// Where the stations come from, as it is shown, unless nothing is known of it.
    pub fn source_note(&self) -> (r: Option<String>)
        ensures
            text::maybe(r) == if self@.lists.source.len() == 0 {
                None
            } else {
                Some("· "@ + self@.lists.source)
            },
    {
        if text::is_empty(self.lists.source.as_str()) {
            None
        } else {
            Some(text::joined_two("· ", self.lists.source.as_str()))
        }
    }

    /// The outputs as they are shown, where `this_pc` are the words for this computer.
    pub fn device_row(&self, this_pc: &str) -> (r: DeviceRow)
        ensures
            text::texts(r.labels@) == labels_of(self@.lists.devices, this_pc@),
            match r.selected {
                DeviceText::Label(s) => self@.lists.device() matches Some(d) && s@ == d.label(
                    this_pc@,
                ),
                DeviceText::Searching => self@.lists.device() is None && self@.lists.devices.len()
                    == 0 && self@.flags.loading_devices,
                DeviceText::NoDevice => self@.lists.device() is None && !(
                self@.lists.devices.len() == 0 && self@.flags.loading_devices),
            },
            r.cast_selected == (self@.lists.device() matches Some(d) && d is Cast),
            r.can_search == !self@.flags.loading_devices,
    {
        let list = labels(&self.lists.devices, this_pc);
        proof {
            assert(self@.lists.devices.len() == self.lists.devices@.len());
        }
        let device = self.lists.device();
        let cast_selected = match &device {
            Some(d) => !d.is_local(),
            None => false,
        };
        let selected = match device {
            Some(d) => DeviceText::Label(d.label(this_pc)),
            None => {
                if self.lists.devices.len() == 0 && self.flags.loading_devices {
                    DeviceText::Searching
                } else {
                    DeviceText::NoDevice
                }
            },
        };
        DeviceRow {
            labels: list,
            selected,
            cast_selected,
            can_search: !self.flags.loading_devices,
        }
    }

    /// What is shown of the server that is searched.
    pub fn server_panel(&self) -> (r: ServerPanel)
        ensures
            match r {
                ServerPanel::Autonomous => !self@.choices.rockserver_enabled,
                ServerPanel::Summary { token_saved, url_hint } => {
                    &&& self@.choices.rockserver_enabled
                    &&& !self@.flags.rockserver_setup_open
                    &&& token_saved == token_is_saved(self@.choices)
                    &&& text::maybe(url_hint) == url_hint_of(self@.choices.rockserver_url)
                },
                ServerPanel::Setup => self@.choices.rockserver_enabled
                    && self@.flags.rockserver_setup_open,
            },
    {
        if !self.choices.rockserver_enabled {
            return ServerPanel::Autonomous;
        }
        if self.flags.rockserver_setup_open {
            return ServerPanel::Setup;
        }
        let token = text::trim(self.choices.rockserver_bearer_token.as_str());
        let url = text::trim(self.choices.rockserver_url.as_str());
        let url_hint = if text::is_empty(url.as_str()) {
            None
        } else {
            let short = truncate(url.as_str(), URL_CHARS);
            Some(text::joined_two("· ", short.as_str()))
        };
        ServerPanel::Summary { token_saved: !text::is_empty(token.as_str()), url_hint }
    }

    /// Uses the server, or no longer. Stations are loaded anew; where a token is
    /// missing, the settings of the server are shown.
    pub fn set_rockserver_enabled(&mut self, enabled: bool) -> (out: Vec<AppAction>)
        ensures
            ({
                let a = server_set(old(self)@, enabled);
                let b = catalog::loading(a);
                &&& final(self)@ == (AppView {
                    flags: Flags {
                        rockserver_setup_open: enabled && (b.flags.rockserver_setup_open
                            || !token_is_saved(old(self)@.choices)),
                        ..b.flags
                    },
                    ..b
                })
                &&& order::views(out@) == catalog::load_actions(a)
            }),
    {
        let token = text::trim(self.choices.rockserver_bearer_token.as_str());
        let token_saved = !text::is_empty(token.as_str());
        self.choices.rockserver_enabled = enabled;
        self.mark_settings_dirty();
        let out = self.refresh_stations();
        if enabled && !token_saved {
            self.flags.rockserver_setup_open = true;
        }
        if !enabled {
            self.flags.rockserver_setup_open = false;
        }
        out
    }
}

/// A line of the list fits its columns.
pub proof fn rows_fit_their_columns(s: StationView, i: int, selected: Option<usize>)
    ensures
        row_of(s, i, selected).name.len() <= NAME_CHARS,
        row_of(s, i, selected).tags.len() <= TAG_CHARS,
{
    words::shortened_text_fits(s.name, NAME_CHARS as nat);
    words::shortened_text_fits(s.tags, TAG_CHARS as nat);
}

} // verus!
