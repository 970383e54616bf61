//! The stations: how they are loaded, listed and selected.

use super::devices;
use super::play;
use super::state;
use super::state::{
    ActionView, AppAction, AppView, ChoicesView, Flags, Lists, ListsView, RockCastApp, ShownView,
};
use super::words::{Lang, Phrase, PhraseView};
use crate::order;
use crate::stations::{Station, StationView};
use crate::text;
use vstd::prelude::*;

verus! {

/// The station that is selected once stations were loaded: the one of last time,
/// else the one that is selected, else the first.
pub open spec fn restored(
    stations: Seq<StationView>,
    saved: Option<Seq<char>>,
    selected: Option<usize>,
) -> Option<usize> {
    let by_url = match saved {
        Some(url) => devices::first_where(stations, |s: StationView| s.url == url),
        None => None,
    };
    if by_url is Some {
        by_url
    } else if selected is None && stations.len() > 0 {
        Some(0)
    } else {
        selected
    }
}

/// The stations but those with this stream.
pub open spec fn without(stations: Seq<StationView>, url: Seq<char>) -> Seq<StationView> {
    stations.filter(|s: StationView| s.url != url)
}

/// The stations but those with this stream.
pub fn retain_others(stations: &Vec<Station>, url: &str) -> (out: Vec<Station>)
    ensures
        order::views(out@) == without(order::views(stations@), url@),
{
    let ghost all = order::views(stations@);
    let ghost stays = |s: StationView| s.url != url@;
    let mut out: Vec<Station> = Vec::new();
    let mut i: usize = 0;
    proof {
        reveal(Seq::filter);
        assert(order::views(out@) =~= all.subrange(0, 0).filter(stays));
    }
    while i < stations.len()
        invariant
            i <= stations@.len(),
            all == order::views(stations@),
            stays == |s: StationView| s.url != url@,
            order::views(out@) == all.subrange(0, i as int).filter(stays),
        decreases stations@.len() - i,
    {
        let ghost before = out@;
        proof {
            reveal(Seq::filter);
            assert(all.subrange(0, i + 1).drop_last() =~= all.subrange(0, i as int));
            assert(all.subrange(0, i + 1).last() == stations@[i as int]@);
        }
        if !text::same(stations[i].url.as_str(), url) {
            out.push(stations[i].clone());
            proof {
                assert(order::views(out@) =~= order::views(before).push(all[i as int]));
            }
        }
        i = i + 1;
    }
    proof {
        assert(all.subrange(0, i as int) =~= all);
    }
    out
}

impl Lists {
    /// The first station with this stream.
    fn place_of_url(&self, url: &str) -> (r: Option<usize>)
        ensures
            r == devices::first_where(self@.stations, |s: StationView| s.url == url@),
    {
        let ghost p = |s: StationView| s.url == url@;
        let ghost all = self@.stations;
        let mut i: usize = 0;
        while i < self.stations.len()
            invariant
                i <= self.stations@.len(),
                all == self@.stations,
                p == |s: StationView| s.url == url@,
                devices::first_where(all.subrange(0, i as int), p) is None,
            decreases self.stations@.len() - i,
        {
            proof {
                assert(all.subrange(0, i + 1).drop_last() =~= all.subrange(0, i as int));
                assert(all.subrange(0, i + 1).last() == self.stations@[i as int]@);
            }
            if text::same(self.stations[i].url.as_str(), url) {
                proof {
                    devices::lemma_found(all, p, i as int);
                }
                return Some(i);
            }
            i = i + 1;
        }
        proof {
            assert(all.subrange(0, i as int) =~= all);
        }
        None
    }

    /// Selects the station of last time, where it is listed.
    pub fn restore_station(&mut self, saved: &Option<String>)
        ensures
            final(self)@ == (ListsView {
                selected_station: restored(
                    old(self)@.stations,
                    text::maybe(*saved),
                    old(self)@.selected_station,
                ),
                ..old(self)@
            }),
    {
        if let Some(url) = saved {
            let place = self.place_of_url(url.as_str());
            if place.is_some() {
                self.selected_station = place;
                return;
            }
        }
        if self.selected_station.is_none() && self.stations.len() > 0 {
            self.selected_station = Some(0);
        }
    }
}

/// The server that is searched for stations: the one that was set, where it is in use
/// and there is a token for it.
pub open spec fn server(c: ChoicesView) -> Option<(Seq<char>, Seq<char>)> {
    if c.rockserver_enabled && text::trimmed(c.rockserver_bearer_token).len() > 0 {
        Some((c.rockserver_url, c.rockserver_bearer_token))
    } else {
        None
    }
}

/// The player, while it loads stations.
pub open spec fn loading(a: AppView) -> AppView {
    if a.flags.loading_stations {
        a
    } else {
        AppView {
            flags: Flags { loading_stations: true, ..a.flags },
            ..a.with_status(a.choices.say(PhraseView::LoadingStations))
        }
    }
}

/// What loading stations takes.
pub open spec fn load_actions(a: AppView) -> Seq<ActionView> {
    if a.flags.loading_stations {
        Seq::empty()
    } else {
        seq![ActionView::LoadStations(a.choices.lang, server(a.choices))]
    }
}

/// The player, once stations were loaded.
pub open spec fn loaded(
    a: AppView,
    list: Seq<StationView>,
    source: Seq<char>,
    finished: bool,
) -> AppView {
    AppView {
        lists: ListsView {
            stations: list,
            source,
            selected_station: restored(
                list,
                a.saving.settings.station_url,
                a.lists.selected_station,
            ),
            ..a.lists
        },
        flags: Flags { loading_stations: !finished, ..a.flags },
        ..a.with_status(a.choices.say(PhraseView::StationsCount(list.len())))
    }
}

/// What to do with what a server found.
#[derive(Debug)]
pub enum CatalogStep {
    /// Show these stations, and be done.
    Show { list: Vec<Station>, source: String },
    /// Add to the stations of the catalog from elsewhere.
    Enrich,
}

/// What to do with what a server found: its stations are shown where there are any;
/// where there are none, where it failed, and where none was searched, the catalog is
/// added to from elsewhere.
pub fn after_search(found: Option<Result<Vec<Station>, String>>) -> (r: CatalogStep)
    ensures
        match (found, r) {
            (Some(Ok(list)), CatalogStep::Show { list: shown, source }) => {
                &&& list@.len() > 0
                &&& shown == list
                &&& source@ == "RockServer · "@ + text::decimal(list@.len())
            },
            (Some(Ok(list)), CatalogStep::Enrich) => list@.len() == 0,
            (_, r) => r is Enrich,
        },
{
    match found {
        Some(Ok(list)) => {
            let n: usize = list.len();
            if n == 0 {
                return CatalogStep::Enrich;
            }
            let source = text::joined_two(
                "RockServer · ",
                text::decimal_text(n as u64).as_str(),
            );
            CatalogStep::Show { list, source }
        },
        _ => CatalogStep::Enrich,
    }
}

/// Whether the stations come from this computer alone, by what is said of them.
pub open spec fn is_local_source(source: Seq<char>) -> bool {
    text::has_text(source, "локаль"@) || text::has_text(source, "local catalog"@)
        || !text::has_text(source, "Radio Browser"@)
}

/// The player in another language, before outputs are searched for anew.
pub open spec fn spoken(a: AppView, lang: Lang) -> AppView {
    AppView { choices: ChoicesView { lang, ..a.choices }, ..a }
}

/// The player in another language. What is said of the stations is said anew.
pub open spec fn translated(
    a: AppView,
    lang: Lang,
    local_catalog: Seq<char>,
    catalog_plus_rb: Seq<char>,
    now: u64,
) -> AppView {
    let kept = state::persisted(state::marked(spoken(a, lang)), true, now);
    let hinted = AppView {
        shown: ShownView {
            track: kept.choices.say(
                if a.playing.on {
                    PhraseView::TrackMetaHint
                } else {
                    PhraseView::TrackHint
                },
            ),
            ..kept.shown
        },
        ..kept
    };
    let sought = devices::searching(hinted);
    AppView {
        lists: ListsView {
            source: if a.lists.stations.len() == 0 {
                a.lists.source
            } else if is_local_source(a.lists.source) {
                local_catalog
            } else {
                catalog_plus_rb
            },
            ..a.lists
        },
        ..sought
    }
}

/// What another language takes.
pub open spec fn language_actions(a: AppView, lang: Lang) -> Seq<ActionView> {
    seq![
        ActionView::Save(state::marked(spoken(a, lang)).saving.settings),
        ActionView::WindowTitle(lang),
    ] + devices::search_actions(spoken(a, lang))
}

impl RockCastApp {
    /// Selects the station of last time, where it is listed.
    pub fn restore_station_selection(&mut self)
        ensures
            final(self)@ == (AppView {
                lists: ListsView {
                    selected_station: restored(
                        old(self)@.lists.stations,
                        old(self)@.saving.settings.station_url,
                        old(self)@.lists.selected_station,
                    ),
                    ..old(self)@.lists
                },
                ..old(self)@
            }),
    {
        self.lists.restore_station(&self.saving.settings.station_url);
    }

    /// Loads the stations, unless that is under way.
    pub fn refresh_stations(&mut self) -> (out: Vec<AppAction>)
        ensures
            final(self)@ == loading(old(self)@),
            order::views(out@) == load_actions(old(self)@),
    {
        if self.flags.loading_stations {
            return play::nothing();
        }
        self.flags.loading_stations = true;
        self.shown.status = self.choices.say(Phrase::LoadingStations);
        let token = text::trim(self.choices.rockserver_bearer_token.as_str());
        let server = if self.choices.rockserver_enabled && !text::is_empty(token.as_str()) {
            Some(
                (
                    self.choices.rockserver_url.clone(),
                    self.choices.rockserver_bearer_token.clone(),
                ),
            )
        } else {
            None
        };
        play::one(AppAction::LoadStations { lang: self.choices.lang, server })
    }

    /// Loads the stations and searches for outputs, once.
    pub fn bootstrap(&mut self) -> (out: Vec<AppAction>)
        ensures
            old(self)@.flags.bootstrapped ==> final(self)@ == old(self)@ && order::views(out@)
                == Seq::<ActionView>::empty(),
            !old(self)@.flags.bootstrapped ==> {
                let begun = AppView {
                    flags: Flags { bootstrapped: true, ..old(self)@.flags },
                    ..old(self)@
                };
                &&& final(self)@ == devices::searching(loading(begun))
                &&& order::views(out@) == load_actions(begun) + devices::search_actions(
                    loading(begun),
                )
            },
    {
        if self.flags.bootstrapped {
            return play::nothing();
        }
        self.flags.bootstrapped = true;
        let stations = self.refresh_stations();
        let outputs = self.refresh_devices();
        play::all_of(stations, outputs)
    }

    /// Stations were loaded, and are all there are where `finished`.
    pub fn stations_loaded(&mut self, list: Vec<Station>, source: String, finished: bool)
        ensures
            final(self)@ == loaded(old(self)@, order::views(list@), source@, finished),
    {
        let n: usize = list.len();
        self.lists.stations = list;
        self.lists.source = source;
        self.restore_station_selection();
        self.flags.loading_stations = !finished;
        self.shown.status = self.choices.say(Phrase::StationsCount(n));
        proof {
            assert(self@.lists.stations.len() == n);
        }
    }

    /// The user selects a station, and plays it where it was a double click.
    pub fn choose_station(&mut self, i: usize, double: bool, now: u64) -> (out: Vec<AppAction>)
        ensures
            ({
                let chosen = state::marked(
                    AppView {
                        lists: ListsView { selected_station: Some(i), ..old(self)@.lists },
                        ..old(self)@
                    },
                );
                if double {
                    &&& final(self)@ == play::played(chosen, now)
                    &&& order::views(out@) == play::play_actions(chosen)
                } else {
                    &&& final(self)@ == chosen
                    &&& order::views(out@) == Seq::<ActionView>::empty()
                }
            }),
    {
        self.lists.selected_station = Some(i);
        self.mark_settings_dirty();
        if double {
            self.play(now)
        } else {
            play::nothing()
        }
    }

    /// Speaks another language. `local_catalog` and `catalog_plus_rb` say in that
    /// language how many stations there are, and where they come from.
    pub fn set_language(
        &mut self,
        lang: Lang,
        local_catalog: String,
        catalog_plus_rb: String,
        now: u64,
    ) -> (out: Vec<AppAction>)
        ensures
            final(self)@ == translated(
                old(self)@,
                lang,
                local_catalog@,
                catalog_plus_rb@,
                now,
            ),
            order::views(out@) == language_actions(old(self)@, lang),
    {
        self.choices.lang = lang;
        self.mark_settings_dirty();
        let save = self.persist_settings_if_needed(true, now);
        if !self.playing.on {
            self.shown.track = self.choices.say(Phrase::TrackHint);
        } else {
            self.shown.track = self.choices.say(Phrase::TrackMetaHint);
        }
        let outputs = self.refresh_devices();
        if self.lists.stations.len() > 0 {
            let source = self.lists.source.as_str();
            let localish = text::contains(source, "локаль") || text::contains(
                source,
                "local catalog",
            ) || !text::contains(source, "Radio Browser");
            self.lists.source = if localish {
                local_catalog
            } else {
                catalog_plus_rb
            };
        }
        proof {
            assert(self@.lists.stations.len() == self.lists.stations@.len());
        }
        let title = play::one(AppAction::WindowTitle(lang));
        let out = play::all_of(play::all_of(save, title), outputs);
        proof {
            assert(order::views(out@) =~= language_actions(old(self)@, lang));
        }
        out
    }
}

/// A station that was chosen before is selected again as soon as it is listed.
pub proof fn the_chosen_station_returns(
    stations: Seq<StationView>,
    url: Seq<char>,
    selected: Option<usize>,
    k: int,
)
    requires
        0 <= k < stations.len() <= usize::MAX,
        stations[k].url == url,
    ensures
        restored(stations, Some(url), selected) matches Some(i) && i < stations.len()
            && stations[i as int].url == url,
{
    devices::the_first_is_found(stations, |s: StationView| s.url == url);
}

/// While stations are loaded they are not loaded a second time, and a server without
/// a token is never searched.
pub proof fn stations_are_loaded_once(a: AppView)
    ensures
        load_actions(loading(a)) == Seq::<ActionView>::empty(),
        loading(loading(a)) == loading(a),
        text::trimmed(a.choices.rockserver_bearer_token).len() == 0 ==> server(a.choices) is None,
        !a.choices.rockserver_enabled ==> server(a.choices) is None,
{
}

} // verus!
