//! Favourites and history as they are shown, and played from.

use super::devices;
use super::play;
use super::state;
use super::state::{ActionView, AppAction, AppView, ListsView, RockCastApp};
use crate::order;
use crate::personal_data::records::{FavouriteView, HistoryView, UnresolvedView};
use crate::personal_data::{station_index_by_id, LocalProfile, ProfileView};
use crate::stations::StationView;
use crate::text;
use vstd::prelude::*;

verus! {

/// A line of favourites or of the history.
#[derive(Debug)]
pub struct PersonalRow {
    /// The station's name, or its identity where none is known.
    pub name: String,
    pub station_id: String,
    /// What stands below the name.
    pub detail: Option<String>,
    /// Whether the station can be played.
    pub available: bool,
}

/// The contents of a [`PersonalRow`].
#[verifier::ext_equal]
pub struct RowView {
    pub name: Seq<char>,
    pub station_id: Seq<char>,
    pub detail: Option<Seq<char>>,
    pub available: bool,
}

impl View for PersonalRow {
    type V = RowView;

    open spec fn view(&self) -> RowView {
        RowView {
            name: self.name@,
            station_id: self.station_id@,
            detail: text::maybe(self.detail),
            available: self.available,
        }
    }
}

/// A name, or an identity where there is none.
pub open spec fn name_or(name: Option<Seq<char>>, id: Seq<char>) -> Seq<char> {
    match name {
        Some(n) => n,
        None => id,
    }
}

fn named(name: &Option<String>, id: &String) -> (s: String)
    ensures
        s@ == name_or(text::maybe(*name), id@),
{
    match name {
        Some(n) => n.clone(),
        None => id.clone(),
    }
}

/// The line of a favourite.
pub open spec fn favourite_row(f: FavouriteView) -> RowView {
    RowView {
        name: name_or(f.metadata.name, f.station_id),
        station_id: f.station_id,
        detail: None,
        available: true,
    }
}

/// The line of a play: below the name stand the identity and the time.
pub open spec fn history_row(h: HistoryView) -> RowView {
    RowView {
        name: name_or(h.metadata.name, h.station_id),
        station_id: h.station_id,
        detail: Some(h.station_id + " · "@ + h.last_played_at),
        available: true,
    }
}

/// The line of a station that is no longer in the catalog.
pub open spec fn unavailable_row(u: UnresolvedView) -> RowView {
    RowView {
        name: name_or(u.what.name, u.what.original_station_id),
        station_id: u.what.original_station_id,
        detail: Some("Station unavailable · "@ + u.what.original_station_id),
        available: false,
    }
}

/// The lines of those that were set aside, as favourites or as plays.
pub open spec fn unavailable_rows(list: Seq<UnresolvedView>, kind: Seq<char>) -> Seq<RowView>
    decreases list.len(),
{
    if list.len() == 0 {
        Seq::empty()
    } else {
        let before = unavailable_rows(list.drop_last(), kind);
        if list.last().what.source_kind == kind {
            before.push(unavailable_row(list.last()))
        } else {
            before
        }
    }
}

/// The favourites as they are shown: those in the catalog, then those set aside.
pub open spec fn favourite_rows(p: ProfileView) -> Seq<RowView> {
    p.favourites.map_values(|f: FavouriteView| favourite_row(f)) + unavailable_rows(
        p.unresolved,
        "favourite"@,
    )
}

/// The history as it is shown: the plays in the catalog, then those set aside.
pub open spec fn history_rows(p: ProfileView) -> Seq<RowView> {
    p.history.map_values(|h: HistoryView| history_row(h)) + unavailable_rows(
        p.unresolved,
        "history"@,
    )
}

/// Adds the lines of those that were set aside.
fn add_unavailable(rows: Vec<PersonalRow>, profile: &LocalProfile, kind: &str) -> (out: Vec<
    PersonalRow,
>)
    ensures
        order::views(out@) == order::views(rows@) + unavailable_rows(
            profile@.unresolved,
            kind@,
        ),
{
    let ghost first = order::views(rows@);
    let ghost all = profile@.unresolved;
    let mut out = rows;
    let mut i: usize = 0;
    proof {
        assert(order::views(out@) =~= first + unavailable_rows(all.subrange(0, 0), kind@));
    }
    while i < profile.unresolved_references.len()
        invariant
            i <= profile.unresolved_references@.len(),
            all == profile@.unresolved,
            order::views(out@) == first + unavailable_rows(all.subrange(0, i as int), kind@),
        decreases profile.unresolved_references@.len() - i,
    {
        let ghost before = out@;
        let u = &profile.unresolved_references[i];
        proof {
            assert(all.subrange(0, i + 1).drop_last() =~= all.subrange(0, i as int));
            assert(all.subrange(0, i + 1).last() == u@);
        }
        if text::same(u.source_kind.as_str(), kind) {
            let detail = text::joined_two(
                "Station unavailable · ",
                u.original_station_id.as_str(),
            );
            let row = PersonalRow {
                name: named(&u.last_known_name, &u.original_station_id),
                station_id: u.original_station_id.clone(),
                detail: Some(detail),
                available: false,
            };
            let ghost held = row@;
            out.push(row);
            proof {
                assert(held == unavailable_row(u@));
                assert(order::views(out@) =~= order::views(before).push(held));
                assert(order::views(out@) =~= first + unavailable_rows(
                    all.subrange(0, i + 1),
                    kind@,
                ));
            }
        }
        i = i + 1;
    }
    proof {
        assert(all.subrange(0, i as int) =~= all);
    }
    out
}

/// The favourites as they are shown.
pub fn show_favourites(profile: &LocalProfile) -> (out: Vec<PersonalRow>)
    ensures
        order::views(out@) == favourite_rows(profile@),
{
    let ghost all = profile@.favourites.map_values(|f: FavouriteView| favourite_row(f));
    let mut out: Vec<PersonalRow> = Vec::new();
    let mut i: usize = 0;
    while i < profile.favourites.len()
        invariant
            i <= profile.favourites@.len(),
            all == profile@.favourites.map_values(|f: FavouriteView| favourite_row(f)),
            order::views(out@) == all.subrange(0, i as int),
        decreases profile.favourites@.len() - i,
    {
        let ghost before = out@;
        let f = &profile.favourites[i];
        let row = PersonalRow {
            name: named(&f.metadata.last_known_name, &f.station_id),
            station_id: f.station_id.clone(),
            detail: None,
            available: true,
        };
        let ghost held = row@;
        out.push(row);
        i = i + 1;
        proof {
            assert(held == all[i - 1]);
            assert(order::views(out@) =~= order::views(before).push(held));
            assert(order::views(out@) =~= all.subrange(0, i as int));
        }
    }
    proof {
        assert(all.subrange(0, i as int) =~= all);
    }
    add_unavailable(out, profile, "favourite")
}

/// The history as it is shown.
pub fn show_history(profile: &LocalProfile) -> (out: Vec<PersonalRow>)
    ensures
        order::views(out@) == history_rows(profile@),
{
    let ghost all = profile@.history.map_values(|h: HistoryView| history_row(h));
    let mut out: Vec<PersonalRow> = Vec::new();
    let mut i: usize = 0;
    while i < profile.playback_history.len()
        invariant
            i <= profile.playback_history@.len(),
            all == profile@.history.map_values(|h: HistoryView| history_row(h)),
            order::views(out@) == all.subrange(0, i as int),
        decreases profile.playback_history@.len() - i,
    {
        let ghost before = out@;
        let h = &profile.playback_history[i];
        let detail = text::joined_two(h.station_id.as_str(), " · ");
        let detail = text::joined_two(detail.as_str(), h.last_played_at.as_str());
        let row = PersonalRow {
            name: named(&h.metadata.last_known_name, &h.station_id),
            station_id: h.station_id.clone(),
            detail: Some(detail),
            available: true,
        };
        let ghost held = row@;
        out.push(row);
        i = i + 1;
        proof {
            assert(held == all[i - 1]);
            assert(order::views(out@) =~= order::views(before).push(held));
            assert(order::views(out@) =~= all.subrange(0, i as int));
        }
    }
    proof {
        assert(all.subrange(0, i as int) =~= all);
    }
    add_unavailable(out, profile, "history")
}

/// The player with this station selected and in sight.
pub open spec fn brought_up(a: AppView, i: usize) -> AppView {
    state::marked(
        AppView {
            lists: ListsView {
                selected_station: Some(i),
                scroll_to_station: Some(i),
                ..a.lists
            },
            ..a
        },
    )
}

/// The place of a station in the list.
pub open spec fn place_of(a: AppView, station_id: Seq<char>) -> Option<usize> {
    devices::first_where(a.lists.stations, |s: StationView| s.id == station_id)
}

/// The player, once a favourite or a play of the history was clicked.
pub open spec fn played_again(a: AppView, station_id: Seq<char>, now: u64) -> AppView {
    match place_of(a, station_id) {
        Some(i) => play::played(brought_up(a, i), now),
        None => a.with_status(a.choices.plain("Station unavailable: "@ + station_id)),
    }
}

/// What a click on a favourite or on a play of the history leads to.
pub open spec fn replay_actions(a: AppView, station_id: Seq<char>) -> Seq<ActionView> {
    match place_of(a, station_id) {
        Some(i) => play::play_actions(brought_up(a, i)),
        None => Seq::empty(),
    }
}

impl RockCastApp {
    /// Selects a station by its identity and plays it; says so where it is not listed.
    pub fn play_personal_station(&mut self, station_id: &str, now: u64) -> (out: Vec<AppAction>)
        ensures
            final(self)@ == played_again(old(self)@, station_id@, now),
            order::views(out@) == replay_actions(old(self)@, station_id@),
    {
        let ghost p = |s: StationView| s.id == station_id@;
        let ghost all = self@.lists.stations;
        let _total: usize = self.lists.stations.len();
        match station_index_by_id(self.lists.stations.as_slice(), station_id) {
            Some(i) => {
                proof {
                    devices::the_first_is_found(all, p);
                    assert(all[i as int] == self.lists.stations@[i as int]@);
                    assert forall|k: int| 0 <= k < i implies !p(#[trigger] all[k]) by {
                        assert(all[k] == self.lists.stations@[k]@);
                    }
                }
                self.lists.selected_station = Some(i);
                self.lists.scroll_to_station = Some(i);
                self.mark_settings_dirty();
                self.play(now)
            },
            None => {
                proof {
                    devices::the_first_is_found(all, p);
                    assert forall|k: int| 0 <= k < all.len() implies !p(#[trigger] all[k]) by {
                        assert(all[k] == self.lists.stations@[k]@);
                    }
                }
                let words = text::joined_two("Station unavailable: ", station_id);
                self.shown.status = self.choices.plain(words.as_str());
                play::nothing()
            },
        }
    }

    /// A station was added to the favourites, or removed; or that failed.
    pub fn favourite_toggled(&mut self, name: &str, result: Result<bool, String>)
        ensures
            final(self)@ == old(self)@.with_status(
                old(self)@.choices.plain(
                    match result {
                        Ok(true) => "Added to favourites: "@ + name@,
                        Ok(false) => "Removed from favourites: "@ + name@,
                        Err(e) => "Favourites unavailable: "@ + e@,
                    },
                ),
            ),
    {
        let words = match result {
            Ok(true) => text::joined_two("Added to favourites: ", name),
            Ok(false) => text::joined_two("Removed from favourites: ", name),
            Err(e) => text::joined_two("Favourites unavailable: ", e.as_str()),
        };
        self.shown.status = self.choices.plain(words.as_str());
    }

    /// The history was cleared; or that failed.
    pub fn history_cleared(&mut self, result: Result<(), String>)
        ensures
            final(self)@ == old(self)@.with_status(
                old(self)@.choices.plain(
                    match result {
                        Ok(_) => "Playback history cleared"@,
                        Err(e) => "History unavailable: "@ + e@,
                    },
                ),
            ),
    {
        let words = match result {
            Ok(_) => "Playback history cleared".to_string(),
            Err(e) => text::joined_two("History unavailable: ", e.as_str()),
        };
        self.shown.status = self.choices.plain(words.as_str());
    }
}

/// A station that is not listed is not played, and no other in its place: what is
/// selected stays selected.
pub proof fn a_missing_station_selects_no_other(a: AppView, station_id: Seq<char>, now: u64)
    requires
        a.lists.stations.len() <= usize::MAX,
        forall|k: int|
            0 <= k < a.lists.stations.len() ==> (#[trigger] a.lists.stations[k]).id != station_id,
    ensures
        played_again(a, station_id, now).lists == a.lists,
        played_again(a, station_id, now).playing == a.playing,
        replay_actions(a, station_id) == Seq::<ActionView>::empty(),
{
    devices::the_first_is_found(a.lists.stations, |s: StationView| s.id == station_id);
}

/// A favourite is found by its identity though its stream has moved.
pub proof fn favourites_follow_their_station(a: AppView, k: int, now: u64)
    requires
        0 <= k < a.lists.stations.len() <= usize::MAX,
        a.can_start(),
        a.lists.device() is Some,
    ensures
        played_again(a, a.lists.stations[k].id, now).lists.station() matches Some(s) && s.id
            == a.lists.stations[k].id,
        replay_actions(a, a.lists.stations[k].id).len() == 3,
{
    let id = a.lists.stations[k].id;
    devices::the_first_is_found(a.lists.stations, |s: StationView| s.id == id);
}

} // verus!
