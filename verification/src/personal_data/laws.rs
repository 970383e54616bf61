//! What holds of profiles whatever is done to them.

use crate::order;
use crate::order::Ranked;
use crate::personal_data as data;
use crate::text;
use data::catalog;
use data::catalog::CatalogView;
use data::records::{
    Favourite, FavouriteView, HistoryView, PlaybackHistoryEntry, SetAside, UnresolvedView,
};
use data::{ErrorView, ProfileView, COALESCE_NANOS, MAX_FAVOURITES, MAX_HISTORY};
use vstd::prelude::*;

verus! {

/// The order of favourites is one.
pub proof fn favourites_have_an_order()
    ensures
        order::rank_is_an_order::<Favourite>(),
{
    assert forall|a: FavouriteView, b: FavouriteView| #[trigger]
        Favourite::ranks_before(a, b) implies !Favourite::ranks_before(b, a) by {
        text::precedes_is_total(a.added_at, b.added_at);
        text::precedes_is_total(a.station_id, b.station_id);
    }
    assert forall|a: FavouriteView, b: FavouriteView, c: FavouriteView|
        !(#[trigger] Favourite::ranks_before(a, b)) && !(#[trigger] Favourite::ranks_before(
            b,
            c,
        )) implies !Favourite::ranks_before(a, c) by {
        lemma_not_before(a.added_at, b.added_at, c.added_at);
        lemma_not_before(a.station_id, b.station_id, c.station_id);
        text::precedes_is_total(a.added_at, b.added_at);
        text::precedes_is_total(b.added_at, c.added_at);
        text::precedes_is_total(a.added_at, c.added_at);
    }
}

/// The order of plays is one.
pub proof fn plays_have_an_order()
    ensures
        order::rank_is_an_order::<PlaybackHistoryEntry>(),
{
    assert forall|a: HistoryView, b: HistoryView| #[trigger]
        PlaybackHistoryEntry::ranks_before(a, b) implies !PlaybackHistoryEntry::ranks_before(
        b,
        a,
    ) by {
        text::precedes_is_total(a.last_played_at, b.last_played_at);
        text::precedes_is_total(a.started_at, b.started_at);
    }
    assert forall|a: HistoryView, b: HistoryView, c: HistoryView|
        !(#[trigger] PlaybackHistoryEntry::ranks_before(a, b)) && !(
        #[trigger] PlaybackHistoryEntry::ranks_before(b, c)) implies !PlaybackHistoryEntry::ranks_before(
    a, c) by {
        lemma_not_before(c.last_played_at, b.last_played_at, a.last_played_at);
        lemma_not_before(c.started_at, b.started_at, a.started_at);
        text::precedes_is_total(a.last_played_at, b.last_played_at);
        text::precedes_is_total(b.last_played_at, c.last_played_at);
        text::precedes_is_total(a.last_played_at, c.last_played_at);
        text::precedes_is_total(a.started_at, b.started_at);
        text::precedes_is_total(b.started_at, c.started_at);
        text::precedes_is_total(a.started_at, c.started_at);
    }
}

proof fn lemma_not_before(a: Seq<char>, b: Seq<char>, c: Seq<char>)
    ensures
        !text::precedes(a, b) && !text::precedes(b, c) ==> !text::precedes(a, c),
        !text::precedes(a, b) && !text::precedes(b, c) && a == c ==> a == b,
{
    text::precedes_is_total(a, b);
    text::precedes_is_total(b, c);
    text::precedes_is_total(a, c);
    if !text::precedes(a, b) && !text::precedes(b, c) && a != b && b != c {
        text::precedes_is_transitive(c, b, a);
    }
}

/// No station is named twice.
pub open spec fn stations_differ(s: Seq<FavouriteView>) -> bool {
    forall|i: int, j: int|
        0 <= i < j < s.len() ==> (#[trigger] s[i]).station_id != (#[trigger] s[j]).station_id
}

proof fn lemma_place(s: Seq<FavouriteView>, id: Seq<char>)
    ensures
        match data::place_of(s, id) {
            Some(i) => 0 <= i < s.len() && s[i].station_id == id,
            None => forall|i: int| 0 <= i < s.len() ==> (#[trigger] s[i]).station_id != id,
        },
    decreases s.len(),
{
    if s.len() > 0 {
        lemma_place(s.drop_last(), id);
        if data::place_of(s, id) is None {
            assert forall|i: int| 0 <= i < s.len() implies (#[trigger] s[i]).station_id != id by {
                if i < s.len() - 1 {
                    assert(s.drop_last()[i].station_id != id);
                }
            }
        }
    }
}

proof fn lemma_once(s: Seq<FavouriteView>)
    ensures
        stations_differ(data::one_per_station(s)),
        forall|i: int|
            0 <= i < s.len() ==> data::has_favourite(data::one_per_station(s), (#[trigger] s[i]).station_id),
    decreases s.len(),
{
    if s.len() > 0 {
        let front = s.drop_last();
        lemma_once(front);
        let m = data::one_per_station(front);
        let r = data::one_per_station(s);
        lemma_place(m, s.last().station_id);
        assert forall|i: int| 0 <= i < s.len() implies data::has_favourite(
            r,
            (#[trigger] s[i]).station_id,
        ) by {
            if i < s.len() - 1 {
                assert(front[i] == s[i]);
                assert(data::has_favourite(m, front[i].station_id));
                let k = choose|k: int|
                    0 <= k < m.len() && (#[trigger] m[k]).station_id == s[i].station_id;
                assert(r[k].station_id == s[i].station_id);
            } else {
                match data::place_of(m, s.last().station_id) {
                    Some(k) => {
                        assert(r[k].station_id == s[i].station_id);
                    },
                    None => {
                        assert(r[m.len() as int].station_id == s[i].station_id);
                    },
                }
            }
        }
    }
}

/// However often a profile is moved to a catalog, each station is a favourite at
/// most once.
pub proof fn each_station_is_a_favourite_once(c: CatalogView, s: Seq<FavouriteView>)
    ensures
        stations_differ(data::moved_favourites(c, s)),
{
    lemma_once(order::arranged::<Favourite>(data::found_favourites(c, s)));
}

proof fn lemma_found_or_lost(c: CatalogView, s: Seq<FavouriteView>, i: int)
    requires
        0 <= i < s.len(),
    ensures
        match c.resolution(s[i].station_id) {
            Ok(id) => data::found_favourites(c, s).contains(FavouriteView { station_id: id, ..s[i] }),
            Err((reason, candidates)) => data::lost_favourites(c, s).contains(
                SetAside {
                    source_kind: "favourite"@,
                    original_station_id: s[i].station_id,
                    first_seen_at: s[i].added_at,
                    reason,
                    candidates,
                    name: s[i].metadata.name,
                    catalog: c.catalog_version,
                },
            ),
        },
    decreases s.len(),
{
    let f = data::found_favourites(c, s);
    let l = data::lost_favourites(c, s);
    if i == s.len() - 1 {
        match c.resolution(s[i].station_id) {
            Ok(_) => {
                assert(f[f.len() - 1] == f.last());
            },
            Err(_) => {
                assert(l[l.len() - 1] == l.last());
            },
        }
    } else {
        let front = s.drop_last();
        lemma_found_or_lost(c, front, i);
        let f0 = data::found_favourites(c, front);
        let l0 = data::lost_favourites(c, front);
        assert forall|x: FavouriteView| f0.contains(x) implies f.contains(x) by {
            let k = f0.index_of(x);
            assert(f[k] == x);
        }
        assert forall|x: SetAside| l0.contains(x) implies l.contains(x) by {
            let k = l0.index_of(x);
            assert(l[k] == x);
        }
    }
}

/// No favourite is lost when a profile moves to a catalog: its station stays a
/// favourite under its present identity, or the favourite is set aside with the
/// identity that it had, the reason and the candidates.
pub proof fn no_favourite_is_lost(c: CatalogView, before: ProfileView, after: ProfileView, i: int)
    requires
        data::is_moved(c, before, after),
        0 <= i < before.favourites.len(),
    ensures
        match c.resolution(before.favourites[i].station_id) {
            Ok(id) => data::has_favourite(after.favourites, id),
            Err((reason, candidates)) => data::asides(after.unresolved).contains(
                SetAside {
                    source_kind: "favourite"@,
                    original_station_id: before.favourites[i].station_id,
                    first_seen_at: before.favourites[i].added_at,
                    reason,
                    candidates,
                    name: before.favourites[i].metadata.name,
                    catalog: c.catalog_version,
                },
            ),
        },
{
    let s = before.favourites;
    lemma_found_or_lost(c, s, i);
    let found = data::found_favourites(c, s);
    let sorted = order::arranged::<Favourite>(found);
    order::sorting_keeps::<Favourite>(found);
    lemma_once(sorted);
    match c.resolution(s[i].station_id) {
        Ok(id) => {
            let f = FavouriteView { station_id: id, ..s[i] };
            assert(sorted.contains(f));
            let k = sorted.index_of(f);
            assert(data::has_favourite(data::one_per_station(sorted), sorted[k].station_id));
        },
        Err((reason, candidates)) => {
            let x = SetAside {
                source_kind: "favourite"@,
                original_station_id: s[i].station_id,
                first_seen_at: s[i].added_at,
                reason,
                candidates,
                name: s[i].metadata.name,
                catalog: c.catalog_version,
            };
            let l = data::lost_favourites(c, s);
            let k = l.index_of(x);
            let a = data::asides(before.unresolved);
            assert(data::asides(after.unresolved)[a.len() + k] == x);
        },
    }
}

/// No play is lost when a profile moves to a catalog: as many records are there
/// as before, in the history or set aside.
pub proof fn no_play_is_lost(c: CatalogView, h: Seq<HistoryView>)
    ensures
        data::found_history(c, h).len() + data::lost_history(c, h).len() == h.len(),
    decreases h.len(),
{
    if h.len() > 0 {
        no_play_is_lost(c, h.drop_last());
    }
}

/// What was set aside before stays as it was, in its place.
pub proof fn what_was_set_aside_stays(
    c: CatalogView,
    before: ProfileView,
    after: ProfileView,
    i: int,
)
    requires
        data::is_moved(c, before, after),
        0 <= i < before.unresolved.len(),
    ensures
        after.unresolved.len() >= before.unresolved.len(),
        after.unresolved[i] == before.unresolved[i],
{
    assert(data::asides(after.unresolved).len() >= data::asides(before.unresolved).len());
    assert(after.unresolved.subrange(0, before.unresolved.len() as int)[i]
        == before.unresolved[i]);
}

proof fn lemma_recent(h: Seq<HistoryView>, times: Seq<Result<int, Seq<char>>>, cutoff: int)
    requires
        times.len() >= h.len(),
    ensures
        data::recent(h, times, cutoff).len() <= h.len(),
        forall|x: HistoryView|
            data::recent(h, times, cutoff).contains(x) ==> exists|i: int|
                0 <= i < h.len() && #[trigger] h[i] == x && (times[i] matches Ok(t) && t >= cutoff),
    decreases h.len(),
{
    if h.len() > 0 {
        let front = h.drop_last();
        lemma_recent(front, times, cutoff);
        let r0 = data::recent(front, times, cutoff);
        let r = data::recent(h, times, cutoff);
        assert forall|x: HistoryView| r.contains(x) implies exists|i: int|
            0 <= i < h.len() && #[trigger] h[i] == x && (times[i] matches Ok(t) && t >= cutoff) by {
            let k = r.index_of(x);
            if k < r0.len() {
                assert(r0[k] == x);
                assert(r0.contains(x));
                let i = choose|i: int|
                    0 <= i < front.len() && #[trigger] front[i] == x && (times[i] matches Ok(t) && t
                        >= cutoff);
                assert(h[i] == x);
            } else {
                assert(h[h.len() - 1] == x);
            }
        }
    }
}

/// What is kept of a history is in order, latest first, no more than the limit,
/// and all of it was there before with a time not before the cutoff.
pub proof fn history_is_ordered_bounded_and_recent(
    h: Seq<HistoryView>,
    times: Seq<Result<int, Seq<char>>>,
    cutoff: int,
)
    requires
        times.len() == h.len(),
    ensures
        order::in_order::<PlaybackHistoryEntry>(data::kept(h, times, cutoff)),
        data::kept(h, times, cutoff).len() <= MAX_HISTORY,
        forall|k: int|
            0 <= k < data::kept(h, times, cutoff).len() ==> exists|i: int|
                0 <= i < h.len() && #[trigger] h[i] == #[trigger] data::kept(h, times, cutoff)[k] && (
                times[i] matches Ok(t) && t >= cutoff),
{
    let r = data::recent(h, times, cutoff);
    let s = order::arranged::<PlaybackHistoryEntry>(r);
    let all = data::kept(h, times, cutoff);
    lemma_recent(h, times, cutoff);
    plays_have_an_order();
    order::sorting_orders::<PlaybackHistoryEntry>(r);
    order::sorting_keeps::<PlaybackHistoryEntry>(r);
    assert forall|i: int, j: int| 0 <= i < j < all.len() implies !PlaybackHistoryEntry::ranks_before(
        #[trigger] all[j],
        #[trigger] all[i],
    ) by {
        assert(all[i] == s[i] && all[j] == s[j]);
    }
    assert forall|k: int| 0 <= k < all.len() implies exists|i: int|
        0 <= i < h.len() && #[trigger] h[i] == #[trigger] all[k] && (times[i] matches Ok(t) && t
            >= cutoff) by {
        assert(all[k] == s[k]);
        assert(s.contains(all[k]));
        assert(r.contains(all[k]));
    }
}

/// Marking a station and then unmarking it leaves the favourites as they were.
pub proof fn marking_and_unmarking_leaves_the_favourites(
    p: ProfileView,
    id: Seq<char>,
    name: Seq<char>,
    catalog: Option<Seq<char>>,
    added: Result<Seq<char>, Seq<char>>,
    record_id: u128,
    saved: Result<Seq<char>, Seq<char>>,
    name2: Seq<char>,
    catalog2: Option<Seq<char>>,
    added2: Result<Seq<char>, Seq<char>>,
    record_id2: u128,
    saved2: Result<Seq<char>, Seq<char>>,
)
    requires
        data::toggled(p, id, name, catalog, added, record_id, saved).1 == Ok::<bool, ErrorView>(true),
    ensures
        data::toggled(
            data::toggled(p, id, name, catalog, added, record_id, saved).0,
            id,
            name2,
            catalog2,
            added2,
            record_id2,
            saved2,
        ).0.favourites == p.favourites,
{
    let q = data::toggled(p, id, name, catalog, added, record_id, saved).0;
    let f = q.favourites.last();
    assert(q.favourites == p.favourites.push(f));
    assert(q.favourites[p.favourites.len() as int].station_id == id);
    assert(data::has_favourite(q.favourites, id));
    let stays = |f: FavouriteView| f.station_id != id;
    reveal(Seq::filter);
    assert(q.favourites.drop_last() =~= p.favourites);
    lemma_filter_all(p.favourites, id);
}

proof fn lemma_filter_all(s: Seq<FavouriteView>, id: Seq<char>)
    requires
        !data::has_favourite(s, id),
    ensures
        data::without_station(s, id) == s,
    decreases s.len(),
{
    reveal(Seq::filter);
    if s.len() > 0 {
        assert(s[s.len() - 1].station_id != id);
        assert forall|i: int| 0 <= i < s.drop_last().len() implies (
        #[trigger] s.drop_last()[i]).station_id != id by {
            assert(s[i].station_id != id);
        }
        lemma_filter_all(s.drop_last(), id);
        assert(s =~= s.drop_last().push(s.last()));
    }
}

/// Marking says truly whether the station is now a favourite.
pub proof fn marking_says_what_it_did(
    p: ProfileView,
    id: Seq<char>,
    name: Seq<char>,
    catalog: Option<Seq<char>>,
    added: Result<Seq<char>, Seq<char>>,
    record_id: u128,
    saved: Result<Seq<char>, Seq<char>>,
)
    ensures
        ({
            let (q, r) = data::toggled(p, id, name, catalog, added, record_id, saved);
            &&& r matches Ok(marked) ==> marked == data::has_favourite(q.favourites, id)
            &&& q.favourites.len() <= MAX_FAVOURITES || q.favourites.len() <= p.favourites.len()
            &&& q.history == p.history && q.unresolved == p.unresolved
        }),
{
    let (q, r) = data::toggled(p, id, name, catalog, added, record_id, saved);
    if data::has_favourite(p.favourites, id) {
        let stays = |f: FavouriteView| f.station_id != id;
        broadcast use vstd::seq_lib::group_filter_ensures;

        assert forall|i: int| 0 <= i < q.favourites.len() implies (
        #[trigger] q.favourites[i]).station_id != id by {
            assert(stays(q.favourites[i]));
        }
    } else if let Ok(ts) = added {
        if p.favourites.len() < MAX_FAVOURITES {
            assert(q.favourites[p.favourites.len() as int].station_id == id);
        }
    }
}

proof fn lemma_latest(times: Seq<Result<int, Seq<char>>>)
    requires
        times.len() > 0,
    ensures
        0 <= data::latest(times) < times.len(),
        forall|j: int|
            0 <= j < times.len() ==> !data::older(times[data::latest(times)], #[trigger] times[j]),
    decreases times.len(),
{
    if times.len() > 1 {
        let front = times.drop_last();
        lemma_latest(front);
        let k = data::latest(front);
        assert forall|j: int| 0 <= j < times.len() implies !data::older(
            times[data::latest(times)],
            #[trigger] times[j],
        ) by {
            if j < front.len() {
                assert(times[j] == front[j]);
                assert(!data::older(front[k], front[j]));
            }
        }
    }
}

/// Playing a station again within five minutes adds no entry: the entry of the
/// first play is continued.
pub proof fn playing_again_soon_adds_no_entry(
    h: Seq<HistoryView>,
    times: Seq<Result<int, Seq<char>>>,
    id: Seq<char>,
    name: Seq<char>,
    catalog: Option<Seq<char>>,
    ts: Seq<char>,
    started: int,
    record_id: u128,
)
    requires
        h.len() == times.len(),
        h.len() > 0,
        h[data::latest(times)].station_id == id,
        times[data::latest(times)] matches Ok(t) && started - t <= COALESCE_NANOS,
    ensures
        data::noted(h, times, id, name, catalog, ts, started, record_id) matches Ok(g) && {
            &&& g.len() == h.len()
            &&& g[data::latest(times)].last_played_at == ts
            &&& g[data::latest(times)].started_at == h[data::latest(times)].started_at
            &&& forall|i: int|
                0 <= i < h.len() && i != data::latest(times) ==> #[trigger] g[i] == h[i]
        },
{
    lemma_latest(times);
}

/// Playing another station than the latest adds one entry, and touches no other.
pub proof fn playing_another_station_adds_an_entry(
    h: Seq<HistoryView>,
    times: Seq<Result<int, Seq<char>>>,
    id: Seq<char>,
    name: Seq<char>,
    catalog: Option<Seq<char>>,
    ts: Seq<char>,
    started: int,
    record_id: u128,
)
    requires
        h.len() == times.len(),
        h.len() > 0 ==> h[data::latest(times)].station_id != id,
    ensures
        data::noted(h, times, id, name, catalog, ts, started, record_id) matches Ok(g) && {
            &&& g.len() == h.len() + 1
            &&& g.drop_last() == h
            &&& g.last().station_id == id
        },
{
    let g = data::noted(h, times, id, name, catalog, ts, started, record_id)->Ok_0;
    assert(g.drop_last() =~= h);
}

/// Forgetting leaves no play and no note on a play, and nothing else changes but
/// the time of the change.
pub proof fn forgetting_leaves_no_play(p: ProfileView, saved: Result<Seq<char>, Seq<char>>)
    ensures
        data::forgotten(p, saved).0.history.len() == 0,
        forall|i: int|
            0 <= i < data::forgotten(p, saved).0.unresolved.len() ==> (
            #[trigger] data::forgotten(p, saved).0.unresolved[i]).what.source_kind != "history"@,
        data::forgotten(p, saved).0.favourites == p.favourites,
{
    let stays = |u: UnresolvedView| u.what.source_kind != "history"@;
    broadcast use vstd::seq_lib::group_filter_ensures;

    assert forall|i: int| 0 <= i < data::forgotten(p, saved).0.unresolved.len() implies (
    #[trigger] data::forgotten(p, saved).0.unresolved[i]).what.source_kind != "history"@ by {
        assert(stays(data::forgotten(p, saved).0.unresolved[i]));
    }
}

/// Every station is active and has the form of an identity.
spec fn all_present(c: CatalogView, s: Seq<FavouriteView>) -> bool {
    forall|i: int|
        0 <= i < s.len() ==> c.resolution((#[trigger] s[i]).station_id) == Ok::<
            _,
            (Seq<char>, Seq<Seq<char>>),
        >(s[i].station_id)
}

proof fn lemma_found_is_present(c: CatalogView, s: Seq<FavouriteView>)
    requires
        catalog::legacy_is_active(c),
        forall|t: Seq<char>| #[trigger] c.active.contains(t) ==> catalog::is_station_id(t),
    ensures
        all_present(c, data::found_favourites(c, s)),
    decreases s.len(),
{
    if s.len() > 0 {
        lemma_found_is_present(c, s.drop_last());
        catalog::what_resolves_is_active(c, s.last().station_id);
    }
}

proof fn lemma_present_is_found(c: CatalogView, s: Seq<FavouriteView>)
    requires
        all_present(c, s),
    ensures
        data::found_favourites(c, s) == s,
        data::lost_favourites(c, s).len() == 0,
    decreases s.len(),
{
    if s.len() > 0 {
        let front = s.drop_last();
        assert(all_present(c, front)) by {
            assert forall|i: int| 0 <= i < front.len() implies c.resolution(
                (#[trigger] front[i]).station_id,
            ) == Ok::<_, (Seq<char>, Seq<Seq<char>>)>(front[i].station_id) by {
                assert(front[i] == s[i]);
            }
        }
        lemma_present_is_found(c, front);
        assert(c.resolution(s[s.len() - 1].station_id) == Ok::<_, (Seq<char>, Seq<Seq<char>>)>(
            s.last().station_id,
        ));
        assert(data::found_favourites(c, s) =~= s);
    }
}

/// Each favourite of the merged list has the time and station of one of the list.
spec fn drawn_from(m: Seq<FavouriteView>, s: Seq<FavouriteView>) -> bool {
    forall|k: int|
        0 <= k < m.len() ==> exists|i: int|
            0 <= i < s.len() && (#[trigger] s[i]).station_id == (#[trigger] m[k]).station_id
                && s[i].added_at == m[k].added_at
}

proof fn lemma_merged_in_order(s: Seq<FavouriteView>)
    requires
        order::in_order::<Favourite>(s),
    ensures
        order::in_order::<Favourite>(data::one_per_station(s)),
        drawn_from(data::one_per_station(s), s),
    decreases s.len(),
{
    if s.len() > 0 {
        let front = s.drop_last();
        assert forall|i: int, j: int| 0 <= i < j < front.len() implies !Favourite::ranks_before(
            #[trigger] front[j],
            #[trigger] front[i],
        ) by {
            assert(front[i] == s[i] && front[j] == s[j]);
        }
        lemma_merged_in_order(front);
        let m = data::one_per_station(front);
        let r = data::one_per_station(s);
        let x = s.last();
        lemma_place(m, x.station_id);
        assert(drawn_from(r, s)) by {
            assert forall|k: int| 0 <= k < r.len() implies exists|i: int|
                0 <= i < s.len() && (#[trigger] s[i]).station_id == (#[trigger] r[k]).station_id
                    && s[i].added_at == r[k].added_at by {
                if k < m.len() {
                    assert(r[k].station_id == m[k].station_id && r[k].added_at == m[k].added_at);
                    let i = choose|i: int|
                        0 <= i < front.len() && (#[trigger] front[i]).station_id == m[k].station_id
                            && front[i].added_at == m[k].added_at;
                    assert(s[i] == front[i]);
                } else {
                    assert(s[s.len() - 1] == r[k]);
                }
            }
        }
        assert forall|i: int, j: int| 0 <= i < j < r.len() implies !Favourite::ranks_before(
            #[trigger] r[j],
            #[trigger] r[i],
        ) by {
            assert(r[i].station_id == m[i].station_id && r[i].added_at == m[i].added_at);
            if j < m.len() {
                assert(r[j].station_id == m[j].station_id && r[j].added_at == m[j].added_at);
                assert(!Favourite::ranks_before(m[j], m[i]));
            } else {
                let k = choose|k: int|
                    0 <= k < front.len() && (#[trigger] front[k]).station_id == m[i].station_id
                        && front[k].added_at == m[i].added_at;
                assert(s[k] == front[k]);
                assert(!Favourite::ranks_before(s[s.len() - 1], s[k]));
            }
        }
    }
}

/// Favourites that were moved to a catalog stand in the order of the time at which they
/// were added, and then of their stations.
pub proof fn moved_favourites_are_in_order(c: CatalogView, before: ProfileView, after: ProfileView)
    requires
        data::is_moved(c, before, after),
    ensures
        order::in_order::<Favourite>(after.favourites),
{
    let found = data::found_favourites(c, before.favourites);
    favourites_have_an_order();
    order::sorting_orders::<Favourite>(found);
    lemma_merged_in_order(order::arranged::<Favourite>(found));
}

proof fn lemma_once_already(s: Seq<FavouriteView>)
    requires
        stations_differ(s),
    ensures
        data::one_per_station(s) == s,
    decreases s.len(),
{
    if s.len() > 0 {
        let front = s.drop_last();
        assert forall|i: int, j: int| 0 <= i < j < front.len() implies (
        #[trigger] front[i]).station_id != (#[trigger] front[j]).station_id by {
            assert(front[i] == s[i] && front[j] == s[j]);
        }
        lemma_once_already(front);
        lemma_place(front, s.last().station_id);
        if let Some(k) = data::place_of(front, s.last().station_id) {
            assert(s[k].station_id != s[s.len() - 1].station_id);
        }
        assert(data::one_per_station(s) =~= s);
    }
}

proof fn lemma_history_found(c: CatalogView, h: Seq<HistoryView>)
    requires
        catalog::legacy_is_active(c),
        forall|t: Seq<char>| #[trigger] c.active.contains(t) ==> catalog::is_station_id(t),
    ensures
        data::found_history(c, data::found_history(c, h)) == data::found_history(c, h),
        data::lost_history(c, data::found_history(c, h)).len() == 0,
    decreases h.len(),
{
    if h.len() > 0 {
        let front = h.drop_last();
        lemma_history_found(c, front);
        catalog::what_resolves_is_active(c, h.last().station_id);
        let f0 = data::found_history(c, front);
        let f = data::found_history(c, h);
        if let Ok(id) = c.resolution(h.last().station_id) {
            assert(f.drop_last() =~= f0);
            assert(data::found_history(c, f) =~= f);
        }
    }
}

/// A profile that was moved to a catalog stays as it is when it is moved to the
/// same catalog again.
pub proof fn moving_again_changes_nothing(
    c: CatalogView,
    before: ProfileView,
    moved: ProfileView,
    again: ProfileView,
)
    requires
        catalog::legacy_is_active(c),
        forall|t: Seq<char>| #[trigger] c.active.contains(t) ==> catalog::is_station_id(t),
        data::is_moved(c, before, moved),
        data::is_moved(c, moved, again),
    ensures
        again == moved,
{
    let found = data::found_favourites(c, before.favourites);
    let sorted = order::arranged::<Favourite>(found);
    let m = moved.favourites;
    lemma_found_is_present(c, before.favourites);
    favourites_have_an_order();
    order::sorting_orders::<Favourite>(found);
    order::sorting_keeps::<Favourite>(found);
    lemma_merged_in_order(sorted);
    lemma_once(sorted);
    assert(all_present(c, m)) by {
        assert forall|k: int| 0 <= k < m.len() implies c.resolution((#[trigger] m[k]).station_id)
            == Ok::<_, (Seq<char>, Seq<Seq<char>>)>(m[k].station_id) by {
            let i = choose|i: int|
                0 <= i < sorted.len() && (#[trigger] sorted[i]).station_id == m[k].station_id
                    && sorted[i].added_at == m[k].added_at;
            assert(sorted.contains(sorted[i]));
            assert(found.contains(sorted[i]));
            let n = choose|n: int| 0 <= n < found.len() && found[n] == sorted[i];
            assert(c.resolution(found[n].station_id) == Ok::<_, (Seq<char>, Seq<Seq<char>>)>(
                found[n].station_id,
            ));
        }
    }
    lemma_present_is_found(c, m);
    order::sorting_leaves_what_is_in_order::<Favourite>(m);
    lemma_once_already(m);
    lemma_history_found(c, before.history);
    assert(data::asides(again.unresolved) =~= data::asides(moved.unresolved));
    assert(again.unresolved.len() == moved.unresolved.len());
    assert(again.unresolved.subrange(0, moved.unresolved.len() as int) =~= again.unresolved);
}

} // verus!
