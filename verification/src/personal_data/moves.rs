//! What becomes of each record when a profile moves to a catalog, and what each
//! change of a profile puts into it.

use crate::clock;
use crate::json;
use crate::json::JsonView;
use crate::order;
use crate::personal_data as data;
use crate::text;
use data::catalog;
use data::catalog::CatalogView;
use data::records::{
    Favourite, FavouriteView, HistoryView, PlaybackHistoryEntry, SetAside, UnresolvedView,
};
use data::{ErrorView, ProfileView};
use vstd::prelude::*;

verus! {

proof fn lemma_play_found(c: CatalogView, h: Seq<HistoryView>, i: int) -> (p: int)
    requires
        0 <= i < h.len(),
        c.resolution(h[i].station_id) is Ok,
    ensures
        0 <= p < data::found_history(c, h).len(),
        p <= i,
        data::found_history(c, h)[p] == (HistoryView {
            station_id: c.resolution(h[i].station_id)->Ok_0,
            ..h[i]
        }),
        p == data::found_history(c, h.take(i)).len(),
    decreases h.len(),
{
    let front = h.drop_last();
    if i == h.len() - 1 {
        assert(h.take(i) =~= front);
        lemma_found_is_shorter(c, front);
        data::found_history(c, front).len() as int
    } else {
        assert(front.take(i) =~= h.take(i));
        lemma_play_found(c, front, i)
    }
}

proof fn lemma_found_is_shorter(c: CatalogView, h: Seq<HistoryView>)
    ensures
        data::found_history(c, h).len() <= h.len(),
    decreases h.len(),
{
    if h.len() > 0 {
        lemma_found_is_shorter(c, h.drop_last());
    }
}

proof fn lemma_play_lost(c: CatalogView, h: Seq<HistoryView>, i: int)
    requires
        0 <= i < h.len(),
        c.resolution(h[i].station_id) is Err,
    ensures
        data::lost_history(c, h).contains(
            SetAside {
                source_kind: "history"@,
                original_station_id: h[i].station_id,
                first_seen_at: h[i].started_at,
                reason: c.resolution(h[i].station_id)->Err_0.0,
                candidates: c.resolution(h[i].station_id)->Err_0.1,
                name: h[i].metadata.name,
                catalog: c.catalog_version,
            },
        ),
    decreases h.len(),
{
    let l = data::lost_history(c, h);
    if i == h.len() - 1 {
        assert(l[l.len() - 1] == l.last());
    } else {
        let front = h.drop_last();
        lemma_play_lost(c, front, i);
        let l0 = data::lost_history(c, front);
        assert forall|x: SetAside| l0.contains(x) implies l.contains(x) by {
            let k = l0.index_of(x);
            assert(l[k] == x);
        }
    }
}

proof fn lemma_play_from(c: CatalogView, h: Seq<HistoryView>, k: int) -> (i: int)
    requires
        0 <= k < data::found_history(c, h).len(),
    ensures
        0 <= i < h.len(),
        c.resolution(h[i].station_id) is Ok,
        data::found_history(c, h)[k] == (HistoryView {
            station_id: c.resolution(h[i].station_id)->Ok_0,
            ..h[i]
        }),
    decreases h.len(),
{
    let front = h.drop_last();
    if k < data::found_history(c, front).len() {
        lemma_play_from(c, front, k)
    } else {
        h.len() - 1
    }
}

/// A play whose station is found moves to the station's present identity and is
/// otherwise as it was. One whose station is not found is set aside, with the
/// identity that it had, the time at which it began, the reason and the candidates.
pub proof fn plays_move_with_their_stations(
    c: CatalogView,
    before: ProfileView,
    after: ProfileView,
    i: int,
)
    requires
        data::is_moved(c, before, after),
        0 <= i < before.history.len(),
    ensures
        c.resolution(before.history[i].station_id) matches Ok(id) ==> after.history.contains(
            HistoryView { station_id: id, ..before.history[i] },
        ),
        c.resolution(before.history[i].station_id) matches Err((reason, candidates))
            ==> exists|k: int|
            {
                &&& before.unresolved.len() <= k < after.unresolved.len()
                &&& (#[trigger] after.unresolved[k]).what == (SetAside {
                    source_kind: "history"@,
                    original_station_id: before.history[i].station_id,
                    first_seen_at: before.history[i].started_at,
                    reason,
                    candidates,
                    name: before.history[i].metadata.name,
                    catalog: c.catalog_version,
                })
            },
{
    let h = before.history;
    match c.resolution(h[i].station_id) {
        Ok(id) => {
            let p = lemma_play_found(c, h, i);
            assert(after.history[p] == (HistoryView { station_id: id, ..h[i] }));
        },
        Err((reason, candidates)) => {
            lemma_play_lost(c, h, i);
            let x = SetAside {
                source_kind: "history"@,
                original_station_id: h[i].station_id,
                first_seen_at: h[i].started_at,
                reason,
                candidates,
                name: h[i].metadata.name,
                catalog: c.catalog_version,
            };
            let l = data::lost_history(c, h);
            let k = l.index_of(x);
            let a = data::asides(before.unresolved);
            let f = data::lost_favourites(c, before.favourites);
            let n = a.len() + f.len() + k;
            let all = data::asides(after.unresolved);
            assert(all[n] == x);
            assert(all.len() == after.unresolved.len() && a.len() == before.unresolved.len());
            assert(all[n] == after.unresolved[n].what);
        },
    }
}

/// Every play of a moved profile is one of before, and its station is a station of
/// the catalog.
pub proof fn moved_plays_are_of_active_stations(
    c: CatalogView,
    before: ProfileView,
    after: ProfileView,
    k: int,
)
    requires
        catalog::legacy_is_active(c),
        data::is_moved(c, before, after),
        0 <= k < after.history.len(),
    ensures
        c.active.contains(after.history[k].station_id),
        exists|i: int|
            {
                &&& 0 <= i < before.history.len()
                &&& after.history[k] == (HistoryView {
                    station_id: after.history[k].station_id,
                    ..#[trigger] before.history[i]
                })
            },
{
    let i = lemma_play_from(c, before.history, k);
    catalog::what_resolves_is_active(c, before.history[i].station_id);
    assert(after.history[k] == (HistoryView {
        station_id: after.history[k].station_id,
        ..before.history[i]
    }));
}

/// Plays keep their order when a profile moves.
pub proof fn moved_plays_keep_their_order(
    c: CatalogView,
    before: ProfileView,
    after: ProfileView,
    i: int,
    j: int,
)
    requires
        data::is_moved(c, before, after),
        0 <= i < j < before.history.len(),
        c.resolution(before.history[i].station_id) is Ok,
        c.resolution(before.history[j].station_id) is Ok,
    ensures
        exists|p: int, q: int|
            {
                &&& 0 <= p < q < after.history.len()
                &&& (#[trigger] after.history[p]).record_id == before.history[i].record_id
                &&& (#[trigger] after.history[q]).record_id == before.history[j].record_id
                &&& after.history[p].started_at == before.history[i].started_at
                &&& after.history[q].started_at == before.history[j].started_at
            },
{
    let h = before.history;
    let p = lemma_play_found(c, h, i);
    let q = lemma_play_found(c, h, j);
    let f = h.take(j);
    assert(f[i] == h[i]);
    assert(f.take(i) =~= h.take(i));
    let r = lemma_play_found(c, f, i);
    assert(r == p && p < q);
    assert(after.history[p].record_id == h[i].record_id);
    assert(after.history[q].record_id == h[j].record_id);
}

proof fn lemma_favourite_from(c: CatalogView, s: Seq<FavouriteView>, k: int) -> (i: int)
    requires
        0 <= k < data::found_favourites(c, s).len(),
    ensures
        0 <= i < s.len(),
        c.resolution(s[i].station_id) is Ok,
        data::found_favourites(c, s)[k] == (FavouriteView {
            station_id: c.resolution(s[i].station_id)->Ok_0,
            ..s[i]
        }),
    decreases s.len(),
{
    let front = s.drop_last();
    if k < data::found_favourites(c, front).len() {
        lemma_favourite_from(c, front, k)
    } else {
        s.len() - 1
    }
}

proof fn lemma_favourite_found(c: CatalogView, s: Seq<FavouriteView>, i: int)
    requires
        0 <= i < s.len(),
        c.resolution(s[i].station_id) is Ok,
    ensures
        data::found_favourites(c, s).contains(
            FavouriteView { station_id: c.resolution(s[i].station_id)->Ok_0, ..s[i] },
        ),
    decreases s.len(),
{
    let f = data::found_favourites(c, s);
    let front = s.drop_last();
    let f0 = data::found_favourites(c, front);
    if i == s.len() - 1 {
        assert(f[f.len() - 1] == f.last());
    } else {
        lemma_favourite_found(c, front, i);
        let x = FavouriteView { station_id: c.resolution(s[i].station_id)->Ok_0, ..s[i] };
        let k = f0.index_of(x);
        assert(f[k] == x);
    }
}

/// Each of the merged favourites has its record and the time at which it was added
/// from one favourite of the list, of the same station, and the time of its last
/// change from one as well.
spec fn made_of(m: Seq<FavouriteView>, s: Seq<FavouriteView>) -> bool {
    forall|k: int| #![trigger m[k]]
        0 <= k < m.len() ==> {
            &&& exists|i: int|
                {
                    &&& 0 <= i < s.len()
                    &&& (#[trigger] s[i]).station_id == m[k].station_id
                    &&& s[i].record_id == m[k].record_id
                    &&& s[i].added_at == m[k].added_at
                }
            &&& exists|i: int|
                {
                    &&& 0 <= i < s.len()
                    &&& (#[trigger] s[i]).station_id == m[k].station_id
                    &&& s[i].updated_at == m[k].updated_at
                }
        }
}

proof fn lemma_place(s: Seq<FavouriteView>, id: Seq<char>)
    ensures
        match data::place_of(s, id) {
            Some(i) => 0 <= i < s.len() && s[i].station_id == id,
            None => forall|i: int| 0 <= i < s.len() ==> (#[trigger] s[i]).station_id != id,
        },
    decreases s.len(),
{
    if s.len() > 0 {
        lemma_place(s.drop_last(), id);
        if data::place_of(s, id) is None {
            assert forall|i: int| 0 <= i < s.len() implies (#[trigger] s[i]).station_id != id by {
                if i < s.len() - 1 {
                    assert(s.drop_last()[i].station_id != id);
                }
            }
        }
    }
}

proof fn lemma_made_of(s: Seq<FavouriteView>)
    ensures
        made_of(data::one_per_station(s), s),
    decreases s.len(),
{
    if s.len() > 0 {
        let front = s.drop_last();
        lemma_made_of(front);
        let m = data::one_per_station(front);
        let r = data::one_per_station(s);
        let x = s.last();
        lemma_place(m, x.station_id);
        assert forall|k: int| #![trigger r[k]] 0 <= k < r.len() implies {
            &&& exists|i: int|
                {
                    &&& 0 <= i < s.len()
                    &&& (#[trigger] s[i]).station_id == r[k].station_id
                    &&& s[i].record_id == r[k].record_id
                    &&& s[i].added_at == r[k].added_at
                }
            &&& exists|i: int|
                {
                    &&& 0 <= i < s.len()
                    &&& (#[trigger] s[i]).station_id == r[k].station_id
                    &&& s[i].updated_at == r[k].updated_at
                }
        } by {
            assert(s[s.len() - 1] == x);
            if k < m.len() {
                let i = choose|i: int|
                    {
                        &&& 0 <= i < front.len()
                        &&& (#[trigger] front[i]).station_id == m[k].station_id
                        &&& front[i].record_id == m[k].record_id
                        &&& front[i].added_at == m[k].added_at
                    };
                let j = choose|i: int|
                    {
                        &&& 0 <= i < front.len()
                        &&& (#[trigger] front[i]).station_id == m[k].station_id
                        &&& front[i].updated_at == m[k].updated_at
                    };
                assert(m[k].station_id == r[k].station_id);
                assert(s[i] == front[i]);
                assert(s[j] == front[j]);
            }
        }
    }
}

/// For each favourite of a list there is a merged one of the same station, at the first
/// of the two places, that was not changed before it, and whose record is that of the
/// favourite at the second place, which does not stand behind it.
proof fn lemma_covered(s: Seq<FavouriteView>, i: int) -> (r: (int, int))
    requires
        0 <= i < s.len(),
    ensures
        0 <= r.0 < data::one_per_station(s).len(),
        data::one_per_station(s)[r.0].station_id == s[i].station_id,
        !text::precedes(data::one_per_station(s)[r.0].updated_at, s[i].updated_at),
        0 <= r.1 <= i,
        s[r.1].station_id == s[i].station_id,
        s[r.1].added_at == data::one_per_station(s)[r.0].added_at,
        s[r.1].record_id == data::one_per_station(s)[r.0].record_id,
    decreases s.len(),
{
    let front = s.drop_last();
    let m = data::one_per_station(front);
    let x = s.last();
    lemma_place(m, x.station_id);
    if i < s.len() - 1 {
        let (k, j) = lemma_covered(front, i);
        if text::precedes(m[k].updated_at, x.updated_at) && text::precedes(
            x.updated_at,
            s[i].updated_at,
        ) {
            text::precedes_is_transitive(m[k].updated_at, x.updated_at, s[i].updated_at);
        }
        (k, j)
    } else {
        text::precedes_is_total(x.updated_at, x.updated_at);
        match data::place_of(m, x.station_id) {
            Some(k) => {
                lemma_made_of(front);
                assert(m[k].station_id == x.station_id);
                let j = choose|j: int|
                    {
                        &&& 0 <= j < front.len()
                        &&& (#[trigger] front[j]).station_id == m[k].station_id
                        &&& front[j].record_id == m[k].record_id
                        &&& front[j].added_at == m[k].added_at
                    };
                text::precedes_is_total(m[k].updated_at, x.updated_at);
                (k, j)
            },
            None => (m.len() as int, i),
        }
    }
}

/// A favourite whose station is found is merged with the others of that station: what
/// stands for them was changed no earlier than any of them, was added no later than
/// any of them, and has the record of one that was added then.
pub proof fn merged_favourites_were_added_first_and_changed_last(
    c: CatalogView,
    before: ProfileView,
    after: ProfileView,
    i: int,
)
    requires
        data::is_moved(c, before, after),
        0 <= i < before.favourites.len(),
        c.resolution(before.favourites[i].station_id) is Ok,
    ensures
        exists|k: int|
            {
                &&& 0 <= k < after.favourites.len()
                &&& (#[trigger] after.favourites[k]).station_id == c.resolution(
                    before.favourites[i].station_id,
                )->Ok_0
                &&& !text::precedes(after.favourites[k].updated_at, before.favourites[i].updated_at)
                &&& !text::precedes(before.favourites[i].added_at, after.favourites[k].added_at)
            },
{
    let s = before.favourites;
    let found = data::found_favourites(c, s);
    let sorted = order::arranged::<Favourite>(found);
    let x = FavouriteView { station_id: c.resolution(s[i].station_id)->Ok_0, ..s[i] };
    lemma_favourite_found(c, s, i);
    order::sorting_keeps::<Favourite>(found);
    data::laws::favourites_have_an_order();
    order::sorting_orders::<Favourite>(found);
    assert(sorted.contains(x));
    let n = sorted.index_of(x);
    let m = after.favourites;
    let (k, j) = lemma_covered(sorted, n);
    text::precedes_is_total(x.added_at, x.added_at);
    if j < n {
        assert(!data::records::favourite_before(sorted[n], sorted[j]));
    }
    assert(m[k].station_id == x.station_id);
}

/// Every favourite of a moved profile is of a station of the catalog, and was one of
/// before: its record and the time at which it was added are those of a favourite
/// whose station is the same now, and so is the time of its last change.
pub proof fn moved_favourites_are_of_active_stations(
    c: CatalogView,
    before: ProfileView,
    after: ProfileView,
    k: int,
)
    requires
        catalog::legacy_is_active(c),
        data::is_moved(c, before, after),
        0 <= k < after.favourites.len(),
    ensures
        c.active.contains(after.favourites[k].station_id),
        exists|i: int|
            {
                &&& 0 <= i < before.favourites.len()
                &&& c.resolution((#[trigger] before.favourites[i]).station_id) == Ok::<
                    _,
                    (Seq<char>, Seq<Seq<char>>),
                >(after.favourites[k].station_id)
                &&& before.favourites[i].record_id == after.favourites[k].record_id
                &&& before.favourites[i].added_at == after.favourites[k].added_at
            },
        exists|i: int|
            {
                &&& 0 <= i < before.favourites.len()
                &&& c.resolution((#[trigger] before.favourites[i]).station_id) == Ok::<
                    _,
                    (Seq<char>, Seq<Seq<char>>),
                >(after.favourites[k].station_id)
                &&& before.favourites[i].updated_at == after.favourites[k].updated_at
            },
{
    let s = before.favourites;
    let m = after.favourites;
    let found = data::found_favourites(c, s);
    let sorted = order::arranged::<Favourite>(found);
    order::sorting_keeps::<Favourite>(found);
    lemma_made_of(sorted);
    let a = choose|i: int|
        {
            &&& 0 <= i < sorted.len()
            &&& (#[trigger] sorted[i]).station_id == m[k].station_id
            &&& sorted[i].record_id == m[k].record_id
            &&& sorted[i].added_at == m[k].added_at
        };
    let b = choose|i: int|
        {
            &&& 0 <= i < sorted.len()
            &&& (#[trigger] sorted[i]).station_id == m[k].station_id
            &&& sorted[i].updated_at == m[k].updated_at
        };
    assert(sorted.contains(sorted[a]) && sorted.contains(sorted[b]));
    assert(found.contains(sorted[a]) && found.contains(sorted[b]));
    let p = found.index_of(sorted[a]);
    let q = found.index_of(sorted[b]);
    let i = lemma_favourite_from(c, s, p);
    let j = lemma_favourite_from(c, s, q);
    catalog::what_resolves_is_active(c, s[i].station_id);
    assert(s[i].record_id == m[k].record_id);
    assert(s[j].updated_at == m[k].updated_at);
}

/// Two favourites of one station become one: it keeps the record, the station and the
/// time at which it was added of the first, and has the later of the two changes. The
/// name and the catalog are those of the later change; where the first was changed
/// last, the second only fills in what it lacks.
pub proof fn joining_favourites_keeps_the_later_change(a: FavouriteView, b: FavouriteView)
    ensures
        data::joined_favourite(a, b).record_id == a.record_id,
        data::joined_favourite(a, b).station_id == a.station_id,
        data::joined_favourite(a, b).added_at == a.added_at,
        !text::precedes(data::joined_favourite(a, b).updated_at, a.updated_at),
        !text::precedes(data::joined_favourite(a, b).updated_at, b.updated_at),
        text::precedes(a.updated_at, b.updated_at) ==> {
            &&& data::joined_favourite(a, b).updated_at == b.updated_at
            &&& data::joined_favourite(a, b).metadata == b.metadata
        },
        !text::precedes(a.updated_at, b.updated_at) ==> {
            &&& data::joined_favourite(a, b).updated_at == a.updated_at
            &&& a.metadata.name is Some ==> data::joined_favourite(a, b).metadata.name
                == a.metadata.name
            &&& a.metadata.name is None ==> data::joined_favourite(a, b).metadata.name
                == b.metadata.name
            &&& a.metadata.catalog is Some ==> data::joined_favourite(a, b).metadata.catalog
                == a.metadata.catalog
            &&& a.metadata.catalog is None ==> data::joined_favourite(a, b).metadata.catalog
                == b.metadata.catalog
        },
{
    text::precedes_is_total(a.updated_at, b.updated_at);
    text::precedes_is_total(a.updated_at, a.updated_at);
    text::precedes_is_total(b.updated_at, b.updated_at);
}

/// Moving a profile touches neither what it is called nor when it was made or changed.
pub proof fn moving_keeps_the_profile(c: CatalogView, before: ProfileView, after: ProfileView)
    requires
        data::is_moved(c, before, after),
    ensures
        after.profile_id == before.profile_id,
        after.schema_version == before.schema_version,
        after.created_at == before.created_at,
        after.updated_at == before.updated_at,
        after.metadata == before.metadata,
        after.unresolved.len() - before.unresolved.len() == (before.history.len()
            - after.history.len()) + data::lost_favourites(c, before.favourites).len(),
{
    data::laws::no_play_is_lost(c, before.history);
    assert(data::asides(after.unresolved).len() == after.unresolved.len());
    assert(data::asides(before.unresolved).len() == before.unresolved.len());
}

/// A station that is no favourite becomes one, with this record, this time and the
/// name that the station has, behind those that are there, unless there are five
/// hundred. The profile is stamped with the time at which it was saved.
pub proof fn marking_adds_a_favourite(
    p: ProfileView,
    id: Seq<char>,
    name: Seq<char>,
    catalog: Option<Seq<char>>,
    ts: Seq<char>,
    record_id: u128,
    saved: Result<Seq<char>, Seq<char>>,
)
    requires
        forall|i: int| 0 <= i < p.favourites.len() ==> (#[trigger] p.favourites[i]).station_id != id,
    ensures
        ({
            let (q, r) = data::toggled(p, id, name, catalog, Ok(ts), record_id, saved);
            &&& p.favourites.len() < 500 ==> {
                &&& q.favourites.len() == p.favourites.len() + 1
                &&& q.favourites.drop_last() == p.favourites
                &&& q.favourites.last().station_id == id
                &&& q.favourites.last().record_id == record_id
                &&& q.favourites.last().added_at == ts
                &&& q.favourites.last().updated_at == ts
                &&& q.favourites.last().metadata.name == Some(name)
                &&& q.favourites.last().metadata.catalog == catalog
                &&& saved matches Ok(t) ==> r == Ok::<bool, ErrorView>(true) && q.updated_at == t
                &&& saved matches Err(e) ==> r == Err::<bool, ErrorView>(ErrorView::Invalid(e))
                    && q.updated_at == p.updated_at
            }
            &&& p.favourites.len() >= 500 ==> q == p && r == Err::<bool, ErrorView>(
                ErrorView::Invalid("favourites limit reached"@),
            )
            &&& q.profile_id == p.profile_id && q.created_at == p.created_at
            &&& q.history == p.history && q.unresolved == p.unresolved && q.metadata == p.metadata
        }),
{
    let (q, r) = data::toggled(p, id, name, catalog, Ok(ts), record_id, saved);
    if p.favourites.len() < 500 {
        assert(q.favourites.drop_last() =~= p.favourites);
    }
}

/// A station that is a favourite is one no longer, whatever the clock says, and the
/// favourites of the other stations stay.
pub proof fn unmarking_removes_the_favourite(
    p: ProfileView,
    id: Seq<char>,
    name: Seq<char>,
    catalog: Option<Seq<char>>,
    added: Result<Seq<char>, Seq<char>>,
    record_id: u128,
    saved: Result<Seq<char>, Seq<char>>,
    i: int,
)
    requires
        0 <= i < p.favourites.len(),
        p.favourites[i].station_id == id,
    ensures
        ({
            let (q, r) = data::toggled(p, id, name, catalog, added, record_id, saved);
            &&& forall|f: FavouriteView| #[trigger]
                q.favourites.contains(f) <==> p.favourites.contains(f) && f.station_id != id
            &&& q.favourites.len() < p.favourites.len()
            &&& saved matches Ok(t) ==> r == Ok::<bool, ErrorView>(false) && q.updated_at == t
            &&& saved matches Err(e) ==> r == Err::<bool, ErrorView>(ErrorView::Invalid(e))
                && q.updated_at == p.updated_at
            &&& q.profile_id == p.profile_id && q.created_at == p.created_at
            &&& q.history == p.history && q.unresolved == p.unresolved && q.metadata == p.metadata
        }),
{
    let (q, r) = data::toggled(p, id, name, catalog, added, record_id, saved);
    assert(data::has_favourite(p.favourites, id));
    let stays = |f: FavouriteView| f.station_id != id;
    assert(q.favourites == p.favourites.filter(stays));
    lemma_filtered(p.favourites, stays);
    assert(!stays(p.favourites[i]));
    assert forall|f: FavouriteView| #[trigger]
        q.favourites.contains(f) <==> p.favourites.contains(f) && f.station_id != id by {
        assert(stays(f) == (f.station_id != id));
    }
    lemma_filter_drops(p.favourites, stays, i);
}

pub(crate) proof fn lemma_filtered<T>(s: Seq<T>, stays: spec_fn(T) -> bool)
    ensures
        forall|x: T| #[trigger] s.filter(stays).contains(x) <==> s.contains(x) && stays(x),
        s.filter(stays).len() <= s.len(),
    decreases s.len(),
{
    reveal(Seq::filter);
    if s.len() > 0 {
        let front = s.drop_last();
        lemma_filtered(front, stays);
        let f0 = front.filter(stays);
        let f = s.filter(stays);
        assert forall|x: T| #[trigger] f.contains(x) <==> s.contains(x) && stays(x) by {
            if f.contains(x) {
                let k = f.index_of(x);
                if k < f0.len() {
                    assert(f0[k] == x);
                    assert(f0.contains(x));
                    let j = front.index_of(x);
                    assert(s[j] == x);
                } else {
                    assert(s[s.len() - 1] == x);
                }
            }
            if s.contains(x) && stays(x) {
                let j = s.index_of(x);
                if j < s.len() - 1 {
                    assert(front[j] == x);
                    assert(front.contains(x));
                    assert(f0.contains(x));
                    let k = f0.index_of(x);
                    assert(f[k] == x);
                } else {
                    assert(f[f.len() - 1] == x);
                }
            }
        }
    }
}

proof fn lemma_filter_drops<T>(s: Seq<T>, stays: spec_fn(T) -> bool, i: int)
    requires
        0 <= i < s.len(),
        !stays(s[i]),
    ensures
        s.filter(stays).len() < s.len(),
    decreases s.len(),
{
    reveal(Seq::filter);
    let front = s.drop_last();
    lemma_filtered(front, stays);
    if i < s.len() - 1 {
        lemma_filter_drops(front, stays, i);
    }
}

/// The latest of a list of times is there, no time of the list is after it, and each
/// that stands behind it is before it. A time that cannot be read is before all others.
pub proof fn the_latest_time_is_the_last_of_the_greatest(
    times: Seq<Result<int, Seq<char>>>,
    j: int,
)
    requires
        0 <= j < times.len(),
    ensures
        0 <= data::latest(times) < times.len(),
        times[j] matches Ok(t) ==> (times[data::latest(times)] matches Ok(u) && t <= u),
        j > data::latest(times) ==> times[data::latest(times)] is Ok && (times[j] matches Ok(t)
            ==> t < times[data::latest(times)]->Ok_0),
    decreases times.len(),
{
    if times.len() > 1 {
        let front = times.drop_last();
        the_latest_time_is_the_last_of_the_greatest(front, 0);
        if j < front.len() {
            the_latest_time_is_the_last_of_the_greatest(front, j);
        }
    }
}

/// A station that was played last, not more than five minutes ago, goes on: its entry
/// keeps its record, its beginning, how long it was played and where it came from,
/// and has the new time and the names that the station and the catalog have now.
pub proof fn a_play_goes_on_within_five_minutes(
    h: Seq<HistoryView>,
    times: Seq<Result<int, Seq<char>>>,
    id: Seq<char>,
    name: Seq<char>,
    catalog: Option<Seq<char>>,
    ts: Seq<char>,
    started: int,
    record_id: u128,
)
    requires
        h.len() == times.len(),
        h.len() > 0,
        h[data::latest(times)].station_id == id,
        times[data::latest(times)] matches Ok(t) && started - t <= 300_000_000_000,
    ensures
        data::noted(h, times, id, name, catalog, ts, started, record_id) matches Ok(g) && {
            let k = data::latest(times);
            &&& g.len() == h.len()
            &&& g[k].record_id == h[k].record_id
            &&& g[k].station_id == id
            &&& g[k].started_at == h[k].started_at
            &&& g[k].last_played_at == ts
            &&& g[k].ended_at == Some(ts)
            &&& g[k].play_duration_ms == h[k].play_duration_ms
            &&& g[k].metadata.name == Some(name)
            &&& g[k].metadata.catalog == catalog
            &&& g[k].metadata.source == h[k].metadata.source
            &&& forall|i: int| 0 <= i < h.len() && i != k ==> #[trigger] g[i] == h[i]
        },
{
    the_latest_time_is_the_last_of_the_greatest(times, 0);
}

/// A play of another station, or of the same one after more than five minutes, gets an
/// entry of its own behind the others: it begins and ends now, has lasted for no time,
/// and comes from the catalog that the program brings.
pub proof fn a_new_play_gets_its_own_entry(
    h: Seq<HistoryView>,
    times: Seq<Result<int, Seq<char>>>,
    id: Seq<char>,
    name: Seq<char>,
    catalog: Option<Seq<char>>,
    ts: Seq<char>,
    started: int,
    record_id: u128,
)
    requires
        h.len() == times.len(),
        h.len() == 0 || h[data::latest(times)].station_id != id || (times[data::latest(
            times,
        )] matches Ok(t) && started - t > 300_000_000_000),
    ensures
        data::noted(h, times, id, name, catalog, ts, started, record_id) matches Ok(g) && {
            &&& g.len() == h.len() + 1
            &&& g.drop_last() == h
            &&& g.last().record_id == record_id
            &&& g.last().station_id == id
            &&& g.last().started_at == ts
            &&& g.last().last_played_at == ts
            &&& g.last().ended_at == Some(ts)
            &&& g.last().play_duration_ms == Some(0u64)
            &&& g.last().metadata.name == Some(name)
            &&& g.last().metadata.catalog == catalog
            &&& g.last().metadata.source == Some("bundled"@)
        },
{
    let g = data::noted(h, times, id, name, catalog, ts, started, record_id)->Ok_0;
    assert(g.drop_last() =~= h);
}

proof fn lemma_recent_stays(
    h: Seq<HistoryView>,
    times: Seq<Result<int, Seq<char>>>,
    cutoff: int,
    i: int,
)
    requires
        times.len() >= h.len(),
        0 <= i < h.len(),
        times[i] matches Ok(t) && t >= cutoff,
    ensures
        data::recent(h, times, cutoff).contains(h[i]),
    decreases h.len(),
{
    let front = h.drop_last();
    let r0 = data::recent(front, times, cutoff);
    let r = data::recent(h, times, cutoff);
    if i == h.len() - 1 {
        assert(r[r.len() - 1] == h[i]);
    } else {
        lemma_recent_stays(front, times, cutoff, i);
        let k = r0.index_of(h[i]);
        assert(r[k] == h[i]);
    }
}

/// A play that is recent enough is kept, unless five hundred are, none of which it
/// stands before.
pub proof fn recent_plays_are_kept(
    h: Seq<HistoryView>,
    times: Seq<Result<int, Seq<char>>>,
    cutoff: int,
    i: int,
)
    requires
        times.len() == h.len(),
        0 <= i < h.len(),
        times[i] matches Ok(t) && t >= cutoff,
    ensures
        data::kept(h, times, cutoff).contains(h[i]) || {
            &&& data::kept(h, times, cutoff).len() == 500
            &&& forall|k: int|
                0 <= k < 500 ==> !text::precedes(
                    (#[trigger] data::kept(h, times, cutoff)[k]).last_played_at,
                    h[i].last_played_at,
                )
        },
{
    let r = data::recent(h, times, cutoff);
    let s = order::arranged::<PlaybackHistoryEntry>(r);
    let all = data::kept(h, times, cutoff);
    lemma_recent_stays(h, times, cutoff, i);
    data::laws::plays_have_an_order();
    order::sorting_orders::<PlaybackHistoryEntry>(r);
    order::sorting_keeps::<PlaybackHistoryEntry>(r);
    assert(s.contains(h[i]));
    let n = s.index_of(h[i]);
    if n < all.len() {
        assert(all[n] == h[i]);
    } else {
        assert forall|k: int| 0 <= k < 500 implies !text::precedes(
            (#[trigger] all[k]).last_played_at,
            h[i].last_played_at,
        ) by {
            assert(all[k] == s[k]);
            assert(!data::records::history_before(s[n], s[k]));
        }
    }
}

/// What is kept of a history stands with the latest play first.
pub proof fn kept_plays_stand_latest_first(
    h: Seq<HistoryView>,
    times: Seq<Result<int, Seq<char>>>,
    cutoff: int,
    i: int,
    j: int,
)
    requires
        times.len() == h.len(),
        0 <= i < j < data::kept(h, times, cutoff).len(),
    ensures
        !text::precedes(
            data::kept(h, times, cutoff)[i].last_played_at,
            data::kept(h, times, cutoff)[j].last_played_at,
        ),
        data::kept(h, times, cutoff)[i].last_played_at == data::kept(
            h,
            times,
            cutoff,
        )[j].last_played_at ==> !text::precedes(
            data::kept(h, times, cutoff)[i].started_at,
            data::kept(h, times, cutoff)[j].started_at,
        ),
{
    data::laws::history_is_ordered_bounded_and_recent(h, times, cutoff);
    let all = data::kept(h, times, cutoff);
    assert(!data::records::history_before(all[j], all[i]));
}

/// After a play was remembered no play of the history is more than ninety days old,
/// there are at most five hundred, and nothing else of the profile has changed but the
/// time of its change. Where the clock or a time cannot be read, nothing has changed.
pub proof fn remembering_a_play_keeps_ninety_days(
    p: ProfileView,
    id: Seq<char>,
    name: Seq<char>,
    catalog: Option<Seq<char>>,
    now: Result<Seq<char>, Seq<char>>,
    record_id: u128,
    moment: (i64, u32),
    saved: Result<Seq<char>, Seq<char>>,
)
    ensures
        ({
            let (q, r) = data::played(p, id, name, catalog, now, record_id, moment, saved);
            &&& q.favourites == p.favourites && q.unresolved == p.unresolved
            &&& q.profile_id == p.profile_id && q.created_at == p.created_at && q.metadata
                == p.metadata
            &&& now matches Err(e) ==> q == p && r == Err::<(), ErrorView>(ErrorView::Invalid(e))
            &&& now matches Ok(ts) ==> (clock::rfc3339_time(ts) matches Err(e) ==> q == p && r
                == Err::<(), ErrorView>(ErrorView::Invalid(e)))
            &&& r is Ok ==> {
                &&& saved == Ok::<Seq<char>, Seq<char>>(q.updated_at)
                &&& q.history.len() <= 500
                &&& forall|k: int| #![trigger q.history[k]]
                    0 <= k < q.history.len() ==> (clock::rfc3339_time(
                        q.history[k].last_played_at,
                    ) matches Ok(t) && t.0 * 1_000_000_000 + t.1 >= moment.0 * 1_000_000_000
                        + moment.1 - 7_776_000 * 1_000_000_000)
            }
        }),
{
    let (q, r) = data::played(p, id, name, catalog, now, record_id, moment, saved);
    if r is Ok {
        let ts = now->Ok_0;
        let started = clock::instant(clock::rfc3339_time(ts))->Ok_0;
        let h = data::noted(
            p.history,
            data::times_of(p.history),
            id,
            name,
            catalog,
            ts,
            started,
            record_id,
        )->Ok_0;
        let cutoff = clock::nanos_of(moment) - data::RETENTION_NANOS;
        let times = data::times_of(h);
        data::laws::history_is_ordered_bounded_and_recent(h, times, cutoff);
        assert forall|k: int| #![trigger q.history[k]] 0 <= k < q.history.len() implies (
        clock::rfc3339_time(q.history[k].last_played_at) matches Ok(t) && t.0 * 1_000_000_000 + t.1
            >= moment.0 * 1_000_000_000 + moment.1 - 7_776_000 * 1_000_000_000) by {
            let i = choose|i: int|
                0 <= i < h.len() && #[trigger] h[i] == q.history[k] && (times[i] matches Ok(t) && t
                    >= cutoff);
            assert(times[i] == clock::instant(clock::rfc3339_time(h[i].last_played_at)));
        }
    }
}

/// A play that is remembered stands in the history, with the time of the play, unless
/// that time is more than ninety days before the moment, or five hundred plays that
/// it does not stand before are there.
pub proof fn a_remembered_play_is_in_the_history(
    p: ProfileView,
    id: Seq<char>,
    name: Seq<char>,
    catalog: Option<Seq<char>>,
    ts: Seq<char>,
    record_id: u128,
    moment: (i64, u32),
    saved: Result<Seq<char>, Seq<char>>,
)
    requires
        clock::rfc3339_time(ts) matches Ok(t) && t.0 * 1_000_000_000 + t.1 >= moment.0
            * 1_000_000_000 + moment.1 - 7_776_000 * 1_000_000_000,
        data::played(p, id, name, catalog, Ok(ts), record_id, moment, saved).1 is Ok,
    ensures
        ({
            let q = data::played(p, id, name, catalog, Ok(ts), record_id, moment, saved).0;
            ||| exists|k: int|
                {
                    &&& 0 <= k < q.history.len()
                    &&& (#[trigger] q.history[k]).station_id == id
                    &&& q.history[k].last_played_at == ts
                    &&& q.history[k].metadata.name == Some(name)
                    &&& q.history[k].metadata.catalog == catalog
                }
            ||| {
                &&& q.history.len() == 500
                &&& forall|k: int|
                    0 <= k < 500 ==> !text::precedes(
                        (#[trigger] q.history[k]).last_played_at,
                        ts,
                    )
            }
        }),
{
    let q = data::played(p, id, name, catalog, Ok(ts), record_id, moment, saved).0;
    let started = clock::instant(clock::rfc3339_time(ts))->Ok_0;
    let before = data::times_of(p.history);
    let h = data::noted(p.history, before, id, name, catalog, ts, started, record_id)->Ok_0;
    let cutoff = clock::nanos_of(moment) - data::RETENTION_NANOS;
    if p.history.len() > 0 {
        the_latest_time_is_the_last_of_the_greatest(before, 0);
    }
    let i = if h.len() == p.history.len() {
        data::latest(before)
    } else {
        h.len() - 1
    };
    assert(h[i].station_id == id && h[i].last_played_at == ts);
    assert(data::times_of(h)[i] == Ok::<int, Seq<char>>(started));
    recent_plays_are_kept(h, data::times_of(h), cutoff, i);
    if q.history.contains(h[i]) {
        let k = q.history.index_of(h[i]);
        assert(q.history[k] == h[i]);
    }
}

/// Forgetting leaves the notes on favourites and everything else, and says whether it
/// could be saved.
pub proof fn forgetting_keeps_all_but_plays(p: ProfileView, saved: Result<Seq<char>, Seq<char>>)
    ensures
        ({
            let (q, r) = data::forgotten(p, saved);
            &&& q.history.len() == 0
            &&& forall|u: UnresolvedView| #[trigger]
                q.unresolved.contains(u) <==> p.unresolved.contains(u) && u.what.source_kind
                    != "history"@
            &&& q.favourites == p.favourites && q.profile_id == p.profile_id
            &&& q.created_at == p.created_at && q.metadata == p.metadata
            &&& saved matches Ok(t) ==> r == Ok::<(), ErrorView>(()) && q.updated_at == t
            &&& saved matches Err(e) ==> r == Err::<(), ErrorView>(ErrorView::Invalid(e))
                && q.updated_at == p.updated_at
        }),
{
    let (q, r) = data::forgotten(p, saved);
    let stays = |u: UnresolvedView| u.what.source_kind != "history"@;
    assert(q.unresolved == p.unresolved.filter(stays));
    lemma_filtered(p.unresolved, stays);
    assert forall|u: UnresolvedView| #[trigger]
        q.unresolved.contains(u) <==> p.unresolved.contains(u) && u.what.source_kind
            != "history"@ by {
        assert(stays(u) == (u.what.source_kind != "history"@));
    }
}

/// Favourites that were moved stand with the one that was added first in front, and those
/// that were added at once by their stations.
pub proof fn moved_favourites_stand_by_their_time(
    c: CatalogView,
    before: ProfileView,
    after: ProfileView,
    i: int,
    j: int,
)
    requires
        data::is_moved(c, before, after),
        0 <= i < j < after.favourites.len(),
    ensures
        !text::precedes(after.favourites[j].added_at, after.favourites[i].added_at),
        after.favourites[i].added_at == after.favourites[j].added_at ==> text::precedes(
            after.favourites[i].station_id,
            after.favourites[j].station_id,
        ),
{
    data::laws::moved_favourites_are_in_order(c, before, after);
    data::laws::each_station_is_a_favourite_once(c, before.favourites);
    let m = after.favourites;
    assert(!data::records::favourite_before(m[j], m[i]));
    text::precedes_is_total(m[i].station_id, m[j].station_id);
    assert(m[i].station_id != m[j].station_id);
}

/// Plays of one time that began at one time stand by the numbers of their records.
pub proof fn plays_of_one_time_stand_by_their_records(
    h: Seq<HistoryView>,
    times: Seq<Result<int, Seq<char>>>,
    cutoff: int,
    i: int,
    j: int,
)
    requires
        times.len() == h.len(),
        0 <= i < j < data::kept(h, times, cutoff).len(),
        data::kept(h, times, cutoff)[i].last_played_at == data::kept(
            h,
            times,
            cutoff,
        )[j].last_played_at,
        data::kept(h, times, cutoff)[i].started_at == data::kept(h, times, cutoff)[j].started_at,
    ensures
        data::kept(h, times, cutoff)[i].record_id <= data::kept(h, times, cutoff)[j].record_id,
{
    data::laws::history_is_ordered_bounded_and_recent(h, times, cutoff);
    let all = data::kept(h, times, cutoff);
    assert(!data::records::history_before(all[j], all[i]));
}

/// A profile that was opened keeps the plays of ninety days, at most five hundred of them,
/// all of stations of the catalog.
pub proof fn an_opened_profile_keeps_ninety_days(
    c: CatalogView,
    before: ProfileView,
    after: ProfileView,
    moment: (i64, u32),
    k: int,
)
    requires
        catalog::legacy_is_active(c),
        data::is_migrated(c, before, after, moment),
        0 <= k < after.history.len(),
    ensures
        after.history.len() <= 500,
        clock::rfc3339_time(after.history[k].last_played_at) matches Ok(t) && t.0 * 1_000_000_000
            + t.1 >= moment.0 * 1_000_000_000 + moment.1 - 7_776_000 * 1_000_000_000,
        c.active.contains(after.history[k].station_id),
{
    let moved = choose|moved: ProfileView| #[trigger]
        data::is_moved(c, before, moved) && after == (ProfileView {
            history: data::kept(
                moved.history,
                data::times_of(moved.history),
                clock::nanos_of(moment) - data::RETENTION_NANOS,
            ),
            ..moved
        });
    let h = moved.history;
    let times = data::times_of(h);
    let cutoff = clock::nanos_of(moment) - data::RETENTION_NANOS;
    data::laws::history_is_ordered_bounded_and_recent(h, times, cutoff);
    let all = data::kept(h, times, cutoff);
    let i = choose|i: int|
        0 <= i < h.len() && #[trigger] h[i] == all[k] && (times[i] matches Ok(t) && t >= cutoff);
    assert(times[i] == clock::instant(clock::rfc3339_time(h[i].last_played_at)));
    moved_plays_are_of_active_stations(c, before, moved, i);
}

/// A change is stamped with the time at which it was saved; where it could not be, the time
/// stays and the error is told.
pub proof fn changes_are_stamped(p: ProfileView, ts: Seq<char>, e: Seq<char>)
    ensures
        data::stamped(p, Ok(ts), true).0 == (ProfileView { updated_at: ts, ..p }),
        data::stamped(p, Ok(ts), true).1 == Ok::<bool, ErrorView>(true),
        data::stamped(p, Err(e), true).0 == p,
        data::stamped(p, Err(e), true).1 == Err::<bool, ErrorView>(ErrorView::Invalid(e)),
{
}

/// The journal of a move says which catalog it was to, when it was made, and how many
/// records there are of each kind.
pub proof fn the_journal_counts_the_records(
    timestamp: Seq<char>,
    version: Option<Seq<char>>,
    p: ProfileView,
)
    ensures
        ({
            let j = json::object_of(data::journal_pairs(timestamp, version, p));
            &&& j.member("sourceSchemaVersion"@) == Some(JsonView::Unsigned(1))
            &&& j.member("targetSchemaVersion"@) == Some(JsonView::Unsigned(1))
            &&& j.text_of("timestamp"@) == Some(timestamp)
            &&& version matches Some(v) ==> j.text_of("catalogVersion"@) == Some(v)
            &&& version is None ==> j.member("catalogVersion"@) == Some(JsonView::Null)
            &&& j.text_of("migration"@) == Some("lifecycle-resolution"@)
            &&& j.member("favourites"@) == Some(JsonView::Unsigned(p.favourites.len() as u64))
            &&& j.member("history"@) == Some(JsonView::Unsigned(p.history.len() as u64))
            &&& j.member("unresolved"@) == Some(JsonView::Unsigned(p.unresolved.len() as u64))
        }),
{
    reveal_strlit("sourceSchemaVersion");
    reveal_strlit("targetSchemaVersion");
    reveal_strlit("timestamp");
    reveal_strlit("catalogVersion");
    reveal_strlit("migration");
    reveal_strlit("favourites");
    reveal_strlit("history");
    reveal_strlit("unresolved");
    let a = data::journal_pairs(timestamp, version, p);
    assert(a[0].0.len() == 19 && a[0].0[0] == 's');
    assert(a[1].0.len() == 19 && a[1].0[0] == 't');
    assert(a[2].0.len() == 9 && a[2].0[0] == 't');
    assert(a[3].0.len() == 14);
    assert(a[4].0.len() == 9 && a[4].0[0] == 'm');
    assert(a[5].0.len() == 10 && a[5].0[0] == 'f');
    assert(a[6].0.len() == 7);
    assert(a[7].0.len() == 10 && a[7].0[0] == 'u');
    json::the_last_member_of_a_name_counts(a, 0);
    json::the_last_member_of_a_name_counts(a, 1);
    json::the_last_member_of_a_name_counts(a, 2);
    json::the_last_member_of_a_name_counts(a, 3);
    json::the_last_member_of_a_name_counts(a, 4);
    json::the_last_member_of_a_name_counts(a, 5);
    json::the_last_member_of_a_name_counts(a, 6);
    json::the_last_member_of_a_name_counts(a, 7);
}

} // verus!
