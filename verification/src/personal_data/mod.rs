//! Favourites and playback history, kept offline (profile v1).

use crate::clock;
use crate::order;
use crate::json;
use crate::json::{Json, JsonView};
use crate::stations::Station;
use crate::text;
use catalog::CatalogView;
use records::{DisplayView, FavouriteView, HistoryMetaView, HistoryView, SetAside, UnresolvedView};
use vstd::prelude::*;

pub mod catalog;
pub mod laws;
pub mod moves;
pub mod records;

pub use catalog::{CatalogResolver, Tombstone, TombstoneReason};
pub use records::{
    DisplayMetadata, Favourite, HistoryMetadata, LocalProfile, PlaybackHistoryEntry,
    UnresolvedStationReference,
};

verus! {

/// How many favourites a profile holds at most.
pub const MAX_FAVOURITES: usize = 500;

/// How many plays a profile remembers at most.
pub const MAX_HISTORY: usize = 500;

/// How long a play is remembered, in nanoseconds: 90 days.
pub const RETENTION_NANOS: i128 = 7_776_000_000_000_000;

/// Plays of one station within five minutes are one play; in nanoseconds.
pub const COALESCE_NANOS: i128 = 300_000_000_000;

/// No instant that a date can name lies this far from the Unix epoch, in
/// nanoseconds.
pub const MOMENT_BOUND: i128 = 10_000_000_000_000_000_000_000_000_000;

/// Why a profile cannot be used or changed.
#[derive(Debug)]
pub enum ProfileError {
    UnsupportedSchema(u32),
    Invalid(String),
}

/// The contents of a [`ProfileError`].
#[verifier::ext_equal]
pub enum ErrorView {
    UnsupportedSchema(u32),
    Invalid(Seq<char>),
}

impl View for ProfileError {
    type V = ErrorView;

    open spec fn view(&self) -> ErrorView {
        match self {
            ProfileError::UnsupportedSchema(v) => ErrorView::UnsupportedSchema(*v),
            ProfileError::Invalid(s) => ErrorView::Invalid(s@),
        }
    }
}

impl ProfileError {
    /// The error in words.
    pub fn message(&self) -> (s: String)
        ensures
            s@ == match self {
                ProfileError::UnsupportedSchema(v) => "unsupported personal profile schema "@
                    + text::decimal(*v as nat),
                ProfileError::Invalid(e) => "invalid personal profile: "@ + e@,
            },
    {
        match self {
            ProfileError::UnsupportedSchema(v) => {
                let n = text::decimal_text(*v as u64);
                text::joined_two("unsupported personal profile schema ", n.as_str())
            },
            ProfileError::Invalid(e) => text::joined_two("invalid personal profile: ", e.as_str()),
        }
    }
}

/// What a call came to.
pub open spec fn outcome<T>(r: Result<T, ProfileError>) -> Result<T, ErrorView> {
    match r {
        Ok(t) => Ok(t),
        Err(e) => Err(e@),
    }
}

/// What an outside call that gives text came to.
pub open spec fn text_outcome(r: Result<String, String>) -> Result<Seq<char>, Seq<char>> {
    match r {
        Ok(s) => Ok(s@),
        Err(e) => Err(e@),
    }
}

/// The contents of a [`LocalProfile`].
#[verifier::ext_equal]
pub struct ProfileView {
    pub schema_version: u32,
    pub profile_id: u128,
    pub created_at: Seq<char>,
    pub updated_at: Seq<char>,
    pub favourites: Seq<FavouriteView>,
    pub history: Seq<HistoryView>,
    pub unresolved: Seq<UnresolvedView>,
    pub metadata: Seq<char>,
}

impl View for LocalProfile {
    type V = ProfileView;

    open spec fn view(&self) -> ProfileView {
        ProfileView {
            schema_version: self.schema_version,
            profile_id: self.profile_id,
            created_at: self.created_at@,
            updated_at: self.updated_at@,
            favourites: order::views(self.favourites@),
            history: order::views(self.playback_history@),
            unresolved: order::views(self.unresolved_references@),
            metadata: self.metadata@,
        }
    }
}

/// A profile with nothing in it.
pub open spec fn empty_profile(id: u128, timestamp: Seq<char>) -> ProfileView {
    ProfileView {
        schema_version: 1,
        profile_id: id,
        created_at: timestamp,
        updated_at: timestamp,
        favourites: Seq::empty(),
        history: Seq::empty(),
        unresolved: Seq::empty(),
        metadata: "{}"@,
    }
}

impl LocalProfile {
    /// A profile with nothing in it.
    pub fn new_with(id: u128, timestamp: String) -> (p: LocalProfile)
        ensures
            p@ == empty_profile(id, timestamp@),
            p.schema_version == 1,
            p.profile_id == id,
            p.created_at@ == timestamp@,
            p.updated_at@ == timestamp@,
            p.favourites@.len() == 0,
            p.playback_history@.len() == 0,
            p.unresolved_references@.len() == 0,
            p.metadata@ == "{}"@,
    {
        let p = LocalProfile {
            schema_version: 1,
            profile_id: id,
            created_at: timestamp.clone(),
            updated_at: timestamp,
            favourites: Vec::new(),
            playback_history: Vec::new(),
            unresolved_references: Vec::new(),
            metadata: "{}".to_string(),
        };
        proof {
            assert(p@.favourites =~= Seq::empty());
            assert(p@.history =~= Seq::empty());
            assert(p@.unresolved =~= Seq::empty());
        }
        p
    }
}

// ---------------------------------------------------------------------------
// Moving records to the present catalog
// ---------------------------------------------------------------------------

/// The favourites whose stations are found, under the present identities.
pub open spec fn found_favourites(c: CatalogView, s: Seq<FavouriteView>) -> Seq<FavouriteView>
    decreases s.len(),
{
    if s.len() == 0 {
        s
    } else {
        let before = found_favourites(c, s.drop_last());
        match c.resolution(s.last().station_id) {
            Ok(id) => before.push(FavouriteView { station_id: id, ..s.last() }),
            Err(_) => before,
        }
    }
}

/// The favourites whose stations are not found, set aside.
pub open spec fn lost_favourites(c: CatalogView, s: Seq<FavouriteView>) -> Seq<SetAside>
    decreases s.len(),
{
    if s.len() == 0 {
        Seq::empty()
    } else {
        let before = lost_favourites(c, s.drop_last());
        match c.resolution(s.last().station_id) {
            Ok(_) => before,
            Err((reason, candidates)) => before.push(
                SetAside {
                    source_kind: "favourite"@,
                    original_station_id: s.last().station_id,
                    first_seen_at: s.last().added_at,
                    reason,
                    candidates,
                    name: s.last().metadata.name,
                    catalog: c.catalog_version,
                },
            ),
        }
    }
}

/// The plays whose stations are found, under the present identities.
pub open spec fn found_history(c: CatalogView, s: Seq<HistoryView>) -> Seq<HistoryView>
    decreases s.len(),
{
    if s.len() == 0 {
        s
    } else {
        let before = found_history(c, s.drop_last());
        match c.resolution(s.last().station_id) {
            Ok(id) => before.push(HistoryView { station_id: id, ..s.last() }),
            Err(_) => before,
        }
    }
}

/// The plays whose stations are not found, set aside.
pub open spec fn lost_history(c: CatalogView, s: Seq<HistoryView>) -> Seq<SetAside>
    decreases s.len(),
{
    if s.len() == 0 {
        Seq::empty()
    } else {
        let before = lost_history(c, s.drop_last());
        match c.resolution(s.last().station_id) {
            Ok(_) => before,
            Err((reason, candidates)) => before.push(
                SetAside {
                    source_kind: "history"@,
                    original_station_id: s.last().station_id,
                    first_seen_at: s.last().started_at,
                    reason,
                    candidates,
                    name: s.last().metadata.name,
                    catalog: c.catalog_version,
                },
            ),
        }
    }
}

/// Where a list of favourites first names a station.
pub open spec fn place_of(s: Seq<FavouriteView>, id: Seq<char>) -> Option<int>
    decreases s.len(),
{
    if s.len() == 0 {
        None
    } else {
        match place_of(s.drop_last(), id) {
            Some(i) => Some(i),
            None => if s.last().station_id == id {
                Some(s.len() - 1)
            } else {
                None
            },
        }
    }
}

/// The first where it is there, else the second.
pub open spec fn or_else(a: Option<Seq<char>>, b: Option<Seq<char>>) -> Option<Seq<char>> {
    if a is None {
        b
    } else {
        a
    }
}

/// Two favourites of one station made one: the first stays, with what is newer in
/// the second, or with what the first lacks.
pub open spec fn joined_favourite(a: FavouriteView, b: FavouriteView) -> FavouriteView {
    if text::precedes(a.updated_at, b.updated_at) {
        FavouriteView { updated_at: b.updated_at, metadata: b.metadata, ..a }
    } else {
        FavouriteView {
            metadata: DisplayView {
                name: or_else(a.metadata.name, b.metadata.name),
                catalog: or_else(a.metadata.catalog, b.metadata.catalog),
            },
            ..a
        }
    }
}

/// A favourite added to a list that names no station twice.
pub open spec fn with_favourite(s: Seq<FavouriteView>, f: FavouriteView) -> Seq<FavouriteView> {
    match place_of(s, f.station_id) {
        Some(i) => s.update(i, joined_favourite(s[i], f)),
        None => s.push(f),
    }
}

/// A list of favourites with each station named once.
pub open spec fn one_per_station(s: Seq<FavouriteView>) -> Seq<FavouriteView>
    decreases s.len(),
{
    if s.len() == 0 {
        s
    } else {
        with_favourite(one_per_station(s.drop_last()), s.last())
    }
}

/// The favourites of a profile moved to a catalog.
pub open spec fn moved_favourites(c: CatalogView, s: Seq<FavouriteView>) -> Seq<FavouriteView> {
    one_per_station(order::arranged::<Favourite>(found_favourites(c, s)))
}

/// What was set aside, without the UUIDs of the notes.
pub open spec fn asides(s: Seq<UnresolvedView>) -> Seq<SetAside> {
    s.map_values(|u: UnresolvedView| u.what)
}

/// The notes from the `n`th on have random UUIDs.
pub open spec fn fresh_from(s: Seq<UnresolvedView>, n: int) -> bool {
    forall|k: int| n <= k < s.len() ==> clock::is_v4((#[trigger] s[k]).reference_id)
}

/// A profile moved to a catalog: `after` is `before` with its records under the
/// present identities, and with those that name no station set aside under fresh
/// UUIDs, behind what was set aside before.
pub open spec fn is_moved(c: CatalogView, before: ProfileView, after: ProfileView) -> bool {
    &&& after.favourites == moved_favourites(c, before.favourites)
    &&& after.history == found_history(c, before.history)
    &&& asides(after.unresolved) == asides(before.unresolved) + lost_favourites(
        c,
        before.favourites,
    ) + lost_history(c, before.history)
    &&& after.unresolved.subrange(0, before.unresolved.len() as int) == before.unresolved
    &&& fresh_from(after.unresolved, before.unresolved.len() as int)
    &&& after == (ProfileView {
        favourites: after.favourites,
        history: after.history,
        unresolved: after.unresolved,
        ..before
    })
}

/// Sets a record aside under a fresh UUID.
fn unresolved_for(
    source_kind: &str,
    original_station_id: String,
    first_seen_at: String,
    reason: String,
    candidate_station_ids: Vec<String>,
    last_known_name: Option<String>,
    catalog_version: Option<String>,
) -> (u: UnresolvedStationReference)
    ensures
        u@.what == (SetAside {
            source_kind: source_kind@,
            original_station_id: original_station_id@,
            first_seen_at: first_seen_at@,
            reason: reason@,
            candidates: text::texts(candidate_station_ids@),
            name: text::maybe(last_known_name),
            catalog: text::maybe(catalog_version),
        }),
        clock::is_v4(u@.reference_id),
{
    UnresolvedStationReference {
        reference_id: clock::fresh_id(),
        source_kind: source_kind.to_string(),
        original_station_id,
        first_seen_at,
        reason,
        candidate_station_ids,
        last_known_name,
        catalog_version,
    }
}

/// Sorts favourites by whether their stations are found.
fn resolve_favourites(
    resolver: &CatalogResolver,
    list: &Vec<Favourite>,
    unresolved: &mut Vec<UnresolvedStationReference>,
) -> (found: Vec<Favourite>)
    ensures
        order::views(found@) == found_favourites(resolver@, order::views(list@)),
        asides(order::views(final(unresolved)@)) == asides(order::views(old(unresolved)@))
            + lost_favourites(resolver@, order::views(list@)),
        old(unresolved)@.len() <= final(unresolved)@.len(),
        final(unresolved)@.subrange(0, old(unresolved)@.len() as int) == old(unresolved)@,
        fresh_from(order::views(final(unresolved)@), old(unresolved)@.len() as int),
{
    let mut found: Vec<Favourite> = Vec::new();
    let ghost all = order::views(list@);
    let ghost c = resolver@;
    let ghost start = unresolved@;
    let mut i: usize = 0;
    proof {
        assert(all.subrange(0, 0) =~= Seq::empty());
        assert(order::views(found@) =~= Seq::empty());
        assert(asides(order::views(start)) + Seq::<SetAside>::empty() =~= asides(
            order::views(start),
        ));
        assert(start.subrange(0, start.len() as int) =~= start);
    }
    while i < list.len()
        invariant
            i <= list@.len(),
            all == order::views(list@),
            c == resolver@,
            start == old(unresolved)@,
            order::views(found@) == found_favourites(c, all.subrange(0, i as int)),
            asides(order::views(unresolved@)) == asides(order::views(start)) + lost_favourites(
                c,
                all.subrange(0, i as int),
            ),
            start.len() <= unresolved@.len(),
            unresolved@.subrange(0, start.len() as int) == start,
            fresh_from(order::views(unresolved@), start.len() as int),
        decreases list@.len() - i,
    {
        let mut value = list[i].clone();
        proof {
            assert(all.subrange(0, i + 1).drop_last() =~= all.subrange(0, i as int));
            assert(all.subrange(0, i + 1).last() == value@);
        }
        match resolver.resolve(value.station_id.as_str()) {
            Ok(id) => {
                value.station_id = id;
                let ghost held = value@;
                let ghost before = found@;
                found.push(value);
                proof {
                    assert(order::views(found@) =~= order::views(before).push(held));
                }
            },
            Err((reason, candidates)) => {
                let note = unresolved_for(
                    "favourite",
                    value.station_id,
                    value.added_at,
                    reason,
                    candidates,
                    value.metadata.last_known_name,
                    resolver.version(),
                );
                let ghost before = unresolved@;
                unresolved.push(note);
                proof {
                    assert(asides(order::views(unresolved@)) =~= asides(order::views(before)).push(
                        note@.what,
                    ));
                    assert(unresolved@.subrange(0, start.len() as int) =~= start);
                    assert(order::views(unresolved@) =~= order::views(before).push(note@));
                    assert(asides(order::views(unresolved@)) =~= asides(order::views(start))
                        + lost_favourites(c, all.subrange(0, i + 1)));
                }
            },
        }
        i = i + 1;
    }
    proof {
        assert(all.subrange(0, i as int) =~= all);
    }
    found
}

/// Sorts plays by whether their stations are found.
fn resolve_history(
    resolver: &CatalogResolver,
    list: &Vec<PlaybackHistoryEntry>,
    unresolved: &mut Vec<UnresolvedStationReference>,
) -> (found: Vec<PlaybackHistoryEntry>)
    ensures
        order::views(found@) == found_history(resolver@, order::views(list@)),
        asides(order::views(final(unresolved)@)) == asides(order::views(old(unresolved)@))
            + lost_history(resolver@, order::views(list@)),
        old(unresolved)@.len() <= final(unresolved)@.len(),
        final(unresolved)@.subrange(0, old(unresolved)@.len() as int) == old(unresolved)@,
        fresh_from(order::views(final(unresolved)@), old(unresolved)@.len() as int),
{
    let mut found: Vec<PlaybackHistoryEntry> = Vec::new();
    let ghost all = order::views(list@);
    let ghost c = resolver@;
    let ghost start = unresolved@;
    let mut i: usize = 0;
    proof {
        assert(all.subrange(0, 0) =~= Seq::empty());
        assert(order::views(found@) =~= Seq::empty());
        assert(asides(order::views(start)) + Seq::<SetAside>::empty() =~= asides(
            order::views(start),
        ));
        assert(start.subrange(0, start.len() as int) =~= start);
    }
    while i < list.len()
        invariant
            i <= list@.len(),
            all == order::views(list@),
            c == resolver@,
            start == old(unresolved)@,
            order::views(found@) == found_history(c, all.subrange(0, i as int)),
            asides(order::views(unresolved@)) == asides(order::views(start)) + lost_history(
                c,
                all.subrange(0, i as int),
            ),
            start.len() <= unresolved@.len(),
            unresolved@.subrange(0, start.len() as int) == start,
            fresh_from(order::views(unresolved@), start.len() as int),
        decreases list@.len() - i,
    {
        let mut value = list[i].clone();
        proof {
            assert(all.subrange(0, i + 1).drop_last() =~= all.subrange(0, i as int));
            assert(all.subrange(0, i + 1).last() == value@);
        }
        match resolver.resolve(value.station_id.as_str()) {
            Ok(id) => {
                value.station_id = id;
                let ghost held = value@;
                let ghost before = found@;
                found.push(value);
                proof {
                    assert(order::views(found@) =~= order::views(before).push(held));
                }
            },
            Err((reason, candidates)) => {
                let note = unresolved_for(
                    "history",
                    value.station_id,
                    value.started_at,
                    reason,
                    candidates,
                    value.metadata.last_known_name,
                    resolver.version(),
                );
                let ghost before = unresolved@;
                unresolved.push(note);
                proof {
                    assert(asides(order::views(unresolved@)) =~= asides(order::views(before)).push(
                        note@.what,
                    ));
                    assert(unresolved@.subrange(0, start.len() as int) =~= start);
                    assert(order::views(unresolved@) =~= order::views(before).push(note@));
                    assert(asides(order::views(unresolved@)) =~= asides(order::views(start))
                        + lost_history(c, all.subrange(0, i + 1)));
                }
            },
        }
        i = i + 1;
    }
    proof {
        assert(all.subrange(0, i as int) =~= all);
    }
    found
}

/// Where a list of favourites first names a station.
fn find_favourite(list: &Vec<Favourite>, id: &str) -> (r: Option<usize>)
    ensures
        match r {
            Some(i) => i < list@.len() && place_of(order::views(list@), id@) == Some(i as int),
            None => place_of(order::views(list@), id@) is None,
        },
{
    let ghost all = order::views(list@);
    let mut i: usize = 0;
    while i < list.len()
        invariant
            i <= list@.len(),
            all == order::views(list@),
            place_of(all.subrange(0, i as int), id@) is None,
        decreases list@.len() - i,
    {
        proof {
            assert(all.subrange(0, i + 1).drop_last() =~= all.subrange(0, i as int));
        }
        if text::same(list[i].station_id.as_str(), id) {
            proof {
                lemma_place_stays(all, i + 1, id@);
            }
            return Some(i);
        }
        i = i + 1;
    }
    proof {
        assert(all.subrange(0, i as int) =~= all);
    }
    None
}

proof fn lemma_place_stays(s: Seq<FavouriteView>, n: int, id: Seq<char>)
    requires
        0 <= n <= s.len(),
        place_of(s.subrange(0, n), id) is Some,
    ensures
        place_of(s, id) == place_of(s.subrange(0, n), id),
    decreases s.len() - n,
{
    if n == s.len() {
        assert(s.subrange(0, n) =~= s);
    } else {
        assert(s.subrange(0, n + 1).drop_last() =~= s.subrange(0, n));
        lemma_place_stays(s, n + 1, id);
    }
}

/// Names each station once.
fn merge_favourites(list: &Vec<Favourite>) -> (merged: Vec<Favourite>)
    ensures
        order::views(merged@) == one_per_station(order::views(list@)),
{
    let mut merged: Vec<Favourite> = Vec::new();
    let ghost all = order::views(list@);
    let mut i: usize = 0;
    proof {
        assert(all.subrange(0, 0) =~= Seq::empty());
        assert(order::views(merged@) =~= Seq::empty());
    }
    while i < list.len()
        invariant
            i <= list@.len(),
            all == order::views(list@),
            order::views(merged@) == one_per_station(all.subrange(0, i as int)),
        decreases list@.len() - i,
    {
        let value = list[i].clone();
        let ghost v = value@;
        let ghost before = merged@;
        proof {
            assert(all.subrange(0, i + 1).drop_last() =~= all.subrange(0, i as int));
            assert(all.subrange(0, i + 1).last() == v);
        }
        match find_favourite(&merged, value.station_id.as_str()) {
            Some(k) => {
                let mut existing = merged[k].clone();
                if text::before(existing.updated_at.as_str(), value.updated_at.as_str()) {
                    existing.updated_at = value.updated_at;
                    existing.metadata = value.metadata;
                } else {
                    if existing.metadata.last_known_name.is_none() {
                        existing.metadata.last_known_name = value.metadata.last_known_name;
                    }
                    if existing.metadata.catalog_version.is_none() {
                        existing.metadata.catalog_version = value.metadata.catalog_version;
                    }
                }
                proof {
                    assert(existing@ =~= joined_favourite(before[k as int]@, v));
                }
                let ghost held = existing@;
                merged.set(k, existing);
                proof {
                    assert(order::views(merged@) =~= order::views(before).update(k as int, held));
                }
            },
            None => {
                merged.push(value);
                proof {
                    assert(order::views(merged@) =~= order::views(before).push(v));
                }
            },
        }
        i = i + 1;
    }
    proof {
        assert(all.subrange(0, i as int) =~= all);
    }
    merged
}

/// Moves the records of a profile to a catalog.
pub fn resolve_records(profile: &mut LocalProfile, resolver: &CatalogResolver)
    ensures
        is_moved(resolver@, old(profile)@, final(profile)@),
{
    let ghost p0 = profile@;
    let mut unresolved = clone_unresolved(&profile.unresolved_references);
    let ghost u0 = unresolved@;
    let found = resolve_favourites(resolver, &profile.favourites, &mut unresolved);
    let ghost u1 = unresolved@;
    let sorted = order::arrange(found);
    let favourites = merge_favourites(&sorted);
    let history = resolve_history(resolver, &profile.playback_history, &mut unresolved);
    let ghost u2 = unresolved@;
    profile.favourites = favourites;
    profile.playback_history = history;
    profile.unresolved_references = unresolved;
    proof {
        assert(u2.subrange(0, u0.len() as int) =~= u1.subrange(0, u0.len() as int)) by {
            assert(u2.subrange(0, u1.len() as int) == u1);
            assert forall|k: int| 0 <= k < u0.len() implies u2[k] == u1[k] by {
                assert(u2.subrange(0, u1.len() as int)[k] == u1[k]);
            }
        }
        assert(fresh_from(order::views(u2), u0.len() as int)) by {
            assert forall|k: int| u0.len() <= k < u2.len() implies clock::is_v4(
                (#[trigger] order::views(u2)[k]).reference_id,
            ) by {
                if k < u1.len() {
                    assert(u2.subrange(0, u1.len() as int)[k] == u1[k]);
                    assert(order::views(u2)[k] == order::views(u1)[k]);
                }
            }
        }
        assert(order::views(u2).subrange(0, u0.len() as int) =~= order::views(u0)) by {
            assert forall|k: int| 0 <= k < u0.len() implies u2[k] == u0[k] by {
                assert(u2.subrange(0, u0.len() as int)[k] == u0[k]);
            }
        }
    }
}

/// A copy of what was set aside.
fn clone_unresolved(list: &Vec<UnresolvedStationReference>) -> (r: Vec<UnresolvedStationReference>)
    ensures
        order::views(r@) == order::views(list@),
{
    let mut out: Vec<UnresolvedStationReference> = Vec::new();
    let mut i: usize = 0;
    while i < list.len()
        invariant
            i <= list@.len(),
            out@.len() == i,
            forall|k: int| 0 <= k < i ==> (#[trigger] out@[k])@ == list@[k]@,
        decreases list@.len() - i,
    {
        out.push(list[i].clone());
        i = i + 1;
    }
    proof {
        assert(order::views(out@) =~= order::views(list@));
    }
    out
}

// ---------------------------------------------------------------------------
// How long plays are remembered
// ---------------------------------------------------------------------------

/// When the entries of a history were last played.
pub open spec fn times_of(h: Seq<HistoryView>) -> Seq<Result<int, Seq<char>>> {
    h.map_values(|e: HistoryView| clock::instant(clock::rfc3339_time(e.last_played_at)))
}

/// What a list of parsed times holds.
pub open spec fn parsed(times: Seq<Result<i128, String>>) -> Seq<Result<int, Seq<char>>> {
    times.map_values(|t: Result<i128, String>| parsed_time(t))
}

/// What a parsed time holds.
pub open spec fn parsed_time(t: Result<i128, String>) -> Result<int, Seq<char>> {
    match t {
        Ok(n) => Ok(n as int),
        Err(e) => Err(e@),
    }
}

/// The entries of a history whose times are known and not before `cutoff`.
pub open spec fn recent(
    h: Seq<HistoryView>,
    times: Seq<Result<int, Seq<char>>>,
    cutoff: int,
) -> Seq<HistoryView>
    decreases h.len(),
{
    if h.len() == 0 {
        h
    } else {
        let before = recent(h.drop_last(), times, cutoff);
        if times[h.len() - 1] matches Ok(t) && t >= cutoff {
            before.push(h.last())
        } else {
            before
        }
    }
}

/// The first `n` items of a list.
pub open spec fn at_most<T>(s: Seq<T>, n: int) -> Seq<T> {
    if s.len() > n {
        s.subrange(0, n)
    } else {
        s
    }
}

/// What is kept of a history: the recent entries, latest first, so many at most.
pub open spec fn kept(
    h: Seq<HistoryView>,
    times: Seq<Result<int, Seq<char>>>,
    cutoff: int,
) -> Seq<HistoryView> {
    at_most(order::arranged::<PlaybackHistoryEntry>(recent(h, times, cutoff)), MAX_HISTORY as int)
}

/// When the entries of a history were last played.
fn parse_times(history: &Vec<PlaybackHistoryEntry>) -> (times: Vec<Result<i128, String>>)
    ensures
        parsed(times@) == times_of(order::views(history@)),
        forall|i: int|
            0 <= i < times@.len() ==> ((#[trigger] times@[i]) matches Ok(t) ==> -MOMENT_BOUND < t
                < MOMENT_BOUND),
{
    let mut times: Vec<Result<i128, String>> = Vec::new();
    let mut i: usize = 0;
    while i < history.len()
        invariant
            i <= history@.len(),
            times@.len() == i,
            forall|k: int|
                0 <= k < i ==> parsed_time(#[trigger] times@[k]) == clock::instant(
                    clock::rfc3339_time(history@[k]@.last_played_at),
                ),
            forall|k: int|
                0 <= k < i ==> ((#[trigger] times@[k]) matches Ok(t) ==> -MOMENT_BOUND < t
                    < MOMENT_BOUND),
        decreases history@.len() - i,
    {
        match clock::parse_time(history[i].last_played_at.as_str()) {
            Ok(t) => times.push(Ok(clock::nanos(t))),
            Err(e) => times.push(Err(e)),
        }
        i = i + 1;
    }
    proof {
        assert(parsed(times@) =~= times_of(order::views(history@)));
    }
    times
}

/// Drops what is not to be remembered, where `times` says when each entry was last
/// played.
pub fn retain_parsed(
    history: &Vec<PlaybackHistoryEntry>,
    times: &Vec<Result<i128, String>>,
    cutoff: i128,
) -> (r: Vec<PlaybackHistoryEntry>)
    requires
        times@.len() == history@.len(),
    ensures
        order::views(r@) == kept(order::views(history@), parsed(times@), cutoff as int),
{
    let mut fresh: Vec<PlaybackHistoryEntry> = Vec::new();
    let ghost all = order::views(history@);
    let ghost ts = parsed(times@);
    let mut i: usize = 0;
    proof {
        assert(all.subrange(0, 0) =~= Seq::empty());
        assert(order::views(fresh@) =~= Seq::empty());
    }
    while i < history.len()
        invariant
            i <= history@.len(),
            times@.len() == history@.len(),
            all == order::views(history@),
            ts == parsed(times@),
            order::views(fresh@) == recent(all.subrange(0, i as int), ts, cutoff as int),
        decreases history@.len() - i,
    {
        let ghost before = fresh@;
        proof {
            assert(all.subrange(0, i + 1).drop_last() =~= all.subrange(0, i as int));
            assert(ts[i as int] == parsed_time(times@[i as int]));
        }
        match &times[i] {
            Ok(t) => {
                if *t >= cutoff {
                    fresh.push(history[i].clone());
                    proof {
                        assert(order::views(fresh@) =~= order::views(before).push(
                            history@[i as int]@,
                        ));
                    }
                }
            },
            Err(_e) => {},
        }
        i = i + 1;
    }
    proof {
        assert(all.subrange(0, i as int) =~= all);
    }
    let mut sorted = order::arrange(fresh);
    let ghost full = sorted@;
    if sorted.len() > MAX_HISTORY {
        sorted.truncate(MAX_HISTORY);
        proof {
            assert(order::views(sorted@) =~= order::views(full).subrange(0, MAX_HISTORY as int));
        }
    }
    sorted
}

/// Drops what is not to be remembered at the instant `now`.
pub fn retain_at(profile: &mut LocalProfile, now: (i64, u32))
    ensures
        final(profile)@ == (ProfileView {
            history: kept(
                old(profile)@.history,
                times_of(old(profile)@.history),
                clock::nanos_of(now) - RETENTION_NANOS,
            ),
            ..old(profile)@
        }),
{
    let cutoff: i128 = clock::nanos(now) - RETENTION_NANOS;
    let times = parse_times(&profile.playback_history);
    proof {
        assert(parsed(times@).len() == times_of(order::views(profile.playback_history@)).len());
    }
    profile.playback_history = retain_parsed(&profile.playback_history, &times, cutoff);
}

// ---------------------------------------------------------------------------
// Remembering a play
// ---------------------------------------------------------------------------

/// Whether `a` is before `b`, where a time that is not known is before every other.
pub open spec fn older(a: Result<int, Seq<char>>, b: Result<int, Seq<char>>) -> bool {
    match (a, b) {
        (Ok(x), Ok(y)) => x < y,
        (Err(_), Ok(_)) => true,
        _ => false,
    }
}

/// Where the latest time of a list stands, the last of several.
pub open spec fn latest(times: Seq<Result<int, Seq<char>>>) -> int
    decreases times.len(),
{
    if times.len() <= 1 {
        0
    } else {
        let k = latest(times.drop_last());
        if older(times.last(), times[k]) {
            k
        } else {
            times.len() - 1
        }
    }
}

/// An entry for a play that began at `ts`.
pub open spec fn new_entry(
    record_id: u128,
    station_id: Seq<char>,
    name: Seq<char>,
    catalog: Option<Seq<char>>,
    ts: Seq<char>,
) -> HistoryView {
    HistoryView {
        record_id,
        station_id,
        started_at: ts,
        last_played_at: ts,
        ended_at: Some(ts),
        play_duration_ms: Some(0u64),
        metadata: HistoryMetaView { name: Some(name), catalog, source: Some("bundled"@) },
    }
}

/// An entry of which a play at `ts` is the continuation.
pub open spec fn continued(
    e: HistoryView,
    name: Seq<char>,
    catalog: Option<Seq<char>>,
    ts: Seq<char>,
) -> HistoryView {
    HistoryView {
        last_played_at: ts,
        ended_at: Some(ts),
        metadata: HistoryMetaView { name: Some(name), catalog, ..e.metadata },
        ..e
    }
}

/// A history after a play at `ts`, which is the instant `started`: where the latest
/// entry is of the same station and not more than five minutes old it is
/// continued, else there is a new entry.
pub open spec fn noted(
    h: Seq<HistoryView>,
    times: Seq<Result<int, Seq<char>>>,
    station_id: Seq<char>,
    name: Seq<char>,
    catalog: Option<Seq<char>>,
    ts: Seq<char>,
    started: int,
    record_id: u128,
) -> Result<Seq<HistoryView>, Seq<char>> {
    let k = latest(times);
    let fresh = Ok(h.push(new_entry(record_id, station_id, name, catalog, ts)));
    if h.len() > 0 && h[k].station_id == station_id {
        match times[k] {
            Err(e) => Err(e),
            Ok(t) => if started - t <= COALESCE_NANOS {
                Ok(h.update(k, continued(h[k], name, catalog, ts)))
            } else {
                fresh
            },
        }
    } else {
        fresh
    }
}

/// Where the latest time of a list stands, the last of several.
pub fn latest_of(times: &Vec<Result<i128, String>>) -> (k: usize)
    ensures
        times@.len() > 0 ==> k < times@.len() && k == latest(parsed(times@)),
{
    let mut k: usize = 0;
    let ghost ts = parsed(times@);
    let mut i: usize = 1;
    while i < times.len()
        invariant
            ts == parsed(times@),
            1 <= i,
            times@.len() > 0 ==> i <= times@.len(),
            times@.len() > 0 ==> k < i && k == latest(ts.subrange(0, i as int)),
        decreases times@.len() - i,
    {
        let is_older = match (&times[i], &times[k]) {
            (Ok(a), Ok(b)) => *a < *b,
            (Err(_a), Ok(_b)) => true,
            _ => false,
        };
        proof {
            assert(ts.subrange(0, i + 1).drop_last() =~= ts.subrange(0, i as int));
            assert(ts[i as int] == parsed_time(times@[i as int]));
            assert(ts[k as int] == parsed_time(times@[k as int]));
        }
        if !is_older {
            k = i;
        }
        i = i + 1;
    }
    proof {
        if times@.len() > 0 {
            assert(ts.subrange(0, i as int) =~= ts);
        }
    }
    k
}

/// Remembers a play, where `times` says when each entry was last played.
pub fn note_play(
    history: &mut Vec<PlaybackHistoryEntry>,
    times: &Vec<Result<i128, String>>,
    station: &Station,
    catalog_version: Option<String>,
    ts: &str,
    started: (i64, u32),
    record_id: u128,
) -> (r: Result<(), ProfileError>)
    requires
        times@.len() == old(history)@.len(),
        forall|i: int|
            0 <= i < times@.len() ==> ((#[trigger] times@[i]) matches Ok(t) ==> -MOMENT_BOUND < t
                < MOMENT_BOUND),
    ensures
        match noted(
            order::views(old(history)@),
            parsed(times@),
            station.id@,
            station.name@,
            text::maybe(catalog_version),
            ts@,
            clock::nanos_of(started),
            record_id,
        ) {
            Ok(h) => r is Ok && order::views(final(history)@) == h,
            Err(e) => outcome(r) == Err::<(), _>(ErrorView::Invalid(e)) && final(history)@ == old(
                history,
            )@,
        },
{
    let ghost h0 = history@;
    let k: usize = latest_of(times);
    if history.len() > 0 && text::same(history[k].station_id.as_str(), station.id.as_str()) {
        proof {
            assert(parsed(times@)[k as int] == parsed_time(times@[k as int]));
        }
        match &times[k] {
            Err(e) => return Err(ProfileError::Invalid(e.clone())),
            Ok(t) => {
                if clock::nanos(started) - *t <= COALESCE_NANOS {
                    let mut entry = history[k].clone();
                    entry.last_played_at = ts.to_string();
                    entry.ended_at = Some(ts.to_string());
                    entry.metadata.last_known_name = Some(station.name.clone());
                    entry.metadata.catalog_version = catalog_version;
                    let ghost held = entry@;
                    proof {
                        assert(held =~= continued(
                            h0[k as int]@,
                            station.name@,
                            text::maybe(catalog_version),
                            ts@,
                        ));
                    }
                    history.set(k, entry);
                    proof {
                        assert(order::views(history@) =~= order::views(h0).update(k as int, held));
                    }
                    return Ok(());
                }
            },
        }
    }
    let entry = PlaybackHistoryEntry {
        record_id,
        station_id: station.id.clone(),
        started_at: ts.to_string(),
        last_played_at: ts.to_string(),
        ended_at: Some(ts.to_string()),
        play_duration_ms: Some(0),
        metadata: HistoryMetadata {
            last_known_name: Some(station.name.clone()),
            catalog_version,
            source: Some("bundled".to_string()),
        },
    };
    let ghost held = entry@;
    history.push(entry);
    proof {
        assert(order::views(history@) =~= order::views(h0).push(held));
        assert(held =~= new_entry(
            record_id,
            station.id@,
            station.name@,
            text::maybe(catalog_version),
            ts@,
        ));
    }
    Ok(())
}

// ---------------------------------------------------------------------------
// The store
// ---------------------------------------------------------------------------

/// Whether a station is among the favourites.
pub open spec fn has_favourite(s: Seq<FavouriteView>, id: Seq<char>) -> bool {
    exists|i: int| 0 <= i < s.len() && (#[trigger] s[i]).station_id == id
}

/// The favourites without those of one station.
pub open spec fn without_station(s: Seq<FavouriteView>, id: Seq<char>) -> Seq<FavouriteView> {
    s.filter(|f: FavouriteView| f.station_id != id)
}

/// A profile stamped with the time of a change, or the error of a clock that could
/// not tell it.
pub open spec fn stamped<T>(
    p: ProfileView,
    saved: Result<Seq<char>, Seq<char>>,
    value: T,
) -> (ProfileView, Result<T, ErrorView>) {
    match saved {
        Ok(ts) => (ProfileView { updated_at: ts, ..p }, Ok(value)),
        Err(e) => (p, Err(ErrorView::Invalid(e))),
    }
}

/// What marking or unmarking a station comes to. `added` is what the clock said of
/// the time of the mark, `saved` of the time of the change.
pub open spec fn toggled(
    p: ProfileView,
    station_id: Seq<char>,
    name: Seq<char>,
    catalog: Option<Seq<char>>,
    added: Result<Seq<char>, Seq<char>>,
    record_id: u128,
    saved: Result<Seq<char>, Seq<char>>,
) -> (ProfileView, Result<bool, ErrorView>) {
    if has_favourite(p.favourites, station_id) {
        stamped(
            ProfileView { favourites: without_station(p.favourites, station_id), ..p },
            saved,
            false,
        )
    } else if p.favourites.len() >= MAX_FAVOURITES {
        (p, Err(ErrorView::Invalid("favourites limit reached"@)))
    } else {
        match added {
            Err(e) => (p, Err(ErrorView::Invalid(e))),
            Ok(ts) => stamped(
                ProfileView {
                    favourites: p.favourites.push(
                        FavouriteView {
                            record_id,
                            station_id,
                            added_at: ts,
                            updated_at: ts,
                            metadata: DisplayView { name: Some(name), catalog },
                        },
                    ),
                    ..p
                },
                saved,
                true,
            ),
        }
    }
}

/// What remembering a play comes to. `now` is what the clock said of the time of
/// the play, `moment` the instant at which old plays were dropped, `saved` what the
/// clock said of the time of the change.
pub open spec fn played(
    p: ProfileView,
    station_id: Seq<char>,
    name: Seq<char>,
    catalog: Option<Seq<char>>,
    now: Result<Seq<char>, Seq<char>>,
    record_id: u128,
    moment: (i64, u32),
    saved: Result<Seq<char>, Seq<char>>,
) -> (ProfileView, Result<(), ErrorView>) {
    match now {
        Err(e) => (p, Err(ErrorView::Invalid(e))),
        Ok(ts) => match clock::instant(clock::rfc3339_time(ts)) {
            Err(e) => (p, Err(ErrorView::Invalid(e))),
            Ok(started) => match noted(
                p.history,
                times_of(p.history),
                station_id,
                name,
                catalog,
                ts,
                started,
                record_id,
            ) {
                Err(e) => (p, Err(ErrorView::Invalid(e))),
                Ok(h) => stamped(
                    ProfileView {
                        history: kept(h, times_of(h), clock::nanos_of(moment) - RETENTION_NANOS),
                        ..p
                    },
                    saved,
                    (),
                ),
            },
        },
    }
}

/// What forgetting all plays comes to: with them go the notes on plays that were
/// set aside.
pub open spec fn forgotten(p: ProfileView, saved: Result<Seq<char>, Seq<char>>) -> (
    ProfileView,
    Result<(), ErrorView>,
) {
    stamped(
        ProfileView {
            history: Seq::empty(),
            unresolved: p.unresolved.filter(|u: UnresolvedView| u.what.source_kind != "history"@),
            ..p
        },
        saved,
        (),
    )
}

/// A profile and the catalog to which its records belong.
#[derive(Debug)]
pub struct PersonalDataStore {
    pub profile: LocalProfile,
    pub resolver: CatalogResolver,
}

/// The first station of the catalog with this identity.
pub fn station_index_by_id(stations: &[Station], station_id: &str) -> (r: Option<usize>)
    ensures
        match r {
            Some(i) => {
                &&& i < stations@.len()
                &&& stations@[i as int].id@ == station_id@
                &&& forall|k: int| 0 <= k < i ==> (#[trigger] stations@[k]).id@ != station_id@
            },
            None => forall|k: int|
                0 <= k < stations@.len() ==> (#[trigger] stations@[k]).id@ != station_id@,
        },
{
    let n: usize = stations.len();
    let mut i: usize = 0;
    while i < n
        invariant
            i <= n,
            n == stations@.len(),
            forall|k: int| 0 <= k < i ==> (#[trigger] stations@[k]).id@ != station_id@,
        decreases n - i,
    {
        if text::same(stations[i].id.as_str(), station_id) {
            return Some(i);
        }
        i = i + 1;
    }
    None
}

/// The profile, unless its schema is not known.
pub fn check_schema(profile: LocalProfile) -> (r: Result<LocalProfile, ProfileError>)
    ensures
        profile.schema_version == 1 ==> r == Ok::<_, ProfileError>(profile),
        profile.schema_version != 1 ==> outcome(r) == Err::<LocalProfile, _>(
            ErrorView::UnsupportedSchema(profile.schema_version),
        ),
{
    if profile.schema_version != 1 {
        return Err(ProfileError::UnsupportedSchema(profile.schema_version));
    }
    Ok(profile)
}

impl PersonalDataStore {
    /// Opens a profile that was loaded, or a new one where there is none, and brings
    /// it up to date. Also says whether that changed anything, so that it has to be
    /// backed up and saved.
    pub fn open(loaded: Option<LocalProfile>, resolver: CatalogResolver) -> (r: Result<
        (PersonalDataStore, bool),
        ProfileError,
    >)
        ensures
            match loaded {
                Some(p) => if p.schema_version != 1 {
                    outcome(r) == Err::<(PersonalDataStore, bool), _>(
                        ErrorView::UnsupportedSchema(p.schema_version),
                    )
                } else {
                    r matches Ok((store, changed)) && {
                        &&& store.resolver == resolver
                        &&& exists|moment: (i64, u32)| #[trigger]
                            is_migrated(resolver@, p@, store.profile@, moment)
                        &&& changed == (store.profile@ != p@)
                    }
                },
                None => match r {
                    Ok((store, changed)) => {
                        &&& store.resolver == resolver
                        &&& !changed
                        &&& exists|id: u128, ts: Seq<char>|
                            clock::is_v4(id) && store.profile@ == #[trigger] empty_profile(id, ts)
                    },
                    Err(e) => e is Invalid,
                },
            },
    {
        let fresh = loaded.is_none();
        let profile = match loaded {
            Some(p) => p,
            None => match clock::now_text() {
                Ok(ts) => LocalProfile::new_with(clock::fresh_id(), ts),
                Err(e) => return Err(ProfileError::Invalid(e)),
            },
        };
        let profile = match check_schema(profile) {
            Ok(p) => p,
            Err(e) => return Err(e),
        };
        let ghost p0 = profile@;
        let mut store = PersonalDataStore { profile, resolver };
        let changed = store.migrate_and_retain();
        proof {
            if fresh {
                lemma_nothing_to_migrate(resolver@, p0, store.profile@);
            }
        }
        Ok((store, changed))
    }

    /// The profile.
    pub fn profile(&self) -> (p: &LocalProfile)
        ensures
            *p == self.profile,
    {
        &self.profile
    }

    /// The favourites.
    pub fn favourites(&self) -> (f: &[Favourite])
        ensures
            f@ == self.profile.favourites@,
    {
        self.profile.favourites.as_slice()
    }

    /// The plays, latest first.
    pub fn history(&self) -> (h: &[PlaybackHistoryEntry])
        ensures
            h@ == self.profile.playback_history@,
    {
        self.profile.playback_history.as_slice()
    }

    /// The station of the first entry of the history.
    pub fn last_played_station_id(&self) -> (id: Option<&str>)
        ensures
            match id {
                Some(s) => self.profile@.history.len() > 0 && s@
                    == self.profile@.history[0].station_id,
                None => self.profile@.history.len() == 0,
            },
    {
        if self.profile.playback_history.len() == 0 {
            None
        } else {
            Some(self.profile.playback_history[0].station_id.as_str())
        }
    }

    /// Whether a station is among the favourites.
    pub fn is_favourite(&self, station_id: &str) -> (r: bool)
        ensures
            r == has_favourite(self.profile@.favourites, station_id@),
    {
        let ghost all = self.profile@.favourites;
        let mut i: usize = 0;
        while i < self.profile.favourites.len()
            invariant
                i <= self.profile.favourites@.len(),
                all == order::views(self.profile.favourites@),
                forall|k: int| 0 <= k < i ==> (#[trigger] all[k]).station_id != station_id@,
            decreases self.profile.favourites@.len() - i,
        {
            proof {
                assert(all[i as int].station_id == self.profile.favourites@[i as int].station_id@);
            }
            if text::same(self.profile.favourites[i].station_id.as_str(), station_id) {
                return true;
            }
            i = i + 1;
        }
        false
    }

    /// Drops the favourites of one station.
    fn drop_favourite(&mut self, station_id: &str)
        ensures
            final(self).profile@ == (ProfileView {
                favourites: without_station(old(self).profile@.favourites, station_id@),
                ..old(self).profile@
            }),
            final(self).resolver == old(self).resolver,
    {
        let ghost all = self.profile@.favourites;
        let ghost stays = |f: FavouriteView| f.station_id != station_id@;
        let mut rest: Vec<Favourite> = Vec::new();
        let mut i: usize = 0;
        proof {
            reveal(Seq::filter);
            assert(all.subrange(0, 0) =~= Seq::empty());
            assert(order::views(rest@) =~= Seq::empty());
        }
        while i < self.profile.favourites.len()
            invariant
                i <= self.profile.favourites@.len(),
                all == order::views(self.profile.favourites@),
                stays == |f: FavouriteView| f.station_id != station_id@,
                order::views(rest@) == all.subrange(0, i as int).filter(stays),
            decreases self.profile.favourites@.len() - i,
        {
            let ghost before = rest@;
            proof {
                reveal(Seq::filter);
                assert(all.subrange(0, i + 1).drop_last() =~= all.subrange(0, i as int));
            }
            if !text::same(self.profile.favourites[i].station_id.as_str(), station_id) {
                rest.push(self.profile.favourites[i].clone());
                proof {
                    assert(order::views(rest@) =~= order::views(before).push(all[i as int]));
                }
            }
            i = i + 1;
        }
        proof {
            assert(all.subrange(0, i as int) =~= all);
        }
        self.profile.favourites = rest;
    }

    /// Stamps the profile with the time of a change.
    fn stamp(&mut self, saved: Result<String, String>) -> (r: Result<(), ProfileError>)
        ensures
            (final(self).profile@, outcome(r)) == stamped(
                old(self).profile@,
                text_outcome(saved),
                (),
            ),
            final(self).resolver == old(self).resolver,
    {
        match saved {
            Ok(ts) => {
                self.profile.updated_at = ts;
                Ok(())
            },
            Err(e) => Err(ProfileError::Invalid(e)),
        }
    }

    /// Stamps the profile with the present time, before it is written.
    pub fn touch(&mut self) -> (r: Result<(), ProfileError>)
        ensures
            exists|saved: Result<Seq<char>, Seq<char>>|
                (final(self).profile@, outcome(r)) == #[trigger] stamped(
                    old(self).profile@,
                    saved,
                    (),
                ),
            final(self).resolver == old(self).resolver,
    {
        let saved = clock::now_text();
        let ghost s = text_outcome(saved);
        let r = self.stamp(saved);
        proof {
            assert((self.profile@, outcome(r)) == stamped(old(self).profile@, s, ()));
        }
        r
    }

    /// Marks a station, or unmarks it where it was marked. The clock's word for the
    /// time of the mark and for that of the change are given.
    pub fn toggle_favourite_at(
        &mut self,
        station: &Station,
        added: Result<String, String>,
        record_id: u128,
        saved: Result<String, String>,
    ) -> (r: Result<bool, ProfileError>)
        ensures
            (final(self).profile@, outcome(r)) == toggled(
                old(self).profile@,
                station.id@,
                station.name@,
                old(self).resolver@.catalog_version,
                text_outcome(added),
                record_id,
                text_outcome(saved),
            ),
            final(self).resolver == old(self).resolver,
    {
        if self.is_favourite(station.id.as_str()) {
            self.drop_favourite(station.id.as_str());
            return match self.stamp(saved) {
                Ok(_u) => Ok(false),
                Err(e) => Err(e),
            };
        }
        if self.profile.favourites.len() >= MAX_FAVOURITES {
            return Err(ProfileError::Invalid("favourites limit reached".to_string()));
        }
        let ts = match added {
            Ok(ts) => ts,
            Err(e) => return Err(ProfileError::Invalid(e)),
        };
        let f = Favourite {
            record_id,
            station_id: station.id.clone(),
            added_at: ts.clone(),
            updated_at: ts,
            metadata: DisplayMetadata {
                last_known_name: Some(station.name.clone()),
                catalog_version: self.resolver.version(),
            },
        };
        let ghost held = f@;
        self.profile.favourites.push(f);
        proof {
            assert(self.profile@.favourites =~= old(self).profile@.favourites.push(held));
        }
        match self.stamp(saved) {
            Ok(_u) => Ok(true),
            Err(e) => Err(e),
        }
    }

    /// Marks a station, or unmarks it where it was marked. Says which; the profile
    /// then has to be written.
    pub fn toggle_favourite(&mut self, station: &Station) -> (r: Result<bool, ProfileError>)
        ensures
            exists|
                added: Result<Seq<char>, Seq<char>>,
                record_id: u128,
                saved: Result<Seq<char>, Seq<char>>,
            |
                clock::is_v4(record_id) && (final(self).profile@, outcome(r)) == #[trigger] toggled(
                    old(self).profile@,
                    station.id@,
                    station.name@,
                    old(self).resolver@.catalog_version,
                    added,
                    record_id,
                    saved,
                ),
            final(self).resolver == old(self).resolver,
    {
        let added = clock::now_text();
        let record_id: u128 = clock::fresh_id();
        let saved = clock::now_text();
        let ghost (a, s) = (text_outcome(added), text_outcome(saved));
        let r = self.toggle_favourite_at(station, added, record_id, saved);
        proof {
            assert((self.profile@, outcome(r)) == toggled(
                old(self).profile@,
                station.id@,
                station.name@,
                old(self).resolver@.catalog_version,
                a,
                record_id,
                s,
            ));
        }
        r
    }

    /// Remembers a play. What the clock says is given.
    pub fn record_play_at(
        &mut self,
        station: &Station,
        now: Result<String, String>,
        record_id: u128,
        moment: (i64, u32),
        saved: Result<String, String>,
    ) -> (r: Result<(), ProfileError>)
        ensures
            (final(self).profile@, outcome(r)) == played(
                old(self).profile@,
                station.id@,
                station.name@,
                old(self).resolver@.catalog_version,
                text_outcome(now),
                record_id,
                moment,
                text_outcome(saved),
            ),
            final(self).resolver == old(self).resolver,
    {
        let ts = match now {
            Ok(ts) => ts,
            Err(e) => return Err(ProfileError::Invalid(e)),
        };
        let started = match clock::parse_time(ts.as_str()) {
            Ok(t) => t,
            Err(e) => return Err(ProfileError::Invalid(e)),
        };
        let times = parse_times(&self.profile.playback_history);
        proof {
            assert(parsed(times@).len() == times_of(self.profile@.history).len());
        }
        let version = self.resolver.version();
        match note_play(
            &mut self.profile.playback_history,
            &times,
            station,
            version,
            ts.as_str(),
            started,
            record_id,
        ) {
            Ok(_u) => {},
            Err(e) => return Err(e),
        }
        retain_at(&mut self.profile, moment);
        self.stamp(saved)
    }

    /// Remembers a play. The profile then has to be written.
    pub fn record_play(&mut self, station: &Station) -> (r: Result<(), ProfileError>)
        ensures
            exists|
                now: Result<Seq<char>, Seq<char>>,
                record_id: u128,
                moment: (i64, u32),
                saved: Result<Seq<char>, Seq<char>>,
            |
                clock::is_v4(record_id) && (final(self).profile@, outcome(r)) == #[trigger] played(
                    old(self).profile@,
                    station.id@,
                    station.name@,
                    old(self).resolver@.catalog_version,
                    now,
                    record_id,
                    moment,
                    saved,
                ),
            final(self).resolver == old(self).resolver,
    {
        let now = clock::now_text();
        let record_id: u128 = clock::fresh_id();
        let moment = clock::now_moment();
        let saved = clock::now_text();
        let ghost (n, s) = (text_outcome(now), text_outcome(saved));
        let r = self.record_play_at(station, now, record_id, moment, saved);
        proof {
            assert((self.profile@, outcome(r)) == played(
                old(self).profile@,
                station.id@,
                station.name@,
                old(self).resolver@.catalog_version,
                n,
                record_id,
                moment,
                s,
            ));
        }
        r
    }

    /// Forgets all plays. The clock's word for the time of the change is given.
    pub fn clear_history_at(&mut self, saved: Result<String, String>) -> (r: Result<
        (),
        ProfileError,
    >)
        ensures
            (final(self).profile@, outcome(r)) == forgotten(
                old(self).profile@,
                text_outcome(saved),
            ),
            final(self).resolver == old(self).resolver,
    {
        let ghost all = self.profile@.unresolved;
        let ghost stays = |u: UnresolvedView| u.what.source_kind != "history"@;
        let mut rest: Vec<UnresolvedStationReference> = Vec::new();
        let mut i: usize = 0;
        proof {
            reveal(Seq::filter);
            assert(all.subrange(0, 0) =~= Seq::empty());
            assert(order::views(rest@) =~= Seq::empty());
        }
        while i < self.profile.unresolved_references.len()
            invariant
                i <= self.profile.unresolved_references@.len(),
                all == order::views(self.profile.unresolved_references@),
                stays == |u: UnresolvedView| u.what.source_kind != "history"@,
                order::views(rest@) == all.subrange(0, i as int).filter(stays),
            decreases self.profile.unresolved_references@.len() - i,
        {
            let ghost before = rest@;
            proof {
                reveal(Seq::filter);
                assert(all.subrange(0, i + 1).drop_last() =~= all.subrange(0, i as int));
            }
            if !text::same(self.profile.unresolved_references[i].source_kind.as_str(), "history") {
                rest.push(self.profile.unresolved_references[i].clone());
                proof {
                    assert(order::views(rest@) =~= order::views(before).push(all[i as int]));
                }
            }
            i = i + 1;
        }
        proof {
            assert(all.subrange(0, i as int) =~= all);
        }
        self.profile.playback_history = Vec::new();
        self.profile.unresolved_references = rest;
        proof {
            assert(self.profile@.history =~= Seq::empty());
        }
        self.stamp(saved)
    }

    /// Forgets all plays. The profile then has to be written.
    pub fn clear_history(&mut self) -> (r: Result<(), ProfileError>)
        ensures
            exists|saved: Result<Seq<char>, Seq<char>>|
                (final(self).profile@, outcome(r)) == #[trigger] forgotten(
                    old(self).profile@,
                    saved,
                ),
            final(self).resolver == old(self).resolver,
    {
        let saved = clock::now_text();
        let ghost s = text_outcome(saved);
        let r = self.clear_history_at(saved);
        proof {
            assert((self.profile@, outcome(r)) == forgotten(old(self).profile@, s));
        }
        r
    }

    /// Drops what is not to be remembered.
    pub fn retain(&mut self)
        ensures
            exists|moment: (i64, u32)|
                final(self).profile@ == (ProfileView {
                    history: kept(
                        old(self).profile@.history,
                        times_of(old(self).profile@.history),
                        (#[trigger] clock::nanos_of(moment)) - RETENTION_NANOS,
                    ),
                    ..old(self).profile@
                }),
            final(self).resolver == old(self).resolver,
    {
        let moment = clock::now_moment();
        retain_at(&mut self.profile, moment);
    }

    /// Brings the profile up to date: its records move to the catalog, and what is
    /// not to be remembered goes. Says whether that changed anything.
    pub fn migrate_and_retain(&mut self) -> (changed: bool)
        ensures
            final(self).resolver == old(self).resolver,
            exists|moment: (i64, u32)| #[trigger]
                is_migrated(
                    old(self).resolver@,
                    old(self).profile@,
                    final(self).profile@,
                    moment,
                ),
            changed == (final(self).profile@ != old(self).profile@),
    {
        let ghost p0 = self.profile@;
        let favourites = clone_favourites(&self.profile.favourites);
        let history = clone_history(&self.profile.playback_history);
        let unresolved = clone_unresolved(&self.profile.unresolved_references);
        resolve_records(&mut self.profile, &self.resolver);
        let ghost p1 = self.profile@;
        let moment = clock::now_moment();
        retain_at(&mut self.profile, moment);
        let same = same_favourites(&favourites, &self.profile.favourites) && same_history(
            &history,
            &self.profile.playback_history,
        ) && same_unresolved(&unresolved, &self.profile.unresolved_references);
        proof {
            assert(is_moved(self.resolver@, p0, p1));
            assert(is_migrated(self.resolver@, p0, self.profile@, moment));
            if same {
                assert(self.profile@ =~= p0);
            }
        }
        !same
    }
}

/// What is written down of a profile that was moved to another catalog.
pub open spec fn journal_pairs(
    timestamp: Seq<char>,
    catalog_version: Option<Seq<char>>,
    p: ProfileView,
) -> Seq<(Seq<char>, JsonView)> {
    let version = match catalog_version {
        Some(v) => JsonView::Text(v),
        None => JsonView::Null,
    };
    seq![
        ("sourceSchemaVersion"@, JsonView::Unsigned(1)),
        ("targetSchemaVersion"@, JsonView::Unsigned(1)),
        ("timestamp"@, JsonView::Text(timestamp)),
        ("catalogVersion"@, version),
        ("migration"@, JsonView::Text("lifecycle-resolution"@)),
        ("favourites"@, JsonView::Unsigned(p.favourites.len() as u64)),
        ("history"@, JsonView::Unsigned(p.history.len() as u64)),
        ("unresolved"@, JsonView::Unsigned(p.unresolved.len() as u64)),
    ]
}

impl PersonalDataStore {
    /// What is written down once the profile was moved to another catalog.
    pub fn migration_journal(&self, timestamp: &str) -> (j: Json)
        ensures
            j@ == json::object_of(
                journal_pairs(timestamp@, self.resolver@.catalog_version, self.profile@),
            ),
            json::can_be_written(j),
    {
        let version = match self.resolver.version() {
            Some(v) => json::text_value(v.as_str()),
            None => Json::Null,
        };
        let mut members: Vec<(String, Json)> = Vec::new();
        members.push(json::pair("sourceSchemaVersion", Json::Unsigned(1)));
        members.push(json::pair("targetSchemaVersion", Json::Unsigned(1)));
        members.push(json::pair("timestamp", json::text_value(timestamp)));
        members.push(json::pair("catalogVersion", version));
        members.push(json::pair("migration", json::text_value("lifecycle-resolution")));
        members.push(
            json::pair("favourites", Json::Unsigned(self.profile.favourites.len() as u64)),
        );
        members.push(
            json::pair("history", Json::Unsigned(self.profile.playback_history.len() as u64)),
        );
        members.push(
            json::pair(
                "unresolved",
                Json::Unsigned(self.profile.unresolved_references.len() as u64),
            ),
        );
        proof {
            assert(json::pairs_of(members@) =~= journal_pairs(
                timestamp@,
                self.resolver@.catalog_version,
                self.profile@,
            ));
            assert(json::all_nest(members@, 99));
        }
        json::whole_object(members)
    }
}

/// A profile brought up to date at an instant: moved to the catalog, and without
/// the plays that are not to be remembered.
pub open spec fn is_migrated(
    c: CatalogView,
    before: ProfileView,
    after: ProfileView,
    moment: (i64, u32),
) -> bool {
    exists|moved: ProfileView| #[trigger]
        is_moved(c, before, moved) && after == (ProfileView {
            history: kept(
                moved.history,
                times_of(moved.history),
                clock::nanos_of(moment) - RETENTION_NANOS,
            ),
            ..moved
        })
}

proof fn lemma_nothing_to_migrate(c: CatalogView, before: ProfileView, after: ProfileView)
    requires
        before.favourites.len() == 0,
        before.history.len() == 0,
        before.unresolved.len() == 0,
        exists|moment: (i64, u32)| #[trigger] is_migrated(c, before, after, moment),
    ensures
        after == before,
{
    let moment = choose|moment: (i64, u32)| #[trigger] is_migrated(c, before, after, moment);
    let moved = choose|moved: ProfileView| #[trigger]
        is_moved(c, before, moved) && after == (ProfileView {
            history: kept(
                moved.history,
                times_of(moved.history),
                clock::nanos_of(moment) - RETENTION_NANOS,
            ),
            ..moved
        });
    assert(asides(moved.unresolved).len() == 0);
    assert(after.unresolved =~= before.unresolved);
    assert(after.favourites =~= before.favourites);
    assert(after.history =~= before.history);
}

fn clone_favourites(list: &Vec<Favourite>) -> (r: Vec<Favourite>)
    ensures
        order::views(r@) == order::views(list@),
{
    let mut out: Vec<Favourite> = Vec::new();
    let mut i: usize = 0;
    while i < list.len()
        invariant
            i <= list@.len(),
            out@.len() == i,
            forall|k: int| 0 <= k < i ==> (#[trigger] out@[k])@ == list@[k]@,
        decreases list@.len() - i,
    {
        out.push(list[i].clone());
        i = i + 1;
    }
    proof {
        assert(order::views(out@) =~= order::views(list@));
    }
    out
}

fn clone_history(list: &Vec<PlaybackHistoryEntry>) -> (r: Vec<PlaybackHistoryEntry>)
    ensures
        order::views(r@) == order::views(list@),
{
    let mut out: Vec<PlaybackHistoryEntry> = Vec::new();
    let mut i: usize = 0;
    while i < list.len()
        invariant
            i <= list@.len(),
            out@.len() == i,
            forall|k: int| 0 <= k < i ==> (#[trigger] out@[k])@ == list@[k]@,
        decreases list@.len() - i,
    {
        out.push(list[i].clone());
        i = i + 1;
    }
    proof {
        assert(order::views(out@) =~= order::views(list@));
    }
    out
}

fn same_favourites(a: &Vec<Favourite>, b: &Vec<Favourite>) -> (r: bool)
    ensures
        r == (order::views(a@) == order::views(b@)),
{
    if a.len() != b.len() {
        proof {
            assert(order::views(a@).len() != order::views(b@).len());
        }
        return false;
    }
    let mut i: usize = 0;
    while i < a.len()
        invariant
            i <= a@.len(),
            a@.len() == b@.len(),
            forall|k: int| 0 <= k < i ==> (#[trigger] a@[k])@ == b@[k]@,
        decreases a@.len() - i,
    {
        if !a[i].same(&b[i]) {
            proof {
                assert(order::views(a@)[i as int] != order::views(b@)[i as int]);
            }
            return false;
        }
        i = i + 1;
    }
    proof {
        assert(order::views(a@) =~= order::views(b@));
    }
    true
}

fn same_history(a: &Vec<PlaybackHistoryEntry>, b: &Vec<PlaybackHistoryEntry>) -> (r: bool)
    ensures
        r == (order::views(a@) == order::views(b@)),
{
    if a.len() != b.len() {
        proof {
            assert(order::views(a@).len() != order::views(b@).len());
        }
        return false;
    }
    let mut i: usize = 0;
    while i < a.len()
        invariant
            i <= a@.len(),
            a@.len() == b@.len(),
            forall|k: int| 0 <= k < i ==> (#[trigger] a@[k])@ == b@[k]@,
        decreases a@.len() - i,
    {
        if !a[i].same(&b[i]) {
            proof {
                assert(order::views(a@)[i as int] != order::views(b@)[i as int]);
            }
            return false;
        }
        i = i + 1;
    }
    proof {
        assert(order::views(a@) =~= order::views(b@));
    }
    true
}

fn same_unresolved(
    a: &Vec<UnresolvedStationReference>,
    b: &Vec<UnresolvedStationReference>,
) -> (r: bool)
    ensures
        r == (order::views(a@) == order::views(b@)),
{
    if a.len() != b.len() {
        proof {
            assert(order::views(a@).len() != order::views(b@).len());
        }
        return false;
    }
    let mut i: usize = 0;
    while i < a.len()
        invariant
            i <= a@.len(),
            a@.len() == b@.len(),
            forall|k: int| 0 <= k < i ==> (#[trigger] a@[k])@ == b@[k]@,
        decreases a@.len() - i,
    {
        if !a[i].same(&b[i]) {
            proof {
                assert(order::views(a@)[i as int] != order::views(b@)[i as int]);
            }
            return false;
        }
        i = i + 1;
    }
    proof {
        assert(order::views(a@) =~= order::views(b@));
    }
    true
}

} // verus!
