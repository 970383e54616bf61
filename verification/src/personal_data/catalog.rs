//! What became of a station identity: which station of the catalog it names now.

use crate::stations::Station;
use crate::text;
use vstd::prelude::*;

verus! {

/// Why an identity left the catalog.
#[derive(Debug, Clone, Copy, PartialEq, Eq, Structural)]
pub enum TombstoneReason {
    Removed,
    Merged,
    Split,
}

/// What the catalog says of an identity that left it.
#[derive(Debug)]
pub struct Tombstone {
    pub id: String,
    pub reason: TombstoneReason,
    pub replacement_ids: Vec<String>,
}

/// The contents of a [`Tombstone`].
#[verifier::ext_equal]
pub struct TombstoneView {
    pub id: Seq<char>,
    pub reason: TombstoneReason,
    pub replacement_ids: Seq<Seq<char>>,
}

impl View for Tombstone {
    type V = TombstoneView;

    open spec fn view(&self) -> TombstoneView {
        TombstoneView {
            id: self.id@,
            reason: self.reason,
            replacement_ids: text::texts(self.replacement_ids@),
        }
    }
}

impl Clone for Tombstone {
    fn clone(&self) -> (t: Tombstone)
        ensures
            t@ == self@,
    {
        Tombstone {
            id: self.id.clone(),
            reason: self.reason,
            replacement_ids: text::copy_texts(&self.replacement_ids),
        }
    }
}

/// Finds the station that an identity names.
#[derive(Debug)]
pub struct CatalogResolver {
    active: Vec<String>,
    /// Pairs of a former identity and the present one: the first pair counts.
    legacy: Vec<(String, String)>,
    /// The last tombstone of an identity counts.
    tombstones: Vec<Tombstone>,
    pub catalog_version: Option<String>,
}

/// The contents of a [`CatalogResolver`].
#[verifier::ext_equal]
pub struct CatalogView {
    /// The identities of the stations.
    pub active: Set<Seq<char>>,
    /// Former identities, each with the station's present one.
    pub legacy: Map<Seq<char>, Seq<char>>,
    /// The identities that left the catalog.
    pub tombstones: Map<Seq<char>, TombstoneView>,
    pub catalog_version: Option<Seq<char>>,
}

/// The first pair of a list that names `key` gives its value.
pub open spec fn first_values(pairs: Seq<(Seq<char>, Seq<char>)>) -> Map<Seq<char>, Seq<char>>
    decreases pairs.len(),
{
    if pairs.len() == 0 {
        Map::empty()
    } else {
        let before = first_values(pairs.drop_last());
        let (key, value) = pairs.last();
        if before.contains_key(key) {
            before
        } else {
            before.insert(key, value)
        }
    }
}

/// What pairs of texts hold.
pub open spec fn pairs_of(v: Seq<(String, String)>) -> Seq<(Seq<char>, Seq<char>)> {
    Seq::new(v.len(), |i: int| (v[i].0@, v[i].1@))
}

/// The last tombstone of each identity.
pub open spec fn last_tombstones(list: Seq<TombstoneView>) -> Map<Seq<char>, TombstoneView>
    decreases list.len(),
{
    if list.len() == 0 {
        Map::empty()
    } else {
        last_tombstones(list.drop_last()).insert(list.last().id, list.last())
    }
}

/// The former identities of one station, each with its present one.
pub open spec fn former_ids(s: Station) -> Seq<(Seq<char>, Seq<char>)> {
    Seq::new(s.legacy_ids@.len(), |i: int| (s.legacy_ids@[i]@, s.id@))
}

/// The former identities of all stations, in the order of the catalog.
pub open spec fn all_former_ids(stations: Seq<Station>) -> Seq<(Seq<char>, Seq<char>)>
    decreases stations.len(),
{
    if stations.len() == 0 {
        Seq::empty()
    } else {
        all_former_ids(stations.drop_last()) + former_ids(stations.last())
    }
}

/// What is known of a catalog without tombstones. Where two stations claim a
/// former identity, the first has it.
pub open spec fn catalog_of(stations: Seq<Station>, version: Option<Seq<char>>) -> CatalogView {
    CatalogView {
        active: stations.map_values(|s: Station| s.id@).to_set(),
        legacy: first_values(all_former_ids(stations)),
        tombstones: Map::empty(),
        catalog_version: version,
    }
}

/// Whether a text has the form of an identity: 1 to 96 of the characters a-z,
/// 0-9 and `-`, with no `-` at either end or beside another.
pub open spec fn is_station_id(id: Seq<char>) -> bool {
    &&& 0 < id.len() <= 96
    &&& forall|i: int| 0 <= i < id.len() ==> is_id_char(#[trigger] id[i])
    &&& id[0] != '-'
    &&& id.last() != '-'
    &&& forall|i: int|
        0 < i < id.len() && (#[trigger] id[i]) == '-' ==> id[i - 1] != '-'
}

/// A character of an identity.
pub open spec fn is_id_char(c: char) -> bool {
    'a' <= c <= 'z' || '0' <= c <= '9' || c == '-'
}

/// What a search for an identity finds: the present identity, or the reason why
/// there is none and the candidates.
pub type Found = Result<Seq<char>, (Seq<char>, Seq<Seq<char>>)>;

impl CatalogView {
    /// Goes from tombstone to tombstone, as long as each says that its identity
    /// was merged into one other, until an active identity turns up. `id` is what
    /// the search began with, `seen` what it has gone through.
    pub open spec fn follow(self, id: Seq<char>, current: Seq<char>, seen: Set<Seq<char>>) -> Found
        decreases self.tombstones.dom().difference(seen).len(),
    {
        if !self.tombstones.dom().finite() || seen.contains(current) {
            Err(("missing"@, Seq::empty()))
        } else if !self.tombstones.contains_key(current) {
            Err(
                (
                    if text::begins_with(id, "legacy-"@) || text::begins_with(id, "rockserver-"@) {
                        "legacy-unmapped"@
                    } else {
                        "missing"@
                    },
                    Seq::empty(),
                ),
            )
        } else {
            let t = self.tombstones[current];
            match t.reason {
                TombstoneReason::Removed => Err(("removed"@, Seq::empty())),
                TombstoneReason::Split => Err(("split"@, t.replacement_ids)),
                TombstoneReason::Merged => if t.replacement_ids.len() != 1 {
                    Err(("missing"@, Seq::empty()))
                } else if self.active.contains(t.replacement_ids[0]) {
                    Ok(t.replacement_ids[0])
                } else {
                    proof {
                        assert(self.tombstones.dom().difference(seen.insert(current))
                            =~= self.tombstones.dom().difference(seen).remove(current));
                    }
                    self.follow(id, t.replacement_ids[0], seen.insert(current))
                },
            }
        }
    }

    /// What an identity names: itself while it is active, else the station that
    /// had it formerly, else what the tombstones lead to.
    pub open spec fn resolution(self, id: Seq<char>) -> Found {
        if !is_station_id(id) {
            Err(("legacy-unmapped"@, Seq::empty()))
        } else if self.active.contains(id) {
            Ok(id)
        } else if self.legacy.contains_key(id) {
            Ok(self.legacy[id])
        } else {
            self.follow(id, id, Set::empty())
        }
    }
}

proof fn lemma_one_less(dom: Set<Seq<char>>, seen: Set<Seq<char>>, x: Seq<char>)
    requires
        dom.finite(),
        dom.contains(x),
        !seen.contains(x),
    ensures
        dom.difference(seen.insert(x)).len() < dom.difference(seen).len(),
{
    assert(dom.difference(seen).finite());
    assert(dom.difference(seen.insert(x)) =~= dom.difference(seen).remove(x));
}

proof fn lemma_tombstones_finite(list: Seq<TombstoneView>)
    ensures
        last_tombstones(list).dom().finite(),
    decreases list.len(),
{
    if list.len() > 0 {
        lemma_tombstones_finite(list.drop_last());
    }
}

impl View for CatalogResolver {
    type V = CatalogView;

    closed spec fn view(&self) -> CatalogView {
        CatalogView {
            active: text::texts(self.active@).to_set(),
            legacy: first_values(pairs_of(self.legacy@)),
            tombstones: last_tombstones(self.tombstones@.map_values(|t: Tombstone| t@)),
            catalog_version: text::maybe(self.catalog_version),
        }
    }
}

/// Whether a text has the form of an identity.
pub fn valid_station_id(id: &str) -> (r: bool)
    ensures
        r == is_station_id(id@),
{
    let chars = text::chars_of(id);
    let n: usize = chars.len();
    if n == 0 || n > 96 || chars[0] == '-' || chars[n - 1] == '-' {
        return false;
    }
    let mut i: usize = 0;
    while i < n
        invariant
            i <= n,
            n == chars@.len(),
            chars@ == id@,
            n > 0,
            forall|k: int| 0 <= k < i ==> is_id_char(#[trigger] id@[k]),
            forall|k: int| 0 < k < i && (#[trigger] id@[k]) == '-' ==> id@[k - 1] != '-',
        decreases n - i,
    {
        let c: char = chars[i];
        if !(('a' <= c && c <= 'z') || ('0' <= c && c <= '9') || c == '-') {
            return false;
        }
        if c == '-' && i > 0 && chars[i - 1] == '-' {
            return false;
        }
        i = i + 1;
    }
    true
}

impl CatalogResolver {
    /// What the stations of a catalog say.
    pub fn from_stations(stations: &[Station], catalog_version: Option<String>) -> (r:
        CatalogResolver)
        ensures
            r@ == catalog_of(stations@, text::maybe(catalog_version)),
    {
        let mut active: Vec<String> = Vec::new();
        let mut legacy: Vec<(String, String)> = Vec::new();
        let n: usize = stations.len();
        let mut i: usize = 0;
        proof {
            assert(pairs_of(legacy@) =~= all_former_ids(stations@.subrange(0, 0)));
        }
        while i < n
            invariant
                i <= n,
                n == stations@.len(),
                active@.len() == i,
                forall|k: int| 0 <= k < i ==> (#[trigger] active@[k])@ == stations@[k].id@,
                pairs_of(legacy@) == all_former_ids(stations@.subrange(0, i as int)),
            decreases n - i,
        {
            let station = &stations[i];
            active.push(station.id.clone());
            let ghost start = pairs_of(legacy@);
            let m: usize = station.legacy_ids.len();
            let mut j: usize = 0;
            proof {
                assert(start =~= start + former_ids(*station).subrange(0, 0));
            }
            while j < m
                invariant
                    j <= m,
                    m == station.legacy_ids@.len(),
                        pairs_of(legacy@) == start + former_ids(*station).subrange(0, j as int),
                decreases m - j,
            {
                let ghost before = legacy@;
                legacy.push((station.legacy_ids[j].clone(), station.id.clone()));
                proof {
                    assert(pairs_of(legacy@) =~= pairs_of(before).push(former_ids(*station)[j as int]));
                    assert(pairs_of(legacy@) =~= start + former_ids(*station).subrange(
                        0,
                        j + 1,
                    ));
                }
                j = j + 1;
            }
            proof {
                let upto = stations@.subrange(0, i + 1);
                assert(upto.drop_last() =~= stations@.subrange(0, i as int));
                assert(former_ids(*station).subrange(0, m as int) =~= former_ids(*station));
            }
            i = i + 1;
        }
        proof {
            assert(stations@.subrange(0, n as int) =~= stations@);
            assert(text::texts(active@) =~= stations@.map_values(|s: Station| s.id@));
        }
        let r = CatalogResolver { active, legacy, tombstones: Vec::new(), catalog_version };
        proof {
            assert(r.tombstones@.map_values(|t: Tombstone| t@) =~= Seq::empty());
        }
        r
    }

    /// The same catalog with these tombstones in place of those it had.
    pub fn with_tombstones(self, tombstones: Vec<Tombstone>) -> (r: CatalogResolver)
        ensures
            r@ == (CatalogView {
                tombstones: last_tombstones(tombstones@.map_values(|t: Tombstone| t@)),
                ..self@
            }),
    {
        CatalogResolver {
            active: self.active,
            legacy: self.legacy,
            tombstones,
            catalog_version: self.catalog_version,
        }
    }

    /// The version of the catalog.
    pub fn version(&self) -> (v: Option<String>)
        ensures
            text::maybe(v) == self@.catalog_version,
    {
        text::copy_maybe(&self.catalog_version)
    }

    /// The present identity of a station that had `id` formerly.
    fn legacy_target(&self, id: &str) -> (r: Option<String>)
        ensures
            match r {
                Some(s) => self@.legacy.contains_key(id@) && self@.legacy[id@] == s@,
                None => !self@.legacy.contains_key(id@),
            },
    {
        let ghost pairs = pairs_of(self.legacy@);
        let mut i: usize = 0;
        while i < self.legacy.len()
            invariant
                i <= self.legacy@.len(),
                pairs == pairs_of(self.legacy@),
                !first_values(pairs.subrange(0, i as int)).contains_key(id@),
            decreases self.legacy@.len() - i,
        {
            proof {
                assert(pairs.subrange(0, i + 1).drop_last() =~= pairs.subrange(0, i as int));
            }
            if text::same(self.legacy[i].0.as_str(), id) {
                proof {
                    lemma_first_stays(pairs, i + 1, id@);
                }
                return Some(self.legacy[i].1.clone());
            }
            i = i + 1;
        }
        proof {
            assert(pairs.subrange(0, i as int) =~= pairs);
        }
        None
    }

    /// The tombstone of an identity.
    fn tombstone(&self, id: &str) -> (r: Option<&Tombstone>)
        ensures
            match r {
                Some(t) => self@.tombstones.contains_key(id@) && self@.tombstones[id@] == t@,
                None => !self@.tombstones.contains_key(id@),
            },
    {
        let ghost list = self.tombstones@.map_values(|t: Tombstone| t@);
        let mut i: usize = self.tombstones.len();
        proof {
            assert(list.subrange(0, i as int) =~= list);
        }
        while i > 0
            invariant
                i <= self.tombstones@.len(),
                list == self.tombstones@.map_values(|t: Tombstone| t@),
                last_tombstones(list).contains_key(id@) == last_tombstones(
                    list.subrange(0, i as int),
                ).contains_key(id@),
                last_tombstones(list)[id@] == last_tombstones(list.subrange(0, i as int))[id@],
            decreases i,
        {
            proof {
                assert(list.subrange(0, i as int).drop_last() =~= list.subrange(0, i - 1));
            }
            i = i - 1;
            if text::same(self.tombstones[i].id.as_str(), id) {
                return Some(&self.tombstones[i]);
            }
        }
        None
    }

    /// What an identity names now.
    pub fn resolve(&self, id: &str) -> (r: Result<String, (String, Vec<String>)>)
        ensures
            match r {
                Ok(s) => self@.resolution(id@) == Ok::<_, (Seq<char>, Seq<Seq<char>>)>(s@),
                Err((reason, candidates)) => self@.resolution(id@) == Err::<Seq<char>, _>(
                    (reason@, text::texts(candidates@)),
                ),
            },
    {
        proof {
            assert(text::texts(Seq::<String>::empty()) =~= Seq::empty());
            lemma_tombstones_finite(self.tombstones@.map_values(|t: Tombstone| t@));
        }
        if !valid_station_id(id) {
            return Err(("legacy-unmapped".to_string(), Vec::new()));
        }
        if text::listed(&self.active, id) {
            return Ok(id.to_string());
        }
        if let Some(target) = self.legacy_target(id) {
            return Ok(target);
        }
        let mut current: String = id.to_string();
        let mut seen: Vec<String> = Vec::new();
        let ghost start = self@.resolution(id@);
        proof {
            assert(text::texts(seen@).to_set() =~= Set::empty());
        }
        loop
            invariant
                self@.tombstones.dom().finite(),
                text::texts(Seq::<String>::empty()) == Seq::<Seq<char>>::empty(),
                start == self@.resolution(id@),
                start == self@.follow(id@, current@, text::texts(seen@).to_set()),
            decreases self@.tombstones.dom().difference(text::texts(seen@).to_set()).len(),
        {
            if text::listed(&seen, current.as_str()) {
                return Err(("missing".to_string(), Vec::new()));
            }
            let t = match self.tombstone(current.as_str()) {
                Some(t) => t,
                None => {
                    return if text::starts_with(id, "legacy-") || text::starts_with(
                        id,
                        "rockserver-",
                    ) {
                        Err(("legacy-unmapped".to_string(), Vec::new()))
                    } else {
                        Err(("missing".to_string(), Vec::new()))
                    };
                },
            };
            match t.reason {
                TombstoneReason::Removed => {
                    return Err(("removed".to_string(), Vec::new()));
                },
                TombstoneReason::Split => {
                    return Err(("split".to_string(), text::copy_texts(&t.replacement_ids)));
                },
                TombstoneReason::Merged => {
                    if t.replacement_ids.len() != 1 {
                        return Err(("missing".to_string(), Vec::new()));
                    }
                    let next: String = t.replacement_ids[0].clone();
                    proof {
                        assert(t@.replacement_ids[0] == next@);
                    }
                    if text::listed(&self.active, next.as_str()) {
                        return Ok(next);
                    }
                    proof {
                        lemma_one_less(
                            self@.tombstones.dom(),
                            text::texts(seen@).to_set(),
                            current@,
                        );
                        let grown = text::texts(seen@.push(current));
                        assert(grown =~= text::texts(seen@).push(current@));
                        assert(grown.to_set() =~= text::texts(seen@).to_set().insert(current@)) by {
                            assert forall|x: Seq<char>|
                                grown.contains(x) == (text::texts(seen@).contains(x) || x
                                    == current@) by {
                                if text::texts(seen@).contains(x) {
                                    let k = text::texts(seen@).index_of(x);
                                    assert(grown[k] == x);
                                }
                                assert(grown[seen@.len() as int] == current@);
                            }
                        }
                    }
                    seen.push(current);
                    current = next;
                },
            }
        }
    }
}

proof fn lemma_first_stays(pairs: Seq<(Seq<char>, Seq<char>)>, n: int, key: Seq<char>)
    requires
        0 <= n <= pairs.len(),
        first_values(pairs.subrange(0, n)).contains_key(key),
    ensures
        first_values(pairs).contains_key(key),
        first_values(pairs)[key] == first_values(pairs.subrange(0, n))[key],
    decreases pairs.len() - n,
{
    if n == pairs.len() {
        assert(pairs.subrange(0, n) =~= pairs);
    } else {
        assert(pairs.subrange(0, n + 1).drop_last() =~= pairs.subrange(0, n));
        lemma_first_stays(pairs, n + 1, key);
    }
}

proof fn lemma_former_ids_lead_to_stations(stations: Seq<Station>, id: Seq<char>)
    requires
        first_values(all_former_ids(stations)).contains_key(id),
    ensures
        exists|i: int|
            0 <= i < stations.len() && (#[trigger] stations[i]).id@ == first_values(
                all_former_ids(stations),
            )[id],
{
    let pairs = all_former_ids(stations);
    lemma_value_of_a_pair(pairs, id);
    let k = choose|k: int|
        0 <= k < pairs.len() && (#[trigger] pairs[k]) == (id, first_values(pairs)[id]);
    lemma_pair_of_a_station(stations, k);
}

proof fn lemma_value_of_a_pair(pairs: Seq<(Seq<char>, Seq<char>)>, id: Seq<char>)
    requires
        first_values(pairs).contains_key(id),
    ensures
        exists|k: int|
            0 <= k < pairs.len() && (#[trigger] pairs[k]) == (id, first_values(pairs)[id]),
    decreases pairs.len(),
{
    let front = pairs.drop_last();
    if first_values(front).contains_key(id) {
        lemma_value_of_a_pair(front, id);
        let k = choose|k: int|
            0 <= k < front.len() && (#[trigger] front[k]) == (id, first_values(front)[id]);
        assert(pairs[k] == (id, first_values(pairs)[id]));
    } else {
        assert(pairs[pairs.len() - 1] == (id, first_values(pairs)[id]));
    }
}

proof fn lemma_pair_of_a_station(stations: Seq<Station>, k: int)
    requires
        0 <= k < all_former_ids(stations).len(),
    ensures
        exists|i: int|
            0 <= i < stations.len() && (#[trigger] stations[i]).id@ == all_former_ids(
                stations,
            )[k].1,
    decreases stations.len(),
{
    let front = stations.drop_last();
    if k < all_former_ids(front).len() {
        lemma_pair_of_a_station(front, k);
        let i = choose|i: int|
            0 <= i < front.len() && (#[trigger] front[i]).id@ == all_former_ids(front)[k].1;
        assert(stations[i].id@ == all_former_ids(stations)[k].1);
    } else {
        assert(stations[stations.len() - 1].id@ == all_former_ids(stations)[k].1);
    }
}

proof fn lemma_follow_ends_active(
    c: CatalogView,
    id: Seq<char>,
    current: Seq<char>,
    seen: Set<Seq<char>>,
)
    ensures
        match c.follow(id, current, seen) {
            Ok(t) => c.active.contains(t),
            Err((reason, candidates)) => {
                &&& reason == "missing"@ || reason == "legacy-unmapped"@ || reason == "removed"@
                    || reason == "split"@
                &&& reason != "split"@ ==> candidates.len() == 0
            },
        },
    decreases c.tombstones.dom().difference(seen).len(),
{
    if c.tombstones.dom().finite() && !seen.contains(current) && c.tombstones.contains_key(
        current,
    ) {
        let t = c.tombstones[current];
        if t.reason == TombstoneReason::Merged && t.replacement_ids.len() == 1
            && !c.active.contains(t.replacement_ids[0]) {
            lemma_one_less(c.tombstones.dom(), seen, current);
            lemma_follow_ends_active(c, id, t.replacement_ids[0], seen.insert(current));
        }
    }
}

/// What an identity resolves to is the identity of a station of the catalog,
/// whatever the tombstones say, and resolving it again changes nothing.
pub proof fn what_resolves_is_in_the_catalog(
    stations: Seq<Station>,
    version: Option<Seq<char>>,
    tombstones: Map<Seq<char>, TombstoneView>,
    id: Seq<char>,
)
    ensures
        ({
            let c = CatalogView { tombstones, ..catalog_of(stations, version) };
            c.resolution(id) matches Ok(t) ==> {
                &&& c.active.contains(t)
                &&& exists|i: int| 0 <= i < stations.len() && (#[trigger] stations[i]).id@ == t
                &&& is_station_id(t) ==> c.resolution(t) == Ok::<_, (Seq<char>, Seq<Seq<char>>)>(t)
            }
        }),
{
    let c = CatalogView { tombstones, ..catalog_of(stations, version) };
    let ids = stations.map_values(|s: Station| s.id@);
    lemma_follow_ends_active(c, id, id, Set::empty());
    if let Ok(t) = c.resolution(id) {
        if !c.active.contains(id) && c.legacy.contains_key(id) {
            lemma_former_ids_lead_to_stations(stations, id);
            let i = choose|i: int|
                0 <= i < stations.len() && (#[trigger] stations[i]).id@ == c.legacy[id];
            assert(ids[i] == t);
            assert(ids.contains(t));
        }
        assert(ids.contains(t));
        let i = choose|i: int| 0 <= i < ids.len() && ids[i] == t;
        assert(stations[i].id@ == t);
    }
}

/// An identity that names no station is refused for one of four reasons, and only
/// a split gives candidates.
pub proof fn refusals_give_a_known_reason(c: CatalogView, id: Seq<char>)
    ensures
        c.resolution(id) matches Err((reason, candidates)) ==> {
            &&& reason == "missing"@ || reason == "legacy-unmapped"@ || reason == "removed"@
                || reason == "split"@
            &&& reason != "split"@ ==> candidates.len() == 0
        },
{
    lemma_follow_ends_active(c, id, id, Set::empty());
}

/// Former identities lead to stations of the catalog.
pub open spec fn legacy_is_active(c: CatalogView) -> bool {
    forall|id: Seq<char>| #[trigger]
        c.legacy.contains_key(id) ==> c.active.contains(c.legacy[id])
}

/// In every catalog made of stations, former identities lead to stations.
pub proof fn former_identities_lead_to_stations(
    stations: Seq<Station>,
    version: Option<Seq<char>>,
    tombstones: Map<Seq<char>, TombstoneView>,
)
    ensures
        legacy_is_active(CatalogView { tombstones, ..catalog_of(stations, version) }),
{
    let c = CatalogView { tombstones, ..catalog_of(stations, version) };
    let ids = stations.map_values(|s: Station| s.id@);
    assert forall|id: Seq<char>| #[trigger] c.legacy.contains_key(id) implies c.active.contains(
        c.legacy[id],
    ) by {
        lemma_former_ids_lead_to_stations(stations, id);
        let i = choose|i: int|
            0 <= i < stations.len() && (#[trigger] stations[i]).id@ == c.legacy[id];
        assert(ids[i] == c.legacy[id]);
    }
}

/// What an identity resolves to is active.
pub proof fn what_resolves_is_active(c: CatalogView, id: Seq<char>)
    requires
        legacy_is_active(c),
    ensures
        c.resolution(id) matches Ok(t) ==> c.active.contains(t),
{
    lemma_follow_ends_active(c, id, id, Set::empty());
}

/// The form of an identity: no longer than 96 characters, only small letters, digits
/// and single hyphens inside.
pub proof fn the_form_of_an_identity(id: Seq<char>)
    ensures
        is_station_id(id) ==> 1 <= id.len() <= 96,
        is_station_id(id) ==> forall|i: int|
            0 <= i < id.len() ==> ('a' <= #[trigger] id[i] <= 'z') || ('0' <= id[i] <= '9') || (
            id[i] == '-' && 0 < i < id.len() - 1 && id[i - 1] != '-' && id[i + 1] != '-'),
        1 <= id.len() <= 96 && (forall|i: int|
            0 <= i < id.len() ==> ('a' <= #[trigger] id[i] <= 'z') || ('0' <= id[i] <= '9') || (
            id[i] == '-' && 0 < i < id.len() - 1 && id[i - 1] != '-' && id[i + 1] != '-'))
            ==> is_station_id(id),
{
    if is_station_id(id) {
        assert forall|i: int| 0 <= i < id.len() implies ('a' <= #[trigger] id[i] <= 'z') || ('0'
            <= id[i] <= '9') || (id[i] == '-' && 0 < i < id.len() - 1 && id[i - 1] != '-' && id[i
            + 1] != '-') by {
            assert(is_id_char(id[i]));
            if id[i] == '-' {
                assert(id[i + 1] == '-' ==> id[i + 1 - 1] != '-');
            }
        }
    }
}

/// An identity that is active names itself, whatever else is said of it. One that has
/// not the form of an identity names nothing.
pub proof fn active_identities_name_themselves(c: CatalogView, id: Seq<char>)
    ensures
        is_station_id(id) && c.active.contains(id) ==> c.resolution(id) == Ok::<
            _,
            (Seq<char>, Seq<Seq<char>>),
        >(id),
        !is_station_id(id) ==> c.resolution(id) == Err::<Seq<char>, _>(
            ("legacy-unmapped"@, Seq::<Seq<char>>::empty()),
        ),
{
}

/// What a tombstone says of an identity that is neither active nor a former one: a
/// removed one names nothing, a split one has its parts as candidates, and one that was
/// merged into a single active one names that. Merged into none or several it names
/// nothing.
pub proof fn tombstones_say_what_became_of_an_identity(c: CatalogView, id: Seq<char>)
    requires
        is_station_id(id),
        !c.active.contains(id),
        !c.legacy.contains_key(id),
        c.tombstones.dom().finite(),
    ensures
        c.tombstones.contains_key(id) ==> {
            let t = c.tombstones[id];
            &&& t.reason is Removed ==> c.resolution(id) == Err::<Seq<char>, _>(
                ("removed"@, Seq::<Seq<char>>::empty()),
            )
            &&& t.reason is Split ==> c.resolution(id) == Err::<Seq<char>, _>(
                ("split"@, t.replacement_ids),
            )
            &&& t.reason is Merged && t.replacement_ids.len() != 1 ==> c.resolution(id) == Err::<
                Seq<char>,
                _,
            >(("missing"@, Seq::<Seq<char>>::empty()))
            &&& t.reason is Merged && t.replacement_ids.len() == 1 && c.active.contains(
                t.replacement_ids[0],
            ) ==> c.resolution(id) == Ok::<_, (Seq<char>, Seq<Seq<char>>)>(t.replacement_ids[0])
        },
        !c.tombstones.contains_key(id) ==> c.resolution(id) == Err::<Seq<char>, _>(
            (
                if text::begins_with(id, "legacy-"@) || text::begins_with(id, "rockserver-"@) {
                    "legacy-unmapped"@
                } else {
                    "missing"@
                },
                Seq::<Seq<char>>::empty(),
            ),
        ),
{
}

/// An identity that was merged into a second one, which was merged into a third one
/// that is active, names the third. Two that were merged into each other name nothing.
pub proof fn merged_identities_lead_on(
    c: CatalogView,
    id: Seq<char>,
    second: Seq<char>,
    third: Seq<char>,
)
    requires
        is_station_id(id),
        !c.active.contains(id),
        !c.legacy.contains_key(id),
        !c.active.contains(second),
        id != second,
        c.tombstones.dom().finite(),
        c.tombstones.contains_key(id) && c.tombstones.contains_key(second),
        c.tombstones[id].reason is Merged && c.tombstones[second].reason is Merged,
        c.tombstones[id].replacement_ids == seq![second],
        c.tombstones[second].replacement_ids == seq![third],
    ensures
        c.active.contains(third) ==> c.resolution(id) == Ok::<_, (Seq<char>, Seq<Seq<char>>)>(
            third,
        ),
        third == id ==> c.resolution(id) == Err::<Seq<char>, _>(
            ("missing"@, Seq::<Seq<char>>::empty()),
        ),
{
    reveal_with_fuel(CatalogView::follow, 3);
}

proof fn lemma_first_value(pairs: Seq<(Seq<char>, Seq<char>)>, k: int)
    requires
        0 <= k < pairs.len(),
        forall|j: int| 0 <= j < k ==> (#[trigger] pairs[j]).0 != pairs[k].0,
    ensures
        first_values(pairs).contains_key(pairs[k].0),
        first_values(pairs)[pairs[k].0] == pairs[k].1,
    decreases pairs.len(),
{
    let front = pairs.drop_last();
    if k < front.len() {
        assert forall|j: int| 0 <= j < k implies (#[trigger] front[j]).0 != front[k].0 by {
            assert(front[j] == pairs[j]);
        }
        lemma_first_value(front, k);
    } else if first_values(front).contains_key(pairs[k].0) {
        lemma_value_of_a_pair(front, pairs[k].0);
        let j = choose|j: int|
            0 <= j < front.len() && (#[trigger] front[j]) == (
                pairs[k].0,
                first_values(front)[pairs[k].0],
            );
        assert(pairs[j] == front[j]);
    }
}

/// Where the pairs of one station begin among those of all.
proof fn lemma_pairs_of_stations(stations: Seq<Station>, i: int)
    requires
        0 <= i < stations.len(),
    ensures
        all_former_ids(stations.take(i)).len() + stations[i].legacy_ids@.len()
            <= all_former_ids(stations).len(),
        forall|k: int|
            0 <= k < stations[i].legacy_ids@.len() ==> #[trigger] all_former_ids(
                stations,
            )[all_former_ids(stations.take(i)).len() + k] == (
                stations[i].legacy_ids@[k]@,
                stations[i].id@,
            ),
        forall|k: int|
            0 <= k < all_former_ids(stations.take(i)).len() ==> #[trigger] all_former_ids(
                stations,
            )[k] == all_former_ids(stations.take(i))[k],
    decreases stations.len(),
{
    let front = stations.drop_last();
    if i == front.len() {
        assert(stations.take(i) =~= front);
    } else {
        lemma_pairs_of_stations(front, i);
        assert(front.take(i) =~= stations.take(i));
        let n = all_former_ids(stations.take(i)).len();
        assert forall|k: int| 0 <= k < stations[i].legacy_ids@.len() implies
            #[trigger] all_former_ids(stations)[n + k] == (
            stations[i].legacy_ids@[k]@,
            stations[i].id@,
        ) by {
            assert(all_former_ids(front)[n + k] == (front[i].legacy_ids@[k]@, front[i].id@));
        }
    }
}

proof fn lemma_station_of_a_pair(stations: Seq<Station>, k: int)
    requires
        0 <= k < all_former_ids(stations).len(),
    ensures
        exists|i: int, n: int|
            {
                &&& 0 <= i < stations.len()
                &&& 0 <= n < stations[i].legacy_ids@.len()
                &&& all_former_ids(stations)[k].0 == (#[trigger] stations[i].legacy_ids@[n])@
            },
    decreases stations.len(),
{
    let front = stations.drop_last();
    let m = all_former_ids(front).len();
    if k < m {
        lemma_station_of_a_pair(front, k);
        let (i, n) = choose|i: int, n: int|
            {
                &&& 0 <= i < front.len()
                &&& 0 <= n < front[i].legacy_ids@.len()
                &&& all_former_ids(front)[k].0 == (#[trigger] front[i].legacy_ids@[n])@
            };
        assert(stations[i].legacy_ids@[n]@ == all_former_ids(stations)[k].0);
    } else {
        let last = stations.len() - 1;
        assert(stations[last].legacy_ids@[k - m]@ == all_former_ids(stations)[k].0);
    }
}

/// A former identity leads to the first station of the catalog that claims it.
pub proof fn a_former_identity_leads_to_its_first_claimant(
    stations: Seq<Station>,
    version: Option<Seq<char>>,
    i: int,
    k: int,
)
    requires
        0 <= i < stations.len(),
        0 <= k < stations[i].legacy_ids@.len(),
        forall|j: int, n: int|
            0 <= j < i && 0 <= n < stations[j].legacy_ids@.len() ==> (
            #[trigger] stations[j].legacy_ids@[n])@ != stations[i].legacy_ids@[k]@,
    ensures
        ({
            let id = stations[i].legacy_ids@[k]@;
            let c = catalog_of(stations, version);
            &&& c.legacy.contains_key(id) && c.legacy[id] == stations[i].id@
            &&& is_station_id(id) && !c.active.contains(id) ==> c.resolution(id) == Ok::<
                _,
                (Seq<char>, Seq<Seq<char>>),
            >(stations[i].id@)
        }),
    decreases k,
{
    let id = stations[i].legacy_ids@[k]@;
    if exists|n: int| 0 <= n < k && (#[trigger] stations[i].legacy_ids@[n])@ == id {
        let n = choose|n: int| 0 <= n < k && (#[trigger] stations[i].legacy_ids@[n])@ == id;
        a_former_identity_leads_to_its_first_claimant(stations, version, i, n);
    } else {
        let pairs = all_former_ids(stations);
        let before = all_former_ids(stations.take(i));
        let at = before.len() + k;
        lemma_pairs_of_stations(stations, i);
        assert(pairs[at] == (id, stations[i].id@));
        assert forall|j: int| 0 <= j < at implies (#[trigger] pairs[j]).0 != pairs[at].0 by {
            if j < before.len() {
                lemma_station_of_a_pair(stations.take(i), j);
                let (a, n) = choose|a: int, n: int|
                    {
                        &&& 0 <= a < stations.take(i).len()
                        &&& 0 <= n < stations.take(i)[a].legacy_ids@.len()
                        &&& before[j].0 == (#[trigger] stations.take(i)[a].legacy_ids@[n])@
                    };
                assert(stations[a].legacy_ids@[n]@ == before[j].0);
            } else {
                assert(pairs[before.len() + (j - before.len())].0
                    == stations[i].legacy_ids@[j - before.len()]@);
            }
        }
        lemma_first_value(pairs, at);
    }
}

/// The catalog knows the stations that it lists, under their identities, and says
/// which version it is.
pub proof fn a_catalog_holds_its_stations(
    stations: Seq<Station>,
    version: Option<Seq<char>>,
    i: int,
)
    requires
        0 <= i < stations.len(),
    ensures
        catalog_of(stations, version).active.contains(stations[i].id@),
        catalog_of(stations, version).catalog_version == version,
        is_station_id(stations[i].id@) ==> catalog_of(stations, version).resolution(
            stations[i].id@,
        ) == Ok::<_, (Seq<char>, Seq<Seq<char>>)>(stations[i].id@),
{
    let ids = stations.map_values(|s: Station| s.id@);
    assert(ids[i] == stations[i].id@);
    assert(ids.contains(stations[i].id@));
}

/// Of several tombstones of one identity the last counts.
pub proof fn the_last_tombstone_counts(list: Seq<TombstoneView>, k: int)
    requires
        0 <= k < list.len(),
        forall|j: int| k < j < list.len() ==> (#[trigger] list[j]).id != list[k].id,
    ensures
        last_tombstones(list).contains_key(list[k].id),
        last_tombstones(list)[list[k].id] == list[k],
    decreases list.len(),
{
    if k < list.len() - 1 {
        let front = list.drop_last();
        assert forall|j: int| k < j < front.len() implies (#[trigger] front[j]).id
            != front[k].id by {
            assert(front[j] == list[j]);
        }
        the_last_tombstone_counts(front, k);
        assert(list[list.len() - 1].id != list[k].id);
    }
}

} // verus!
