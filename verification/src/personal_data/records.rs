//! The records of a profile.

use crate::order::Ranked;
use crate::text;
use vstd::prelude::*;

verus! {

/// What is shown of a favourite while its station is unknown.
#[derive(Debug)]
pub struct DisplayMetadata {
    pub last_known_name: Option<String>,
    pub catalog_version: Option<String>,
}

/// What is shown of a played station while it is unknown.
#[derive(Debug)]
pub struct HistoryMetadata {
    pub last_known_name: Option<String>,
    pub catalog_version: Option<String>,
    pub source: Option<String>,
}

/// A station that was marked.
#[derive(Debug)]
pub struct Favourite {
    /// A UUID.
    pub record_id: u128,
    pub station_id: String,
    pub added_at: String,
    pub updated_at: String,
    pub metadata: DisplayMetadata,
}

/// A station that was played. Times are RFC 3339.
#[derive(Debug)]
pub struct PlaybackHistoryEntry {
    /// A UUID.
    pub record_id: u128,
    pub station_id: String,
    pub started_at: String,
    pub last_played_at: String,
    pub ended_at: Option<String>,
    pub play_duration_ms: Option<u64>,
    pub metadata: HistoryMetadata,
}

/// A record whose station could not be found: it is set aside, not dropped.
#[derive(Debug)]
pub struct UnresolvedStationReference {
    /// A UUID.
    pub reference_id: u128,
    pub source_kind: String,
    pub original_station_id: String,
    pub first_seen_at: String,
    pub reason: String,
    pub candidate_station_ids: Vec<String>,
    pub last_known_name: Option<String>,
    pub catalog_version: Option<String>,
}

/// All that is kept of one listener.
#[derive(Debug)]
pub struct LocalProfile {
    pub schema_version: u32,
    /// A UUID.
    pub profile_id: u128,
    pub created_at: String,
    pub updated_at: String,
    pub favourites: Vec<Favourite>,
    pub playback_history: Vec<PlaybackHistoryEntry>,
    pub unresolved_references: Vec<UnresolvedStationReference>,
    /// A JSON object as text, which is carried along unread.
    pub metadata: String,
}

/// The contents of a [`DisplayMetadata`].
#[verifier::ext_equal]
pub struct DisplayView {
    pub name: Option<Seq<char>>,
    pub catalog: Option<Seq<char>>,
}

/// The contents of a [`HistoryMetadata`].
#[verifier::ext_equal]
pub struct HistoryMetaView {
    pub name: Option<Seq<char>>,
    pub catalog: Option<Seq<char>>,
    pub source: Option<Seq<char>>,
}

/// The contents of a [`Favourite`].
#[verifier::ext_equal]
pub struct FavouriteView {
    pub record_id: u128,
    pub station_id: Seq<char>,
    pub added_at: Seq<char>,
    pub updated_at: Seq<char>,
    pub metadata: DisplayView,
}

/// The contents of a [`PlaybackHistoryEntry`].
#[verifier::ext_equal]
pub struct HistoryView {
    pub record_id: u128,
    pub station_id: Seq<char>,
    pub started_at: Seq<char>,
    pub last_played_at: Seq<char>,
    pub ended_at: Option<Seq<char>>,
    pub play_duration_ms: Option<u64>,
    pub metadata: HistoryMetaView,
}

/// The contents of an [`UnresolvedStationReference`], apart from its own UUID.
#[verifier::ext_equal]
pub struct SetAside {
    pub source_kind: Seq<char>,
    pub original_station_id: Seq<char>,
    pub first_seen_at: Seq<char>,
    pub reason: Seq<char>,
    pub candidates: Seq<Seq<char>>,
    pub name: Option<Seq<char>>,
    pub catalog: Option<Seq<char>>,
}

/// The contents of an [`UnresolvedStationReference`].
#[verifier::ext_equal]
pub struct UnresolvedView {
    pub reference_id: u128,
    pub what: SetAside,
}

impl View for DisplayMetadata {
    type V = DisplayView;

    open spec fn view(&self) -> DisplayView {
        DisplayView {
            name: text::maybe(self.last_known_name),
            catalog: text::maybe(self.catalog_version),
        }
    }
}

impl View for HistoryMetadata {
    type V = HistoryMetaView;

    open spec fn view(&self) -> HistoryMetaView {
        HistoryMetaView {
            name: text::maybe(self.last_known_name),
            catalog: text::maybe(self.catalog_version),
            source: text::maybe(self.source),
        }
    }
}

impl View for Favourite {
    type V = FavouriteView;

    open spec fn view(&self) -> FavouriteView {
        FavouriteView {
            record_id: self.record_id,
            station_id: self.station_id@,
            added_at: self.added_at@,
            updated_at: self.updated_at@,
            metadata: self.metadata@,
        }
    }
}

impl View for PlaybackHistoryEntry {
    type V = HistoryView;

    open spec fn view(&self) -> HistoryView {
        HistoryView {
            record_id: self.record_id,
            station_id: self.station_id@,
            started_at: self.started_at@,
            last_played_at: self.last_played_at@,
            ended_at: text::maybe(self.ended_at),
            play_duration_ms: self.play_duration_ms,
            metadata: self.metadata@,
        }
    }
}

impl View for UnresolvedStationReference {
    type V = UnresolvedView;

    open spec fn view(&self) -> UnresolvedView {
        UnresolvedView {
            reference_id: self.reference_id,
            what: SetAside {
                source_kind: self.source_kind@,
                original_station_id: self.original_station_id@,
                first_seen_at: self.first_seen_at@,
                reason: self.reason@,
                candidates: text::texts(self.candidate_station_ids@),
                name: text::maybe(self.last_known_name),
                catalog: text::maybe(self.catalog_version),
            },
        }
    }
}

impl Clone for DisplayMetadata {
    fn clone(&self) -> (r: DisplayMetadata)
        ensures
            r@ == self@,
    {
        DisplayMetadata {
            last_known_name: text::copy_maybe(&self.last_known_name),
            catalog_version: text::copy_maybe(&self.catalog_version),
        }
    }
}

impl Default for DisplayMetadata {
    fn default() -> (r: DisplayMetadata)
        ensures
            r@ == (DisplayView { name: None, catalog: None }),
    {
        DisplayMetadata { last_known_name: None, catalog_version: None }
    }
}

impl Clone for HistoryMetadata {
    fn clone(&self) -> (r: HistoryMetadata)
        ensures
            r@ == self@,
    {
        HistoryMetadata {
            last_known_name: text::copy_maybe(&self.last_known_name),
            catalog_version: text::copy_maybe(&self.catalog_version),
            source: text::copy_maybe(&self.source),
        }
    }
}

impl Default for HistoryMetadata {
    fn default() -> (r: HistoryMetadata)
        ensures
            r@ == (HistoryMetaView { name: None, catalog: None, source: None }),
    {
        HistoryMetadata { last_known_name: None, catalog_version: None, source: None }
    }
}

impl Clone for Favourite {
    fn clone(&self) -> (r: Favourite)
        ensures
            r@ == self@,
    {
        Favourite {
            record_id: self.record_id,
            station_id: self.station_id.clone(),
            added_at: self.added_at.clone(),
            updated_at: self.updated_at.clone(),
            metadata: self.metadata.clone(),
        }
    }
}

impl Clone for PlaybackHistoryEntry {
    fn clone(&self) -> (r: PlaybackHistoryEntry)
        ensures
            r@ == self@,
    {
        PlaybackHistoryEntry {
            record_id: self.record_id,
            station_id: self.station_id.clone(),
            started_at: self.started_at.clone(),
            last_played_at: self.last_played_at.clone(),
            ended_at: text::copy_maybe(&self.ended_at),
            play_duration_ms: self.play_duration_ms,
            metadata: self.metadata.clone(),
        }
    }
}

impl Clone for UnresolvedStationReference {
    fn clone(&self) -> (r: UnresolvedStationReference)
        ensures
            r@ == self@,
    {
        UnresolvedStationReference {
            reference_id: self.reference_id,
            source_kind: self.source_kind.clone(),
            original_station_id: self.original_station_id.clone(),
            first_seen_at: self.first_seen_at.clone(),
            reason: self.reason.clone(),
            candidate_station_ids: text::copy_texts(&self.candidate_station_ids),
            last_known_name: text::copy_maybe(&self.last_known_name),
            catalog_version: text::copy_maybe(&self.catalog_version),
        }
    }
}

impl Favourite {
    /// Whether two records say the same.
    pub fn same(&self, other: &Favourite) -> (r: bool)
        ensures
            r == (self@ == other@),
    {
        self.record_id == other.record_id && text::same(
            self.station_id.as_str(),
            other.station_id.as_str(),
        ) && text::same(self.added_at.as_str(), other.added_at.as_str()) && text::same(
            self.updated_at.as_str(),
            other.updated_at.as_str(),
        ) && text::same_maybe(&self.metadata.last_known_name, &other.metadata.last_known_name)
            && text::same_maybe(&self.metadata.catalog_version, &other.metadata.catalog_version)
    }
}

impl PlaybackHistoryEntry {
    /// Whether two records say the same.
    pub fn same(&self, other: &PlaybackHistoryEntry) -> (r: bool)
        ensures
            r == (self@ == other@),
    {
        let durations = match (self.play_duration_ms, other.play_duration_ms) {
            (Some(a), Some(b)) => a == b,
            (None, None) => true,
            _ => false,
        };
        durations && self.record_id == other.record_id && text::same(
            self.station_id.as_str(),
            other.station_id.as_str(),
        ) && text::same(self.started_at.as_str(), other.started_at.as_str()) && text::same(
            self.last_played_at.as_str(),
            other.last_played_at.as_str(),
        ) && text::same_maybe(&self.ended_at, &other.ended_at) && text::same_maybe(
            &self.metadata.last_known_name,
            &other.metadata.last_known_name,
        ) && text::same_maybe(&self.metadata.catalog_version, &other.metadata.catalog_version)
            && text::same_maybe(&self.metadata.source, &other.metadata.source)
    }
}

impl UnresolvedStationReference {
    /// Whether two records say the same.
    pub fn same(&self, other: &UnresolvedStationReference) -> (r: bool)
        ensures
            r == (self@ == other@),
    {
        self.reference_id == other.reference_id && text::same(
            self.source_kind.as_str(),
            other.source_kind.as_str(),
        ) && text::same(
            self.original_station_id.as_str(),
            other.original_station_id.as_str(),
        ) && text::same(self.first_seen_at.as_str(), other.first_seen_at.as_str()) && text::same(
            self.reason.as_str(),
            other.reason.as_str(),
        ) && text::same_texts(&self.candidate_station_ids, &other.candidate_station_ids)
            && text::same_maybe(&self.last_known_name, &other.last_known_name)
            && text::same_maybe(&self.catalog_version, &other.catalog_version)
    }
}

/// Favourites are listed by the time at which they were added, then by station.
pub open spec fn favourite_before(a: FavouriteView, b: FavouriteView) -> bool {
    text::precedes(a.added_at, b.added_at) || (a.added_at == b.added_at && text::precedes(
        a.station_id,
        b.station_id,
    ))
}

impl Ranked for Favourite {
    open spec fn ranks_before(a: FavouriteView, b: FavouriteView) -> bool {
        favourite_before(a, b)
    }

    fn is_before(&self, other: &Favourite) -> (b: bool) {
        text::before(self.added_at.as_str(), other.added_at.as_str()) || (text::same(
            self.added_at.as_str(),
            other.added_at.as_str(),
        ) && text::before(self.station_id.as_str(), other.station_id.as_str()))
    }
}

/// History is listed from the latest play down, then from the latest start down,
/// then by UUID.
pub open spec fn history_before(a: HistoryView, b: HistoryView) -> bool {
    text::precedes(b.last_played_at, a.last_played_at) || (b.last_played_at == a.last_played_at && (
    text::precedes(b.started_at, a.started_at) || (b.started_at == a.started_at && a.record_id
        < b.record_id)))
}

impl Ranked for PlaybackHistoryEntry {
    open spec fn ranks_before(a: HistoryView, b: HistoryView) -> bool {
        history_before(a, b)
    }

    fn is_before(&self, other: &PlaybackHistoryEntry) -> (b: bool) {
        text::before(other.last_played_at.as_str(), self.last_played_at.as_str()) || (text::same(
            other.last_played_at.as_str(),
            self.last_played_at.as_str(),
        ) && (text::before(other.started_at.as_str(), self.started_at.as_str()) || (text::same(
            other.started_at.as_str(),
            self.started_at.as_str(),
        ) && self.record_id < other.record_id)))
    }
}

} // verus!
