//! Favourites and history on a store that is held in memory.

use rockcast::personal_data::{
    check_schema, station_index_by_id, CatalogResolver, DisplayMetadata, Favourite,
    HistoryMetadata, LocalProfile, PersonalDataStore, PlaybackHistoryEntry, ProfileError,
    Tombstone, TombstoneReason, UnresolvedStationReference,
};
use rockcast::stations::Station;

fn station(id: &str, url: &str) -> Station {
    Station::from_primary(
        id.to_string(),
        id.to_string(),
        url.to_string(),
        "".to_string(),
        "".to_string(),
        128,
        "mp3".to_string(),
    )
}

fn store(stations: Vec<Station>) -> PersonalDataStore {
    let resolver = CatalogResolver::from_stations(&stations, Some("test".to_string()));
    PersonalDataStore::open(None, resolver).unwrap().0
}

fn play_at(station_id: &str, time: &str) -> PlaybackHistoryEntry {
    PlaybackHistoryEntry {
        record_id: 9,
        station_id: station_id.to_string(),
        started_at: time.to_string(),
        last_played_at: time.to_string(),
        ended_at: None,
        play_duration_ms: None,
        metadata: HistoryMetadata::default(),
    }
}

fn days_ago(days: i64) -> String {
    let t = time::OffsetDateTime::now_utc() - time::Duration::days(days);
    t.format(&time::format_description::well_known::Rfc3339).unwrap()
}

#[test]
fn favourite_persists_and_uses_id_not_url() {
    let s = station("stable", "https://old");
    let mut p = store(vec![s.clone()]);
    assert!(p.toggle_favourite(&s).unwrap());
    let kept = p.profile;
    let changed = station("stable", "https://new");
    let (p, _) =
        PersonalDataStore::open(Some(kept), CatalogResolver::from_stations(&[changed], None))
            .unwrap();
    assert!(p.is_favourite("stable"));
    assert_eq!(p.favourites()[0].station_id, "stable");
}

#[test]
fn stable_id_resolves_to_current_catalog_station() {
    let stations = vec![
        station("first", "https://first"),
        station("stable", "https://changed-stream"),
    ];
    assert_eq!(station_index_by_id(&stations, "stable"), Some(1));
}

#[test]
fn missing_stable_id_is_safe_and_does_not_select_another_station() {
    let stations = vec![station("available", "https://available")];
    assert_eq!(station_index_by_id(&stations, "missing"), None);
}

#[test]
fn history_coalesces_orders_and_clears() {
    let a = station("a", "https://a");
    let b = station("b", "https://b");
    let mut p = store(vec![a.clone(), b.clone()]);
    p.record_play(&a).unwrap();
    p.record_play(&a).unwrap();
    p.record_play(&b).unwrap();
    assert_eq!(p.history().len(), 2);
    assert_eq!(p.history()[0].station_id, "b");
    p.profile.unresolved_references.push(UnresolvedStationReference {
        reference_id: 3,
        source_kind: "history".to_string(),
        original_station_id: "missing".to_string(),
        first_seen_at: days_ago(0),
        reason: "missing".to_string(),
        candidate_station_ids: vec![],
        last_known_name: Some("Missing station".to_string()),
        catalog_version: None,
    });
    p.clear_history().unwrap();
    assert!(p.history().is_empty());
    assert!(p.profile().unresolved_references.is_empty());
}

#[test]
fn merge_retire_split_and_missing_quarantine() {
    let active = station("new", "https://n");
    let resolver = CatalogResolver::from_stations(&[active], None).with_tombstones(vec![
        Tombstone {
            id: "old".to_string(),
            reason: TombstoneReason::Merged,
            replacement_ids: vec!["new".to_string()],
        },
        Tombstone {
            id: "gone".to_string(),
            reason: TombstoneReason::Removed,
            replacement_ids: vec![],
        },
        Tombstone {
            id: "fork".to_string(),
            reason: TombstoneReason::Split,
            replacement_ids: vec!["new".to_string(), "other".to_string()],
        },
    ]);
    assert_eq!(resolver.resolve("old").unwrap(), "new");
    assert_eq!(resolver.resolve("gone").unwrap_err().0, "removed");
    assert_eq!(resolver.resolve("fork").unwrap_err().0, "split");
    assert_eq!(resolver.resolve("unknown").unwrap_err().0, "missing");
}

#[test]
fn migration_quarantines_legacy_id_without_deleting_it() {
    let timestamp = days_ago(0);
    let profile = LocalProfile {
        schema_version: 1,
        profile_id: 1,
        created_at: timestamp.clone(),
        updated_at: timestamp.clone(),
        favourites: vec![Favourite {
            record_id: 2,
            station_id: "legacy-deadbeef".to_string(),
            added_at: timestamp.clone(),
            updated_at: timestamp,
            metadata: DisplayMetadata::default(),
        }],
        playback_history: vec![],
        unresolved_references: vec![],
        metadata: "{}".to_string(),
    };
    let (store, changed) =
        PersonalDataStore::open(Some(profile), CatalogResolver::from_stations(&[], None)).unwrap();
    assert!(changed);
    assert!(store.favourites().is_empty());
    assert_eq!(store.profile().unresolved_references[0].reason, "legacy-unmapped");
    assert_eq!(
        store.profile().unresolved_references[0].original_station_id,
        "legacy-deadbeef"
    );
}

#[test]
fn retention_removes_old_entries() {
    let a = station("a", "https://a");
    let mut store = store(vec![a]);
    store.profile.playback_history.push(play_at("a", &days_ago(91)));
    store.retain();
    assert!(store.history().is_empty());
}

#[test]
fn retention_keeps_what_is_recent_and_has_a_time() {
    let mut store = store(vec![station("a", "https://a")]);
    let recent = days_ago(89);
    store.profile.playback_history.push(play_at("a", &recent));
    store.profile.playback_history.push(play_at("a", "some time ago"));
    store.retain();
    assert_eq!(store.history().len(), 1);
    assert_eq!(store.history()[0].last_played_at, recent);
}

#[test]
fn a_profile_of_another_version_is_refused() {
    let mut profile = LocalProfile::new_with(7, "2026-01-01T00:00:00Z".to_string());
    profile.schema_version = 2;
    match check_schema(profile) {
        Err(ProfileError::UnsupportedSchema(2)) => {}
        other => panic!("{other:?}"),
    }
    assert_eq!(
        ProfileError::UnsupportedSchema(2).message(),
        "unsupported personal profile schema 2"
    );
}

#[test]
fn marking_twice_leaves_no_favourite() {
    let a = station("a", "https://a");
    let mut p = store(vec![a.clone()]);
    assert!(p.toggle_favourite(&a).unwrap());
    assert!(p.is_favourite("a"));
    assert!(!p.toggle_favourite(&a).unwrap());
    assert!(!p.is_favourite("a"));
}

#[test]
fn records_get_identities_of_their_own() {
    let a = station("a", "https://a");
    let b = station("b", "https://b");
    let mut p = store(vec![a.clone(), b.clone()]);
    p.toggle_favourite(&a).unwrap();
    p.toggle_favourite(&b).unwrap();
    let first = p.favourites()[0].record_id;
    let second = p.favourites()[1].record_id;
    assert_ne!(first, second);
    // Version 4, variant 1.
    assert_eq!((first >> 76) & 0xf, 4);
    assert_eq!((first >> 62) & 0x3, 2);
    p.record_play(&a).unwrap();
    let play = p.history()[0].record_id;
    assert_eq!(((play >> 76) & 0xf, (play >> 62) & 0x3), (4, 2));
    let profile = p.profile().profile_id;
    assert_eq!(((profile >> 76) & 0xf, (profile >> 62) & 0x3), (4, 2));
    let (moved, _) =
        PersonalDataStore::open(Some(p.profile), CatalogResolver::from_stations(&[], None))
            .unwrap();
    let note = moved.profile().unresolved_references[0].reference_id;
    assert_eq!(((note >> 76) & 0xf, (note >> 62) & 0x3), (4, 2));
}

#[test]
fn there_is_a_limit_to_favourites() {
    let mut p = store(vec![station("a", "https://a")]);
    for i in 0..500 {
        assert!(p.toggle_favourite(&station(&format!("s{i}"), "https://s")).unwrap());
    }
    match p.toggle_favourite(&station("one-more", "https://s")) {
        Err(e) => assert_eq!(e.message(), "invalid personal profile: favourites limit reached"),
        other => panic!("{other:?}"),
    }
    assert_eq!(p.favourites().len(), 500);
    assert!(!p.toggle_favourite(&station("s3", "https://s")).unwrap());
}

#[test]
fn a_play_at_no_time_is_refused() {
    let mut p = store(vec![station("a", "https://a")]);
    let r = p.record_play_at(
        &station("a", "https://a"),
        Err("no clock".to_string()),
        1,
        (0, 0),
        Ok("x".to_string()),
    );
    match r {
        Err(ProfileError::Invalid(e)) => assert_eq!(e, "no clock"),
        other => panic!("{other:?}"),
    }
}

#[test]
fn plays_within_five_minutes_are_one() {
    let a = station("a", "https://a");
    let mut p = store(vec![a.clone()]);
    let first = "2026-05-01T12:00:00Z".to_string();
    let second = "2026-05-01T12:04:00Z".to_string();
    let third = "2026-05-01T12:20:00Z".to_string();
    let at = |s: i64| (1_777_636_800 + s, 0u32);
    p.record_play_at(&a, Ok(first), 1, at(0), Ok("x".to_string())).unwrap();
    p.record_play_at(&a, Ok(second.clone()), 2, at(240), Ok("x".to_string())).unwrap();
    assert_eq!(p.history().len(), 1);
    assert_eq!(p.history()[0].last_played_at, second);
    p.record_play_at(&a, Ok(third.clone()), 3, at(1200), Ok("x".to_string())).unwrap();
    assert_eq!(p.history().len(), 2);
    assert_eq!(p.history()[0].last_played_at, third);
    assert_eq!(p.last_played_station_id(), Some("a"));
}

#[test]
fn a_former_identity_leads_to_the_station() {
    let mut now = station("now", "https://n");
    now.legacy_ids = vec!["former".to_string()];
    let resolver = CatalogResolver::from_stations(&[now], None);
    assert_eq!(resolver.resolve("former").unwrap(), "now");
    assert_eq!(resolver.resolve("now").unwrap(), "now");
}

#[test]
fn opening_again_changes_nothing() {
    let a = station("a", "https://a");
    let mut p = store(vec![a.clone()]);
    p.toggle_favourite(&a).unwrap();
    p.record_play(&a).unwrap();
    assert!(!p.migrate_and_retain());
    assert_eq!(p.favourites().len(), 1);
    assert_eq!(p.history().len(), 1);
}

#[test]
fn moved_favourites_are_in_order() {
    let favourite = |id: &str, time: &str| Favourite {
        record_id: 1,
        station_id: id.to_string(),
        added_at: time.to_string(),
        updated_at: time.to_string(),
        metadata: DisplayMetadata::default(),
    };
    let mut profile = LocalProfile::new_with(7, "2026-01-01T00:00:00Z".to_string());
    profile.favourites = vec![
        favourite("c", "2026-03-01T00:00:00Z"),
        favourite("b", "2026-02-01T00:00:00Z"),
        favourite("a", "2026-02-01T00:00:00Z"),
    ];
    let stations = [station("a", "x"), station("b", "x"), station("c", "x")];
    let resolver = CatalogResolver::from_stations(&stations, None);
    let (store, changed) = PersonalDataStore::open(Some(profile), resolver).unwrap();
    assert!(changed);
    let ids: Vec<&str> = store.favourites().iter().map(|f| f.station_id.as_str()).collect();
    assert_eq!(ids, vec!["a", "b", "c"]);
}

#[test]
fn the_journal_counts_the_records() {
    let a = station("a", "https://a");
    let mut p = store(vec![a.clone()]);
    p.toggle_favourite(&a).unwrap();
    let j = p.migration_journal("2026-05-01T12:00:00Z");
    assert_eq!(
        rockcast::json::write_json(&j).unwrap(),
        "{\"catalogVersion\":\"test\",\"favourites\":1,\"history\":0,\
         \"migration\":\"lifecycle-resolution\",\"sourceSchemaVersion\":1,\
         \"targetSchemaVersion\":1,\"timestamp\":\"2026-05-01T12:00:00Z\",\"unresolved\":0}"
    );
}
