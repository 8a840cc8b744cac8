use wows_toolkit::player_tracker::{LivePlayer, PlayerTracker, ReplayPlayer, TimeBucket, TrackedPlayer};
use wows_toolkit::query::{SortOrder, SortedBy, TimePeriod};

fn player(db_id: i64, name: &str, clan: &str, relation: u32) -> ReplayPlayer {
    ReplayPlayer {
        db_id,
        name: name.to_string(),
        clan: clan.to_string(),
        clan_id: 42,
        relation,
    }
}

fn snapshot(t: &PlayerTracker) -> Vec<(i64, String, Vec<String>, String, Vec<i64>, Vec<i64>)> {
    t.players()
        .iter()
        .map(|p| {
            (
                p.db_id(),
                p.last_name().clone(),
                p.aliases().clone(),
                p.clan().clone(),
                p.timestamps().clone(),
                p.arena_ids().clone(),
            )
        })
        .collect()
}

#[test]
fn merge_records_players() {
    let mut t = PlayerTracker::new();
    t.merge_match(1, 1_000, &vec![player(7, "Foo", "ABC", 1), player(9, "Qux", "DEF", 2)]);
    assert_eq!(t.player_count(), 2);
    let p = t.get(7).unwrap();
    assert_eq!(p.last_name(), "Foo");
    assert_eq!(p.clan(), "ABC");
    assert_eq!(p.clan_id(), 42);
    assert_eq!(p.timestamps(), &vec![1_000]);
    assert_eq!(p.arena_ids(), &vec![1]);
    assert!(p.aliases().is_empty());
}

#[test]
fn merge_idempotent() {
    let mut t = PlayerTracker::new();
    let roster = vec![player(7, "Foo", "ABC", 1), player(9, "Qux", "DEF", 2)];
    t.merge_match(1, 1_000, &roster);
    let once = snapshot(&t);
    t.merge_match(1, 1_000, &roster);
    let twice = snapshot(&t);
    assert_eq!(once, twice);
    let p = t.get(7).unwrap();
    assert_eq!(p.total_encounters(), 1);
    assert_eq!(p.timestamps().len(), 1);
}

#[test]
fn name_change_adds_alias_once() {
    let mut t = PlayerTracker::new();
    t.merge_match(1, 1_000, &vec![player(7, "A", "ABC", 1)]);
    t.merge_match(2, 2_000, &vec![player(7, "B", "ABC", 1)]);
    let p = t.get(7).unwrap();
    assert_eq!(p.last_name(), "B");
    assert_eq!(p.aliases(), &vec!["A".to_string()]);
}

#[test]
fn stale_observation_keeps_newest_name() {
    let mut t = PlayerTracker::new();
    t.merge_match(2, 2_000, &vec![player(7, "New", "ABC", 1)]);
    t.merge_match(1, 1_000, &vec![player(7, "Old", "ABC", 1)]);
    let p = t.get(7).unwrap();
    assert_eq!(p.last_name(), "New");
    assert!(p.aliases().is_empty());
    assert_eq!(p.total_encounters(), 2);
    assert_eq!(p.timestamps(), &vec![1_000, 2_000]);
}

#[test]
fn current_name_never_among_aliases() {
    let mut t = PlayerTracker::new();
    t.merge_match(1, 1_000, &vec![player(7, "A", "ABC", 1)]);
    t.merge_match(2, 2_000, &vec![player(7, "B", "ABC", 1)]);
    t.merge_match(3, 3_000, &vec![player(7, "A", "ABC", 1)]);
    let p = t.get(7).unwrap();
    assert_eq!(p.last_name(), "A");
    assert_eq!(p.aliases(), &vec!["B".to_string()]);
    t.merge_match(4, 4_000, &vec![player(7, "B", "ABC", 1)]);
    let p = t.get(7).unwrap();
    assert_eq!(p.last_name(), "B");
    assert_eq!(p.aliases(), &vec!["A".to_string()]);
}

#[test]
fn self_player_never_tracked() {
    let mut t = PlayerTracker::new();
    t.merge_match(1, 1_000, &vec![player(5, "Me", "XYZ", 0), player(7, "Foo", "ABC", 1)]);
    t.merge_match(2, 2_000, &vec![player(5, "Me", "XYZ", 0)]);
    t.merge_live_roster(3_000, &vec![
        LivePlayer { db_id: 5, name: "Me".to_string(), relation: 0 },
        LivePlayer { db_id: 8, name: "Bar".to_string(), relation: 2 },
    ]);
    assert!(t.get(5).is_none());
    assert!(t.get(7).is_some());
    assert!(t.get(8).is_some());
}

#[test]
fn duplicate_entry_in_one_match_counts_once() {
    let mut t = PlayerTracker::new();
    t.merge_match(1, 1_000, &vec![player(7, "Foo", "ABC", 1), player(7, "Foo", "ABC", 1)]);
    let p = t.get(7).unwrap();
    assert_eq!(p.total_encounters(), 1);
    assert_eq!(p.timestamps(), &vec![1_000]);
}

#[test]
fn window_counts_are_monotone_in_start() {
    let mut t = PlayerTracker::new();
    t.merge_match(1, 1_000, &vec![player(7, "Foo", "ABC", 1)]);
    t.merge_match(2, 2_000, &vec![player(7, "Foo", "ABC", 1)]);
    t.merge_match(3, 3_000, &vec![player(7, "Foo", "ABC", 1)]);
    let p = t.get(7).unwrap();
    assert_eq!(p.encounters_in_window(Some(500)), 3);
    assert_eq!(p.encounters_in_window(Some(1_000)), 2);
    assert_eq!(p.encounters_in_window(Some(2_500)), 1);
    assert_eq!(p.encounters_in_window(Some(3_000)), 0);
    assert_eq!(p.encounters_in_window(None), 3);
    let starts = [500i64, 1_000, 2_500, 3_000];
    for w in 0..starts.len() - 1 {
        assert!(
            p.encounters_in_window(Some(starts[w])) >= p.encounters_in_window(Some(starts[w + 1]))
        );
    }
}

#[test]
fn duplicate_match_then_rename_scenario() {
    // one match folded twice, then a later match under a new name
    let mut t = PlayerTracker::new();
    let m1 = vec![player(7, "Foo", "ABC", 1)];
    let t1: i64 = 1_704_103_200;
    let t2: i64 = 1_704_189_600;
    t.merge_match(100, t1, &m1);
    t.merge_match(100, t1, &m1);
    t.merge_match(200, t2, &vec![player(7, "Bar", "ABC", 1)]);
    let p = t.get(7).unwrap();
    assert_eq!(p.last_name(), "Bar");
    assert_eq!(p.aliases(), &vec!["Foo".to_string()]);
    assert_eq!(p.total_encounters(), 2);
    assert_eq!(p.timestamps(), &vec![t1, t2]);
}

#[test]
fn live_roster_merges_without_match_id() {
    let mut t = PlayerTracker::new();
    t.merge_live_roster(5_000, &vec![LivePlayer {
        db_id: 7,
        name: "Foo".to_string(),
        relation: 1,
    }]);
    let p = t.get(7).unwrap();
    assert_eq!(p.last_name(), "Foo");
    assert_eq!(p.total_encounters(), 0);
    assert_eq!(p.timestamps(), &vec![5_000]);
    // the same roster again at the same instant adds nothing
    t.merge_live_roster(5_000, &vec![LivePlayer {
        db_id: 7,
        name: "Foo".to_string(),
        relation: 1,
    }]);
    let p = t.get(7).unwrap();
    assert_eq!(p.timestamps(), &vec![5_000]);
}

#[test]
fn notes_survive_ingestion() {
    let mut t = PlayerTracker::new();
    t.merge_match(1, 1_000, &vec![player(7, "Foo", "ABC", 1)]);
    // notes are user text on a copy of the entry; ingestion never writes them
    let p = t.get(7).unwrap();
    assert_eq!(p.notes(), "");
    t.merge_match(2, 2_000, &vec![player(7, "Foo", "ABC", 1)]);
    assert_eq!(t.get(7).unwrap().notes(), "");
}

#[test]
fn clear_empties_maps_and_keeps_query_state() {
    let mut t = PlayerTracker::new();
    t.merge_match(1, 1_000, &vec![player(7, "Foo", "ABC", 1)]);
    t.set_player_filter("abc".to_string());
    t.clear();
    assert_eq!(t.player_count(), 0);
    assert_eq!(t.buckets().len(), 0);
    assert_eq!(t.player_filter(), "abc");
}

#[test]
fn rebuild_from_parts_round_trips() {
    let mut t = PlayerTracker::new();
    t.merge_match(1, 1_000, &vec![player(7, "Foo", "ABC", 1), player(9, "Qux", "DEF", 2)]);
    t.merge_match(2, 2_000, &vec![player(7, "Bar", "ABC", 1)]);
    let before = snapshot(&t);

    let players: Vec<TrackedPlayer> = t
        .players()
        .iter()
        .map(|p| {
            TrackedPlayer::from_parts(
                p.db_id(),
                p.last_name().clone(),
                p.aliases().clone(),
                p.clan_id(),
                p.clan().clone(),
                p.timestamps().clone(),
                p.arena_ids().clone(),
                p.notes().clone(),
            )
            .expect("an entry out of the index is well-formed")
        })
        .collect();
    let buckets: Vec<TimeBucket> = t
        .buckets()
        .iter()
        .map(|b| TimeBucket::from_parts(b.timestamp(), b.ids().clone()))
        .collect();
    let rebuilt = PlayerTracker::from_parts(
        players,
        buckets,
        TimePeriod::AllTime,
        SortedBy::Name(SortOrder::Asc),
        "abc".to_string(),
    )
    .expect("a snapshot of a live index is well-formed");
    assert_eq!(snapshot(&rebuilt), before);
    assert_eq!(rebuilt.filter_time_period(), TimePeriod::AllTime);
    assert_eq!(rebuilt.player_filter(), "abc");
}

#[test]
fn rebuild_rejects_broken_state() {
    // unordered instants break the entry invariant
    assert!(TrackedPlayer::from_parts(
        7,
        "Foo".to_string(),
        vec![],
        0,
        String::new(),
        vec![2_000, 1_000],
        vec![1],
        String::new(),
    )
    .is_none());
    // an alias equal to the current name breaks it too
    assert!(TrackedPlayer::from_parts(
        7,
        "Foo".to_string(),
        vec!["Foo".to_string()],
        0,
        String::new(),
        vec![1_000],
        vec![1],
        String::new(),
    )
    .is_none());
    // no encounter instant at all
    assert!(TrackedPlayer::from_parts(
        7,
        "Foo".to_string(),
        vec![],
        0,
        String::new(),
        vec![],
        vec![],
        String::new(),
    )
    .is_none());

    let good = |id: i64| {
        TrackedPlayer::from_parts(
            id,
            "Foo".to_string(),
            vec![],
            0,
            String::new(),
            vec![1_000],
            vec![1],
            String::new(),
        )
        .unwrap()
    };
    // duplicate ids break the index invariant
    assert!(PlayerTracker::from_parts(
        vec![good(7), good(7)],
        vec![],
        TimePeriod::AllTime,
        SortedBy::Name(SortOrder::Asc),
        String::new(),
    )
    .is_none());
    // unordered buckets break it too
    assert!(PlayerTracker::from_parts(
        vec![good(7)],
        vec![TimeBucket::from_parts(2_000, vec![7]), TimeBucket::from_parts(1_000, vec![7])],
        TimePeriod::AllTime,
        SortedBy::Name(SortOrder::Asc),
        String::new(),
    )
    .is_none());
    // a bucket naming an untracked player breaks the maps' agreement
    assert!(PlayerTracker::from_parts(
        vec![good(7)],
        vec![TimeBucket::from_parts(1_000, vec![8])],
        TimePeriod::AllTime,
        SortedBy::Name(SortOrder::Asc),
        String::new(),
    )
    .is_none());
    // so does an instant absent from the named player's history
    assert!(PlayerTracker::from_parts(
        vec![good(7)],
        vec![TimeBucket::from_parts(2_000, vec![7])],
        TimePeriod::AllTime,
        SortedBy::Name(SortOrder::Asc),
        String::new(),
    )
    .is_none());
    // the agreeing state is accepted
    assert!(PlayerTracker::from_parts(
        vec![good(7)],
        vec![TimeBucket::from_parts(1_000, vec![7])],
        TimePeriod::AllTime,
        SortedBy::Name(SortOrder::Asc),
        String::new(),
    )
    .is_some());
}

#[test]
fn update_from_replay_parses_client_timestamp() {
    let mut t = PlayerTracker::new();
    let data = wows_toolkit::player_tracker::ReplayData {
        arena_id: 1,
        date_time: "01.01.2024 10:00:00".to_string(),
        players: vec![player(7, "Foo", "ABC", 1)],
    };
    assert!(t.update_from_replay(&data));
    assert_eq!(t.get(7).unwrap().total_encounters(), 1);
    let bad = wows_toolkit::player_tracker::ReplayData {
        arena_id: 2,
        date_time: "not a date".to_string(),
        players: vec![player(7, "Foo", "ABC", 1)],
    };
    assert!(!t.update_from_replay(&bad));
    assert_eq!(t.get(7).unwrap().total_encounters(), 1);
}

#[test]
fn arena_info_blob_merges_roster() {
    let mut t = PlayerTracker::new();
    let mut blob = String::new();
    blob.push_str("{\"gameMode\":7,\"clientVersionFromExe\":\"14,0,0,123\",");
    blob.push_str("\"mapDisplayName\":\"map\",\"mapId\":1,\"clientVersionFromXml\":\"14,0,0,123\",");
    blob.push_str("\"duration\":1200,\"gameLogic\":\"Domination\",\"name\":\"12x12\",");
    blob.push_str("\"scenario\":\"Domination\",\"playerID\":1,\"vehicles\":[");
    blob.push_str("{\"shipId\":1,\"relation\":0,\"id\":100,\"name\":\"Me\"},");
    blob.push_str("{\"shipId\":2,\"relation\":1,\"id\":7,\"name\":\"Foo\"}],");
    blob.push_str("\"playersPerTeam\":12,\"dateTime\":\"01.01.2024 10:00:00\",");
    blob.push_str("\"mapName\":\"spaces/17_NA_fault_line\",\"playerName\":\"Me\",");
    blob.push_str("\"scenarioConfigId\":1,\"teamsCount\":2,\"logic\":\"Domination\",");
    blob.push_str("\"playerVehicle\":\"PASC020\"}");
    assert!(t.update_from_live_arena_info(blob.into_bytes()));
    // the local player is excluded, the teammate is tracked before any replay exists
    assert!(t.get(100).is_none());
    let p = t.get(7).unwrap();
    assert_eq!(p.last_name(), "Foo");
    assert_eq!(p.total_encounters(), 0);
    assert_eq!(p.timestamps().len(), 1);
    // garbage does not decode and changes nothing
    let before = t.player_count();
    assert!(!t.update_from_live_arena_info(b"not json".to_vec()));
    assert_eq!(t.player_count(), before);
}
