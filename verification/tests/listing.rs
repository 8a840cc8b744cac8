use wows_toolkit::player_tracker::{PlayerTracker, ReplayPlayer};
use wows_toolkit::query::{SeverityBand, SortOrder, SortedBy, TimePeriod, severity_band};

fn player(db_id: i64, name: &str, clan: &str, relation: u32) -> ReplayPlayer {
    ReplayPlayer {
        db_id,
        name: name.to_string(),
        clan: clan.to_string(),
        clan_id: 1,
        relation,
    }
}

fn names_of(rows: &[wows_toolkit::listing::PlayerRow]) -> Vec<String> {
    rows.iter().map(|r| r.last_name.clone()).collect()
}

fn sample_tracker() -> PlayerTracker {
    let mut t = PlayerTracker::new();
    t.merge_match(1, 1_000, &vec![
        player(1, "Alpha", "AAA", 1),
        player(2, "Bravo", "BBB", 2),
        player(3, "Charlie", "CCC", 2),
    ]);
    t.merge_match(2, 2_000, &vec![player(2, "Bravo", "BBB", 1)]);
    t.merge_match(3, 3_000, &vec![player(2, "Bravo", "BBB", 1), player(3, "Charlie", "CCC", 1)]);
    t
}

#[test]
fn listing_sorts_by_name_ascending() {
    let mut t = sample_tracker();
    t.select_sort_key(SortedBy::Name(SortOrder::Asc));
    // the default key differed, so the selection lands ascending
    assert_eq!(t.sort_order(), SortedBy::Name(SortOrder::Asc));
    t.set_filter_time_period(TimePeriod::AllTime);
    let rows = t.query_rows(10_000);
    assert_eq!(names_of(&rows), vec!["Alpha", "Bravo", "Charlie"]);
}

#[test]
fn sort_toggle_reverses_listing() {
    let mut t = sample_tracker();
    t.set_filter_time_period(TimePeriod::AllTime);
    t.select_sort_key(SortedBy::Name(SortOrder::Asc));
    let first = names_of(&t.query_rows(10_000));
    t.select_sort_key(SortedBy::Name(SortOrder::Asc));
    assert_eq!(t.sort_order(), SortedBy::Name(SortOrder::Desc));
    let second = names_of(&t.query_rows(10_000));
    let mut reversed = first.clone();
    reversed.reverse();
    assert_eq!(second, reversed);
    // selecting a different column resets to ascending
    t.select_sort_key(SortedBy::Clan(SortOrder::Asc));
    assert_eq!(t.sort_order(), SortedBy::Clan(SortOrder::Asc));
}

#[test]
fn default_listing_orders_by_encounters_descending() {
    let mut t = sample_tracker();
    t.set_filter_time_period(TimePeriod::AllTime);
    assert_eq!(t.sort_order(), SortedBy::TimesEncountered(SortOrder::Desc));
    let rows = t.query_rows(10_000);
    assert_eq!(names_of(&rows), vec!["Bravo", "Charlie", "Alpha"]);
    assert_eq!(rows[0].total_encounters, 3);
    assert_eq!(rows[1].total_encounters, 2);
    assert_eq!(rows[2].total_encounters, 1);
}

#[test]
fn equal_keys_break_ties_by_id() {
    let mut t = PlayerTracker::new();
    t.merge_match(1, 1_000, &vec![player(9, "Same", "ZZZ", 1), player(4, "Same", "ZZZ", 1)]);
    t.set_filter_time_period(TimePeriod::AllTime);
    t.select_sort_key(SortedBy::Name(SortOrder::Asc));
    let rows = t.query_rows(10_000);
    assert_eq!(rows.iter().map(|r| r.db_id).collect::<Vec<_>>(), vec![4, 9]);
}

#[test]
fn name_filter_is_case_insensitive_across_fields() {
    let mut t = PlayerTracker::new();
    t.merge_match(1, 1_000, &vec![
        player(1, "Alpha", "KLAN", 1),
        player(2, "Bravo", "OTHER", 1),
    ]);
    t.merge_match(2, 2_000, &vec![player(2, "Changed", "OTHER", 1)]);
    t.set_filter_time_period(TimePeriod::AllTime);

    // clan tag, any case
    t.set_player_filter("klan".to_string());
    assert_eq!(names_of(&t.query_rows(10_000)), vec!["Alpha"]);
    // current name, any case
    t.set_player_filter("CHANGED".to_string());
    assert_eq!(names_of(&t.query_rows(10_000)), vec!["Changed"]);
    // an alias still matches
    t.set_player_filter("bravo".to_string());
    assert_eq!(names_of(&t.query_rows(10_000)), vec!["Changed"]);
    // empty filter lists everyone
    t.set_player_filter(String::new());
    assert_eq!(t.query_rows(10_000).len(), 2);
    // no match at all
    t.set_player_filter("nobody".to_string());
    assert!(t.query_rows(10_000).is_empty());
}

#[test]
fn window_limits_candidates_and_counts() {
    let mut t = PlayerTracker::new();
    let now: i64 = 1_000_000;
    let day = 86_400i64;
    t.merge_match(1, now - 3 * day, &vec![player(1, "Older", "AAA", 1)]);
    t.merge_match(2, now - 3_600, &vec![player(2, "Recent", "BBB", 1)]);
    t.set_filter_time_period(TimePeriod::LastDay);
    let rows = t.query_rows(now);
    assert_eq!(names_of(&rows), vec!["Recent"]);
    t.set_filter_time_period(TimePeriod::AllTime);
    let mut all = names_of(&t.query_rows(now));
    all.sort();
    assert_eq!(all, vec!["Older", "Recent"]);
}

#[test]
fn window_counts_shown_per_row() {
    let mut t = PlayerTracker::new();
    let now: i64 = 1_000_000;
    t.merge_match(1, now - 90_000, &vec![player(1, "P", "AAA", 1)]);
    t.merge_match(2, now - 3_600, &vec![player(1, "P", "AAA", 1)]);
    t.set_filter_time_period(TimePeriod::LastDay);
    let rows = t.query_rows(now);
    assert_eq!(rows.len(), 1);
    assert_eq!(rows[0].total_encounters, 2);
    assert_eq!(rows[0].encounters_in_window, 1);
}

#[test]
fn severity_bands_at_boundaries() {
    assert_eq!(severity_band(0), SeverityBand::Neutral);
    assert_eq!(severity_band(1), SeverityBand::Neutral);
    assert_eq!(severity_band(2), SeverityBand::Caution);
    assert_eq!(severity_band(3), SeverityBand::Caution);
    assert_eq!(severity_band(4), SeverityBand::Elevated);
    assert_eq!(severity_band(5), SeverityBand::Elevated);
    assert_eq!(severity_band(6), SeverityBand::Severe);
    assert_eq!(severity_band(1000), SeverityBand::Severe);
}

#[test]
fn row_severity_follows_window_count() {
    let mut t = PlayerTracker::new();
    let now: i64 = 1_000_000;
    for k in 0..4 {
        t.merge_match(k, now - 3_600 - k, &vec![player(1, "P", "AAA", 1)]);
    }
    t.set_filter_time_period(TimePeriod::LastDay);
    let rows = t.query_rows(now);
    assert_eq!(rows[0].encounters_in_window, 4);
    assert_eq!(rows[0].severity(), SeverityBand::Elevated);
}

#[test]
fn time_period_window_starts() {
    let now: i64 = 10_000_000;
    assert_eq!(TimePeriod::LastDay.to_date(now), Some(now - 86_400));
    assert_eq!(TimePeriod::LastWeek.to_date(now), Some(now - 604_800));
    assert_eq!(TimePeriod::LastMonth.to_date(now), Some(now - 2_419_200));
    assert_eq!(TimePeriod::AllTime.to_date(now), None);
    assert_eq!(TimePeriod::default(), TimePeriod::LastDay);
}

#[test]
fn sort_state_machinery() {
    let mut order = SortOrder::Asc;
    order.toggle();
    assert_eq!(order, SortOrder::Desc);
    order.toggle();
    assert_eq!(order, SortOrder::Asc);
    assert_eq!(SortOrder::Asc.icon(), "asc");
    assert_eq!(SortOrder::Desc.icon(), "desc");

    let mut key = SortedBy::default();
    assert_eq!(key, SortedBy::TimesEncountered(SortOrder::Desc));
    key.transition_to(SortedBy::TimesEncountered(SortOrder::Asc));
    assert_eq!(key, SortedBy::TimesEncountered(SortOrder::Asc));
    key.transition_to(SortedBy::Name(SortOrder::Asc));
    assert_eq!(key, SortedBy::Name(SortOrder::Asc));
    assert_eq!(key.order(), SortOrder::Asc);
    assert_eq!(key.description(), "Name");
    assert_eq!(SortedBy::Clan(SortOrder::Asc).description(), "Clan");
    assert_eq!(
        SortedBy::TimesEncounteredInTimeRange(SortOrder::Asc).description(),
        "Times Encountered in Time Range"
    );
    assert_eq!(TimePeriod::LastDay.description(), "Past 24 Hours");
    assert_eq!(TimePeriod::AllTime.description(), "All Time");
}

#[test]
fn live_only_players_stay_out_of_listing() {
    // a roster merge records no time bucket, so the listing's candidate
    // scan does not reach the player until a replay lands
    let mut t = PlayerTracker::new();
    t.merge_live_roster(9_000, &vec![wows_toolkit::player_tracker::LivePlayer {
        db_id: 7,
        name: "Foo".to_string(),
        relation: 1,
    }]);
    t.set_filter_time_period(TimePeriod::AllTime);
    assert!(t.query_rows(10_000).is_empty());
    assert!(t.get(7).is_some());
}
