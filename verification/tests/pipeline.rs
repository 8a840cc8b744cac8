use wows_toolkit::events::{NotifyFileEvent, RawWatchKind, classify_event};
use wows_toolkit::player_tracker::ReplayData;
use wows_toolkit::retry::RetryPolicy;
use wows_toolkit::store::ReplayStore;
use wows_toolkit::support::{ReplaySettings, Tab, TimedMessage, default_bool};
use wows_toolkit::task::{DownloadProgress, TaskKind, TaskOutcome, TaskPoll, TaskSlot};

fn class_of(kind: RawWatchKind, path: &str, is_file: bool) -> &'static str {
    match classify_event(kind, path.to_string(), is_file) {
        Some(NotifyFileEvent::Added(_)) => "added",
        Some(NotifyFileEvent::Removed(_)) => "removed",
        Some(NotifyFileEvent::PreferencesChanged) => "preferences",
        Some(NotifyFileEvent::TempArenaInfoCreated(_)) => "arena",
        None => "none",
    }
}

#[test]
fn classifier_recognises_replays() {
    let r = classify_event(
        RawWatchKind::CreateOrRenameTo,
        "/replays/20240101_1.wowsreplay".to_string(),
        true,
    );
    match r {
        Some(NotifyFileEvent::Added(p)) => assert_eq!(p, "/replays/20240101_1.wowsreplay"),
        other => panic!("expected an added-replay event, got {:?}", other),
    }
    // backslash separators work too
    assert_eq!(
        class_of(RawWatchKind::CreateOrRenameTo, "C:\\replays\\x.wowsreplay", true),
        "added"
    );
}

#[test]
fn classifier_ignores_temp_write_name() {
    assert_eq!(
        class_of(RawWatchKind::CreateOrRenameTo, "/replays/temp.wowsreplay", true),
        "none"
    );
}

#[test]
fn classifier_recognises_arena_info() {
    let r = classify_event(
        RawWatchKind::CreateOrRenameTo,
        "/replays/tempArenaInfo.json".to_string(),
        true,
    );
    match r {
        Some(NotifyFileEvent::TempArenaInfoCreated(p)) => {
            assert_eq!(p, "/replays/tempArenaInfo.json")
        },
        other => panic!("expected an arena-info event, got {:?}", other),
    }
    // the client also rewrites the file in place: a modify counts too
    assert_eq!(
        class_of(RawWatchKind::OtherModify, "/replays/tempArenaInfo.json", true),
        "arena"
    );
}

#[test]
fn classifier_recognises_preferences_touch() {
    assert_eq!(
        class_of(RawWatchKind::OtherModify, "/game/preferences.xml", false),
        "preferences"
    );
    // a preferences write is a modify, not a create
    assert_eq!(
        class_of(RawWatchKind::CreateOrRenameTo, "/game/preferences.xml", true),
        "none"
    );
}

#[test]
fn classifier_forwards_removals_and_drops_the_rest() {
    let r = classify_event(RawWatchKind::Remove, "/replays/a.wowsreplay".to_string(), false);
    match r {
        Some(NotifyFileEvent::Removed(p)) => assert_eq!(p, "/replays/a.wowsreplay"),
        other => panic!("expected a removal event, got {:?}", other),
    }
    assert_eq!(class_of(RawWatchKind::Other, "/replays/a.wowsreplay", true), "none");
    // a directory named like a replay is not a file
    assert_eq!(
        class_of(RawWatchKind::CreateOrRenameTo, "/replays/dir.wowsreplay", false),
        "none"
    );
    // no extension at all
    assert_eq!(class_of(RawWatchKind::CreateOrRenameTo, "/replays/notes", true), "none");
    assert_eq!(class_of(RawWatchKind::OtherModify, "/replays/a.wowsreplay", true), "none");
}

#[test]
fn retry_gives_up_after_three_attempts() {
    let policy = RetryPolicy::replay_ingest();
    assert_eq!(policy.max_attempts, 3);
    assert_eq!(policy.backoff_secs, 1);
    let (attempts, ok) = policy.run_outcomes(&vec![false, false, false, false]);
    assert_eq!(attempts, 3);
    assert!(!ok);
}

#[test]
fn retry_stops_at_first_success() {
    let policy = RetryPolicy::replay_ingest();
    assert_eq!(policy.run_outcomes(&vec![false, true, false]), (2, true));
    assert_eq!(policy.run_outcomes(&vec![true, false, false]), (1, true));
    // a success past the budget is never reached
    assert_eq!(policy.run_outcomes(&vec![false, false, false, true]), (3, false));
    assert!(policy.should_retry(0));
    assert!(policy.should_retry(2));
    assert!(!policy.should_retry(3));
}

#[test]
fn task_slot_transitions() {
    let mut slot = TaskSlot::new();
    assert!(!slot.is_running());
    assert_eq!(slot.on_poll(TaskPoll::Pending), TaskOutcome::NothingRunning);

    let detached = slot.start(TaskKind::LoadingData);
    assert!(!detached);
    assert_eq!(slot.on_poll(TaskPoll::Pending), TaskOutcome::StillRunning);
    assert!(slot.is_running());
    assert_eq!(
        slot.on_poll(TaskPoll::Delivered(true)),
        TaskOutcome::Completed(TaskKind::LoadingData, true)
    );
    assert!(!slot.is_running());

    slot.start(TaskKind::LoadingReplay);
    // starting again while one runs detaches the old worker, visibly
    let detached = slot.start(TaskKind::Updating);
    assert!(detached);
    assert_eq!(slot.on_poll(TaskPoll::Vanished), TaskOutcome::VanishedQuietly);
    assert!(!slot.is_running());

    slot.start(TaskKind::PopulatePlayerInspectorFromReplays);
    assert_eq!(
        slot.on_poll(TaskPoll::Delivered(false)),
        TaskOutcome::Completed(TaskKind::PopulatePlayerInspectorFromReplays, false)
    );
}

#[test]
fn download_progress_only_grows() {
    let mut p = DownloadProgress::new();
    assert_eq!(p.permille(), 0);
    p.observe(250);
    assert_eq!(p.permille(), 250);
    p.observe(100);
    assert_eq!(p.permille(), 250);
    p.observe(990);
    assert_eq!(p.permille(), 990);
    p.observe(5_000);
    assert_eq!(p.permille(), 1000);
    p.observe(0);
    assert_eq!(p.permille(), 1000);
}

#[test]
fn replay_store_is_a_map_by_path() {
    let mut store = ReplayStore::new();
    let data = |arena: i64| ReplayData {
        arena_id: arena,
        date_time: "01.01.2024 10:00:00".to_string(),
        players: Vec::new(),
    };
    store.insert("/r/a.wowsreplay".to_string(), data(1));
    store.insert("/r/b.wowsreplay".to_string(), data(2));
    assert_eq!(store.len(), 2);
    assert_eq!(store.get(&"/r/a.wowsreplay".to_string()).unwrap().arena_id, 1);

    // replacing keeps one entry per path
    store.insert("/r/a.wowsreplay".to_string(), data(3));
    assert_eq!(store.len(), 2);
    assert_eq!(store.get(&"/r/a.wowsreplay".to_string()).unwrap().arena_id, 3);

    assert!(store.remove(&"/r/a.wowsreplay".to_string()));
    assert!(!store.remove(&"/r/a.wowsreplay".to_string()));
    assert_eq!(store.len(), 1);
    assert!(store.get(&"/r/a.wowsreplay".to_string()).is_none());
    assert!(store.get(&"/r/b.wowsreplay".to_string()).is_some());
}

#[test]
fn timed_message_expires_after_ten_seconds() {
    let m = TimedMessage::new("loaded".to_string(), 100);
    assert_eq!(m.message, "loaded");
    assert!(!m.is_expired(100));
    assert!(!m.is_expired(110));
    assert!(m.is_expired(111));
    // near the top of the range the expiry saturates
    let m = TimedMessage::new("x".to_string(), u64::MAX - 3);
    assert!(!m.is_expired(u64::MAX));
}

#[test]
fn driver_odds_and_ends() {
    assert_eq!(Tab::Unpacker.title(), "Resource Unpacker");
    assert_eq!(Tab::Settings.title(), "Settings");
    assert_eq!(Tab::ReplayParser.title(), "Replay Inspector");
    assert_eq!(Tab::PlayerTracker.title(), "Player Tracker");
    assert!(default_bool::<true>());
    assert!(!default_bool::<false>());
    let settings = ReplaySettings::default();
    assert!(settings.show_game_chat);
    assert!(!settings.show_entity_id);
    assert!(settings.show_observed_damage);
}
