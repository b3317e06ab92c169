use zellij_favs::favs::Favs;
use zellij_favs::favs_mode::FavMode;
use zellij_favs::worker::SyncMessage;
use zellij_favs::{FavSessionInfo, FavsCommandType};

fn session(name: &str, active: bool, number: Option<u8>, tabs: usize, panes: usize) -> FavSessionInfo {
    FavSessionInfo {
        name: name.to_string(),
        is_active: active,
        assigned_number: number,
        tabs,
        panes,
    }
}

fn names(v: &[FavSessionInfo]) -> Vec<String> {
    v.iter().map(|s| s.name.clone()).collect()
}

#[test]
fn reconcile_keeps_classification_and_refreshes_counts() {
    let mut f = Favs::default();
    f.fav_sessions = vec![session("B", true, Some(7), 9, 9)];
    let live = vec![("A".to_string(), 2usize, 5usize)];
    let resurrectable = vec!["B".to_string()];
    let changed = f.reconcile(&live, &resurrectable);
    assert!(changed);
    assert_eq!(f.fav_sessions, vec![session("B", false, Some(7), 0, 0)]);
    assert_eq!(f.flush_sessions, vec![session("A", true, None, 2, 5)]);
}

#[test]
fn reconcile_is_idempotent() {
    let mut f = Favs::default();
    f.fav_sessions = vec![session("keepme", true, Some(1), 1, 1)];
    f.flush_sessions = vec![session("old", false, None, 0, 0)];
    let live = vec![("keepme".to_string(), 3usize, 4usize), ("new".to_string(), 1usize, 1usize)];
    let resurrectable = vec!["old".to_string()];
    let first = f.reconcile(&live, &resurrectable);
    assert!(first);
    let kept_after = f.fav_sessions.clone();
    let flush_after = f.flush_sessions.clone();
    let second = f.reconcile(&live, &resurrectable);
    assert!(!second);
    assert_eq!(f.fav_sessions, kept_after);
    assert_eq!(f.flush_sessions, flush_after);
}

#[test]
fn reconcile_drops_names_reported_nowhere() {
    let mut f = Favs::default();
    f.fav_sessions = vec![session("gone", true, Some(2), 1, 1)];
    f.flush_sessions = vec![session("stale", false, None, 0, 0)];
    let changed = f.reconcile(&vec![], &vec![]);
    assert!(changed);
    assert!(f.fav_sessions.is_empty());
    assert!(f.flush_sessions.is_empty());
}

#[test]
fn reconcile_tracks_new_names_in_flush_without_number() {
    let mut f = Favs::default();
    let live = vec![("fresh".to_string(), 1usize, 2usize)];
    let changed = f.reconcile(&live, &vec![]);
    assert!(changed);
    assert!(f.fav_sessions.is_empty());
    assert_eq!(f.flush_sessions, vec![session("fresh", true, None, 1, 2)]);
}

#[test]
fn reconcile_clamps_cursor() {
    let mut f = Favs::default();
    f.fav_sessions = vec![
        session("a", true, None, 0, 0),
        session("b", true, None, 0, 0),
        session("c", true, None, 0, 0),
    ];
    f.cursor = 2;
    let live = vec![("a".to_string(), 1usize, 1usize)];
    f.reconcile(&live, &vec![]);
    assert_eq!(names(&f.fav_sessions), vec!["a".to_string()]);
    assert_eq!(f.cursor, 0);
}

#[test]
fn sync_ignores_own_echo() {
    let mut f = Favs::default();
    f.fav_sessions = vec![session("mine", true, None, 0, 0)];
    let msg = SyncMessage {
        favs: vec![session("other", true, None, 0, 0)],
        flush: vec![],
        sender_id: 42,
    };
    let applied = f.apply_sync(&msg, 42);
    assert!(!applied);
    assert_eq!(names(&f.fav_sessions), vec!["mine".to_string()]);
}

#[test]
fn sync_applies_foreign_snapshot_wholesale() {
    let mut f = Favs::default();
    f.fav_sessions = vec![session("mine", true, None, 0, 0)];
    let msg = SyncMessage {
        favs: vec![session("theirs", true, Some(1), 1, 1)],
        flush: vec![session("spare", false, None, 0, 0)],
        sender_id: 42,
    };
    let applied = f.apply_sync(&msg, 7);
    assert!(applied);
    assert_eq!(names(&f.fav_sessions), vec!["theirs".to_string()]);
    assert_eq!(names(&f.flush_sessions), vec!["spare".to_string()]);
}

#[test]
fn sync_drops_malformed_snapshot() {
    let mut f = Favs::default();
    f.fav_sessions = vec![session("mine", true, None, 0, 0)];
    let msg = SyncMessage {
        favs: vec![session("dup", true, None, 0, 0)],
        flush: vec![session("dup", false, None, 0, 0)],
        sender_id: 42,
    };
    let applied = f.apply_sync(&msg, 7);
    assert!(!applied);
    assert_eq!(names(&f.fav_sessions), vec!["mine".to_string()]);
}

#[test]
fn command_type_key_and_labels() {
    assert_eq!(FavsCommandType::get_command_key(), "command_type");
    assert_eq!(FavsCommandType::ReadCache.as_str(), "ReadCache");
    assert_eq!(FavsCommandType::WriteCache.as_str(), "WriteCache");
    assert_eq!(FavsCommandType::from(&"WriteCache".to_string()), FavsCommandType::WriteCache);
    assert_eq!(FavsCommandType::from(&"ReadCache".to_string()), FavsCommandType::ReadCache);
    assert_eq!(FavsCommandType::from(&"garbage".to_string()), FavsCommandType::ReadCache);
}

#[test]
fn mode_help_tables() {
    assert_eq!(FavMode::variants(), vec![
        FavMode::NavigateFavs,
        FavMode::NavigateFlush,
        FavMode::Filter,
        FavMode::Help,
    ]);
    assert_eq!(FavMode::total_commands(), 22);
    assert_eq!(FavMode::Filter.get_commands().len(), 6);
    assert_eq!(FavMode::NavigateFavs.get_commands().len(), 7);
    assert_eq!(FavMode::Help.get_commands().len(), 2);
    assert_eq!(FavMode::NavigateFavs.label(), "Navigate");
    assert_eq!(FavMode::Filter.label(), "Filter");
    assert_eq!(FavMode::Help.label(), "Help");
}
