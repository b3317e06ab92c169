use zellij_favs::favs::{Bucket, Favs};
use zellij_favs::favs_mode::FavMode;
use zellij_favs::FavSessionInfo;

fn session(name: &str, active: bool, number: Option<u8>, tabs: usize, panes: usize) -> FavSessionInfo {
    FavSessionInfo {
        name: name.to_string(),
        is_active: active,
        assigned_number: number,
        tabs,
        panes,
    }
}

fn names(v: &[FavSessionInfo]) -> Vec<String> {
    v.iter().map(|s| s.name.clone()).collect()
}

#[test]
fn default_is_empty() {
    let f = Favs::default();
    assert!(f.fav_sessions.is_empty());
    assert!(f.flush_sessions.is_empty());
    assert_eq!(f.cursor, 0);
    assert_eq!(f.mode, FavMode::NavigateFavs);
    assert!(f.current_column.is_none());
    assert!(f.filter.is_none());
    assert!(!f.has_loaded);
    assert_eq!(f.cache_dir, "~/.cache/favs.json");
}

#[test]
fn filter_is_case_insensitive_substring() {
    let mut f = Favs::default();
    f.fav_sessions = vec![session("MyDevBox", true, None, 1, 1), session("alpha", true, None, 1, 1)];
    f.filter = Some("dev".to_string());
    let (kept, _) = f.get_filtered_sessions();
    assert_eq!(names(&kept), vec!["MyDevBox".to_string()]);

    f.filter = Some("DEV".to_string());
    let (kept, _) = f.get_filtered_sessions();
    assert_eq!(names(&kept), vec!["MyDevBox".to_string()]);

    f.filter = Some("zz".to_string());
    let (kept, _) = f.get_filtered_sessions();
    assert!(kept.is_empty());
}

#[test]
fn filter_matches_inner_substring() {
    let mut f = Favs::default();
    f.flush_sessions = vec![session("abcdef", true, None, 0, 0), session("abf", true, None, 0, 0)];
    f.filter = Some("cde".to_string());
    let (_, flush) = f.get_filtered_sessions();
    assert_eq!(names(&flush), vec!["abcdef".to_string()]);
}

#[test]
fn empty_filter_matches_everything() {
    let mut f = Favs::default();
    f.fav_sessions = vec![session("a", true, None, 0, 0), session("b", false, None, 0, 0)];
    f.filter = Some(String::new());
    let (kept, _) = f.get_filtered_sessions();
    assert_eq!(kept.len(), 2);
}

#[test]
fn move_session_moves_and_keeps_partition() {
    let mut f = Favs::default();
    f.fav_sessions = vec![session("A", true, Some(1), 2, 3), session("B", false, None, 0, 0)];
    f.flush_sessions = vec![session("C", true, None, 1, 1)];
    assert!(f.move_session(&"B".to_string(), Bucket::Kept, Bucket::Flush));
    assert_eq!(names(&f.fav_sessions), vec!["A".to_string()]);
    assert_eq!(names(&f.flush_sessions), vec!["C".to_string(), "B".to_string()]);
    // metadata travels with the session
    assert_eq!(f.flush_sessions[1].is_active, false);
    // moving back
    assert!(f.move_session(&"C".to_string(), Bucket::Flush, Bucket::Kept));
    assert_eq!(names(&f.fav_sessions), vec!["A".to_string(), "C".to_string()]);
    assert_eq!(names(&f.flush_sessions), vec!["B".to_string()]);
}

#[test]
fn move_session_not_found_is_noop() {
    let mut f = Favs::default();
    f.fav_sessions = vec![session("A", true, None, 0, 0)];
    assert!(!f.move_session(&"missing".to_string(), Bucket::Kept, Bucket::Flush));
    assert_eq!(names(&f.fav_sessions), vec!["A".to_string()]);
    assert!(f.flush_sessions.is_empty());
    // wrong bucket counts as not found too
    assert!(!f.move_session(&"A".to_string(), Bucket::Flush, Bucket::Kept));
}

#[test]
fn assign_number_moves_digit_between_sessions() {
    let mut f = Favs::default();
    f.fav_sessions = vec![session("A", true, None, 0, 0)];
    f.flush_sessions = vec![session("B", true, None, 0, 0)];
    assert!(f.assign_number(&"A".to_string(), 3));
    assert_eq!(f.fav_sessions[0].assigned_number, Some(3));
    assert!(f.assign_number(&"B".to_string(), 3));
    assert_eq!(f.fav_sessions[0].assigned_number, None);
    assert_eq!(f.flush_sessions[0].assigned_number, Some(3));
}

#[test]
fn assign_number_is_idempotent_on_same_session() {
    let mut f = Favs::default();
    f.fav_sessions = vec![session("A", true, None, 0, 0)];
    assert!(f.assign_number(&"A".to_string(), 7));
    assert!(f.assign_number(&"A".to_string(), 7));
    assert_eq!(f.fav_sessions[0].assigned_number, Some(7));
}

#[test]
fn assign_number_not_found_is_noop() {
    let mut f = Favs::default();
    f.fav_sessions = vec![session("A", true, Some(2), 0, 0)];
    assert!(!f.assign_number(&"missing".to_string(), 2));
    assert_eq!(f.fav_sessions[0].assigned_number, Some(2));
}

#[test]
fn clear_number_clears_only_the_named_session() {
    let mut f = Favs::default();
    f.fav_sessions = vec![session("A", true, Some(1), 0, 0)];
    f.flush_sessions = vec![session("B", true, Some(2), 0, 0)];
    assert!(f.clear_number(&"B".to_string()));
    assert_eq!(f.fav_sessions[0].assigned_number, Some(1));
    assert_eq!(f.flush_sessions[0].assigned_number, None);
    assert!(!f.clear_number(&"missing".to_string()));
}

#[test]
fn purge_flush_removes_visible_entries() {
    let mut f = Favs::default();
    f.flush_sessions = vec![session("X", true, None, 1, 1), session("Y", false, None, 0, 0)];
    let removed = f.purge_flush();
    assert_eq!(names(&removed), vec!["X".to_string(), "Y".to_string()]);
    assert!(f.flush_sessions.is_empty());
}

#[test]
fn purge_flush_respects_filter() {
    let mut f = Favs::default();
    f.flush_sessions = vec![session("apple", true, None, 0, 0), session("berry", false, None, 0, 0)];
    f.filter = Some("app".to_string());
    let removed = f.purge_flush();
    assert_eq!(names(&removed), vec!["apple".to_string()]);
    assert_eq!(names(&f.flush_sessions), vec!["berry".to_string()]);
}

#[test]
fn move_within_one_bucket_rotates_to_the_end() {
    let mut f = Favs::default();
    f.fav_sessions = vec![
        session("A", true, None, 0, 0),
        session("B", true, None, 0, 0),
        session("C", true, None, 0, 0),
    ];
    assert!(f.move_session(&"A".to_string(), Bucket::Kept, Bucket::Kept));
    assert_eq!(names(&f.fav_sessions), vec!["B".to_string(), "C".to_string(), "A".to_string()]);
}

#[test]
fn scroll_skip_keeps_cursor_on_last_visible_row() {
    assert_eq!(zellij_favs::favs::scroll_skip(0, 5), 0);
    assert_eq!(zellij_favs::favs::scroll_skip(4, 5), 0);
    assert_eq!(zellij_favs::favs::scroll_skip(5, 5), 1);
    assert_eq!(zellij_favs::favs::scroll_skip(9, 5), 5);
    assert_eq!(zellij_favs::favs::scroll_skip(3, 0), 0);
}

#[test]
fn snapshot_copies_both_buckets() {
    let mut f = Favs::default();
    f.fav_sessions = vec![session("A", true, Some(1), 2, 3)];
    f.flush_sessions = vec![session("B", false, None, 0, 0)];
    let snap = f.snapshot();
    assert_eq!(snap.favs, f.fav_sessions);
    assert_eq!(snap.flush, f.flush_sessions);
}

#[test]
fn apply_snapshot_accepts_valid_data() {
    let mut f = Favs::default();
    let ok = f.apply_snapshot(
        vec![session("A", true, Some(1), 0, 0)],
        vec![session("B", false, Some(2), 0, 0)],
    );
    assert!(ok);
    assert!(f.has_loaded);
    assert_eq!(names(&f.fav_sessions), vec!["A".to_string()]);
    assert_eq!(names(&f.flush_sessions), vec!["B".to_string()]);
}

#[test]
fn apply_snapshot_rejects_duplicate_names() {
    let mut f = Favs::default();
    let ok = f.apply_snapshot(
        vec![session("A", true, None, 0, 0)],
        vec![session("A", false, None, 0, 0)],
    );
    assert!(!ok);
    assert!(f.has_loaded);
    assert!(f.fav_sessions.is_empty());
    assert!(f.flush_sessions.is_empty());
}

#[test]
fn apply_snapshot_rejects_duplicate_digits() {
    let mut f = Favs::default();
    let ok = f.apply_snapshot(
        vec![session("A", true, Some(4), 0, 0), session("B", true, Some(4), 0, 0)],
        vec![],
    );
    assert!(!ok);
}

#[test]
fn apply_snapshot_rejects_out_of_range_number() {
    let mut f = Favs::default();
    let ok = f.apply_snapshot(vec![session("A", true, Some(12), 0, 0)], vec![]);
    assert!(!ok);
}
