use zellij_favs::favs::Favs;
use zellij_favs::favs_mode::FavMode;
use zellij_favs::host::{BareKey, HostRequest};
use zellij_favs::FavSessionInfo;

fn session(name: &str, active: bool, number: Option<u8>, tabs: usize, panes: usize) -> FavSessionInfo {
    FavSessionInfo {
        name: name.to_string(),
        is_active: active,
        assigned_number: number,
        tabs,
        panes,
    }
}

fn names(v: &[FavSessionInfo]) -> Vec<String> {
    v.iter().map(|s| s.name.clone()).collect()
}

fn active_view_len(f: &Favs) -> usize {
    let (kept, flush) = f.get_filtered_sessions();
    match f.mode {
        FavMode::NavigateFavs => kept.len(),
        FavMode::NavigateFlush => flush.len(),
        FavMode::AssignNumber => match f.current_column {
            Some(FavMode::NavigateFavs) => kept.len(),
            Some(FavMode::NavigateFlush) => flush.len(),
            _ => 0,
        },
        _ => 0,
    }
}

fn assert_cursor_in_view(f: &Favs) {
    let len = active_view_len(f);
    assert!(len == 0 || f.cursor < len, "cursor {} out of view of length {}", f.cursor, len);
}

#[test]
fn space_moves_cursored_session() {
    let mut f = Favs::default();
    f.fav_sessions = vec![session("A", true, None, 0, 0), session("B", true, None, 0, 0)];
    f.flush_sessions = vec![session("C", true, None, 0, 0)];
    f.cursor = 0;
    f.mode = FavMode::NavigateFavs;
    let out = f.match_key(&BareKey::Char(' '));
    assert!(out.handled);
    assert_eq!(out.requests, vec![HostRequest::Persist]);
    assert_eq!(names(&f.fav_sessions), vec!["B".to_string()]);
    assert_eq!(names(&f.flush_sessions), vec!["C".to_string(), "A".to_string()]);
    assert_eq!(f.cursor, 0);
    assert_cursor_in_view(&f);
}

#[test]
fn space_on_empty_view_is_unhandled() {
    let mut f = Favs::default();
    f.mode = FavMode::NavigateFavs;
    let out = f.match_key(&BareKey::Char(' '));
    assert!(!out.handled);
    assert!(out.requests.is_empty());
}

#[test]
fn space_moves_last_entry_and_pulls_cursor_back() {
    let mut f = Favs::default();
    f.fav_sessions = vec![session("A", true, None, 0, 0), session("B", true, None, 0, 0)];
    f.cursor = 1;
    let out = f.match_key(&BareKey::Char(' '));
    assert!(out.handled);
    assert_eq!(names(&f.fav_sessions), vec!["A".to_string()]);
    assert_eq!(names(&f.flush_sessions), vec!["B".to_string()]);
    assert_eq!(f.cursor, 0);
    assert_cursor_in_view(&f);
}

#[test]
fn space_moves_the_cursored_filtered_entry() {
    let mut f = Favs::default();
    f.fav_sessions = vec![
        session("dev1", true, None, 0, 0),
        session("prod", true, None, 0, 0),
        session("dev2", true, None, 0, 0),
    ];
    f.filter = Some("dev".to_string());
    f.cursor = 1;
    let out = f.match_key(&BareKey::Char(' '));
    assert!(out.handled);
    assert_eq!(names(&f.fav_sessions), vec!["dev1".to_string(), "prod".to_string()]);
    assert_eq!(names(&f.flush_sessions), vec!["dev2".to_string()]);
    assert_eq!(f.cursor, 0);
    assert_cursor_in_view(&f);
}

#[test]
fn flush_key_kills_active_and_forgets_all_visible() {
    let mut f = Favs::default();
    f.flush_sessions = vec![session("X", true, None, 1, 1), session("Y", false, None, 0, 0)];
    let out = f.match_key(&BareKey::Char('f'));
    assert!(out.handled);
    assert_eq!(
        out.requests,
        vec![
            HostRequest::KillSessions(vec!["X".to_string()]),
            HostRequest::ForgetSession("X".to_string()),
            HostRequest::ForgetSession("Y".to_string()),
            HostRequest::Persist,
        ]
    );
    assert!(f.flush_sessions.is_empty());
}

#[test]
fn assign_number_from_flush_column() {
    let mut f = Favs::default();
    f.flush_sessions = vec![session("F0", true, None, 0, 0), session("F1", true, None, 0, 0)];
    f.mode = FavMode::NavigateFlush;
    f.cursor = 1;
    let out = f.match_key(&BareKey::Char('a'));
    assert!(out.handled);
    assert_eq!(f.mode, FavMode::AssignNumber);
    assert_eq!(f.current_column, Some(FavMode::NavigateFlush));
    let out = f.match_key(&BareKey::Char('3'));
    assert!(out.handled);
    assert_eq!(out.requests, vec![HostRequest::Persist]);
    assert_eq!(f.flush_sessions[1].assigned_number, Some(3));
    assert_eq!(f.mode, FavMode::NavigateFlush);
    assert_eq!(f.current_column, None);
}

#[test]
fn assign_number_steals_digit_from_other_session() {
    let mut f = Favs::default();
    f.fav_sessions = vec![session("A", true, Some(5), 0, 0)];
    f.flush_sessions = vec![session("B", true, None, 0, 0)];
    f.mode = FavMode::NavigateFlush;
    f.cursor = 0;
    f.match_key(&BareKey::Char('a'));
    f.match_key(&BareKey::Char('5'));
    assert_eq!(f.fav_sessions[0].assigned_number, None);
    assert_eq!(f.flush_sessions[0].assigned_number, Some(5));
}

#[test]
fn assign_escape_cancels() {
    let mut f = Favs::default();
    f.fav_sessions = vec![session("A", true, None, 0, 0)];
    f.match_key(&BareKey::Char('a'));
    assert_eq!(f.mode, FavMode::AssignNumber);
    let out = f.match_key(&BareKey::Esc);
    assert!(out.handled);
    assert_eq!(f.mode, FavMode::NavigateFavs);
    assert_eq!(f.current_column, None);
    assert_eq!(f.fav_sessions[0].assigned_number, None);
}

#[test]
fn cursor_moves_stay_in_bounds() {
    let mut f = Favs::default();
    f.fav_sessions = vec![
        session("A", true, None, 0, 0),
        session("B", true, None, 0, 0),
        session("C", true, None, 0, 0),
    ];
    f.flush_sessions = vec![session("D", true, None, 0, 0)];
    // down twice to the end, then stays
    f.match_key(&BareKey::Char('j'));
    assert_eq!(f.cursor, 1);
    f.match_key(&BareKey::Char('j'));
    assert_eq!(f.cursor, 2);
    f.match_key(&BareKey::Char('j'));
    assert_eq!(f.cursor, 2);
    assert_cursor_in_view(&f);
    // switching to the shorter flush column clamps
    f.match_key(&BareKey::Char('l'));
    assert_eq!(f.mode, FavMode::NavigateFlush);
    assert_eq!(f.cursor, 0);
    assert_cursor_in_view(&f);
    // up stops at the top
    f.match_key(&BareKey::Char('k'));
    assert_eq!(f.cursor, 0);
    assert_cursor_in_view(&f);
}

#[test]
fn arrow_keys_mirror_letters() {
    let mut f = Favs::default();
    f.fav_sessions = vec![session("A", true, None, 0, 0), session("B", true, None, 0, 0)];
    f.match_key(&BareKey::Down);
    assert_eq!(f.cursor, 1);
    f.match_key(&BareKey::Up);
    assert_eq!(f.cursor, 0);
    f.match_key(&BareKey::Right);
    assert_eq!(f.mode, FavMode::NavigateFlush);
    f.match_key(&BareKey::Left);
    assert_eq!(f.mode, FavMode::NavigateFavs);
}

#[test]
fn tab_switches_column_and_resets_cursor() {
    let mut f = Favs::default();
    f.fav_sessions = vec![session("A", true, None, 0, 0), session("B", true, None, 0, 0)];
    f.cursor = 1;
    f.match_key(&BareKey::Tab);
    assert_eq!(f.mode, FavMode::NavigateFlush);
    assert_eq!(f.cursor, 0);
    f.match_key(&BareKey::Tab);
    assert_eq!(f.mode, FavMode::NavigateFavs);
    assert_eq!(f.cursor, 0);
}

#[test]
fn enter_requests_switch_and_close() {
    let mut f = Favs::default();
    f.fav_sessions = vec![session("work", true, None, 0, 0)];
    let out = f.match_key(&BareKey::Enter);
    assert!(out.handled);
    assert_eq!(
        out.requests,
        vec![HostRequest::SwitchSession("work".to_string()), HostRequest::CloseSelf]
    );
    assert_eq!(names(&f.fav_sessions), vec!["work".to_string()]);
}

#[test]
fn enter_on_empty_view_is_unhandled() {
    let mut f = Favs::default();
    let out = f.match_key(&BareKey::Enter);
    assert!(!out.handled);
    assert!(out.requests.is_empty());
}

#[test]
fn escape_requests_close() {
    let mut f = Favs::default();
    let out = f.match_key(&BareKey::Esc);
    assert!(out.handled);
    assert_eq!(out.requests, vec![HostRequest::CloseSelf]);
    let out = f.match_key(&BareKey::Char('q'));
    assert_eq!(out.requests, vec![HostRequest::CloseSelf]);
}

#[test]
fn filter_typing_and_commit() {
    let mut f = Favs::default();
    f.fav_sessions = vec![session("dev", true, None, 0, 0), session("prod", true, None, 0, 0)];
    f.cursor = 1;
    let out = f.match_key(&BareKey::Char('/'));
    assert!(out.handled);
    assert_eq!(f.mode, FavMode::Filter);
    assert_eq!(f.filter, Some(String::new()));
    f.match_key(&BareKey::Char('d'));
    f.match_key(&BareKey::Char('e'));
    assert_eq!(f.filter, Some("de".to_string()));
    let out = f.match_key(&BareKey::Enter);
    assert!(out.handled);
    assert_eq!(f.mode, FavMode::NavigateFavs);
    assert_eq!(f.cursor, 0);
    assert_eq!(f.filter, Some("de".to_string()));
    let (kept, _) = f.get_filtered_sessions();
    assert_eq!(names(&kept), vec!["dev".to_string()]);
}

#[test]
fn filter_backspace_removes_last_character() {
    let mut f = Favs::default();
    f.match_key(&BareKey::Char('/'));
    f.match_key(&BareKey::Char('a'));
    f.match_key(&BareKey::Char('b'));
    f.match_key(&BareKey::Backspace);
    assert_eq!(f.filter, Some("a".to_string()));
    f.match_key(&BareKey::Backspace);
    f.match_key(&BareKey::Backspace);
    assert_eq!(f.filter, Some(String::new()));
}

#[test]
fn filter_tab_commits_to_flush_column() {
    let mut f = Favs::default();
    f.flush_sessions = vec![session("x", true, None, 0, 0)];
    f.match_key(&BareKey::Char('/'));
    f.match_key(&BareKey::Char('x'));
    f.match_key(&BareKey::Tab);
    assert_eq!(f.mode, FavMode::NavigateFlush);
    assert_eq!(f.cursor, 0);
    assert_eq!(f.filter, Some("x".to_string()));
}

#[test]
fn filter_escape_discards_filter() {
    let mut f = Favs::default();
    f.fav_sessions = vec![session("a", true, None, 0, 0)];
    f.match_key(&BareKey::Char('/'));
    f.match_key(&BareKey::Char('z'));
    f.match_key(&BareKey::Esc);
    assert_eq!(f.mode, FavMode::NavigateFavs);
    assert_eq!(f.filter, None);
    assert_cursor_in_view(&f);
}

#[test]
fn help_opens_and_closes() {
    let mut f = Favs::default();
    f.fav_sessions = vec![session("a", true, None, 0, 0)];
    let out = f.match_key(&BareKey::Char('?'));
    assert!(out.handled);
    assert_eq!(f.mode, FavMode::Help);
    let out = f.match_key(&BareKey::Char('x'));
    assert!(!out.handled);
    let out = f.match_key(&BareKey::Char('q'));
    assert!(out.handled);
    assert_eq!(f.mode, FavMode::NavigateFavs);
    assert_cursor_in_view(&f);
}

#[test]
fn unknown_keys_are_unhandled() {
    let mut f = Favs::default();
    let out = f.match_key(&BareKey::Char('z'));
    assert!(!out.handled);
    let out = f.match_key(&BareKey::Other);
    assert!(!out.handled);
    let out = f.match_key(&BareKey::Backspace);
    assert!(!out.handled);
}
