//! Keystroke handling for the two navigation columns.
use vstd::prelude::*;

use crate::favs::{clamped, clamp_to, Favs};
use crate::favs_mode::FavMode;
use crate::host::{BareKey, HostRequest, KeyOutcome, RequestView};
use crate::sessions::{
    active_names, count_filtered, filtered_views, lemma_active_names_take_step,
    lemma_filtered_remove_at, lemma_swap_props, lemma_transfer_props, nth_filtered_index,
    transfer_at, unmatched_views,
};
use crate::text_match::matches_filter;
use crate::SessionView;

verus! {

/// A keystroke the navigation modes do not recognize: nothing changes and
/// the host is told the key was not handled.
pub open spec fn nav_ignored(pre: Favs, post: Favs, out: KeyOutcome) -> bool {
    &&& post == pre
    &&& !out.handled
    &&& out.requests.deep_view() == Seq::<RequestView>::empty()
}

/// The store, overlay and column bookkeeping are untouched; only mode and
/// cursor may move.
pub open spec fn nav_frame(pre: Favs, post: Favs) -> bool {
    &&& Favs::same_store(pre, post)
    &&& post.current_column == pre.current_column
    &&& post.filter == pre.filter
    &&& post.has_loaded == pre.has_loaded
    &&& post.cache_dir == pre.cache_dir
}

/// Switch to the given column, clamping the cursor into its filtered view.
pub open spec fn nav_go_column(pre: Favs, post: Favs, out: KeyOutcome, column: FavMode) -> bool {
    let view = if column == FavMode::NavigateFavs {
        filtered_views(pre.kept_views(), pre.filter_view())
    } else {
        filtered_views(pre.flush_views(), pre.filter_view())
    };
    &&& nav_frame(pre, post)
    &&& post.mode == column
    &&& post.cursor as int == clamped(pre.cursor as int, view.len() as int)
    &&& out.handled
    &&& out.requests.deep_view() == Seq::<RequestView>::empty()
}

/// Move the cursor one row up, stopping at the top.
pub open spec fn nav_cursor_up(pre: Favs, post: Favs, out: KeyOutcome) -> bool {
    &&& nav_frame(pre, post)
    &&& post.mode == pre.mode
    &&& post.cursor as int == if pre.cursor > 0 {
        pre.cursor - 1
    } else {
        0int
    }
    &&& out.handled
    &&& out.requests.deep_view() == Seq::<RequestView>::empty()
}

/// Move the cursor one row down, stopping at the last entry of the active
/// filtered view.
pub open spec fn nav_cursor_down(pre: Favs, post: Favs, out: KeyOutcome) -> bool {
    let active = if pre.mode == FavMode::NavigateFavs {
        filtered_views(pre.kept_views(), pre.filter_view())
    } else {
        filtered_views(pre.flush_views(), pre.filter_view())
    };
    &&& nav_frame(pre, post)
    &&& post.mode == pre.mode
    &&& post.cursor as int == if pre.cursor + 1 < active.len() {
        pre.cursor + 1
    } else {
        pre.cursor as int
    }
    &&& out.handled
    &&& out.requests.deep_view() == Seq::<RequestView>::empty()
}

/// Jump to the other column, resetting the cursor to the top.
pub open spec fn nav_tab_switch(pre: Favs, post: Favs, out: KeyOutcome) -> bool {
    &&& nav_frame(pre, post)
    &&& post.mode == if pre.mode == FavMode::NavigateFavs {
        FavMode::NavigateFlush
    } else {
        FavMode::NavigateFavs
    }
    &&& post.cursor == 0
    &&& out.handled
    &&& out.requests.deep_view() == Seq::<RequestView>::empty()
}

/// Open the filter overlay with an empty filter.
pub open spec fn nav_enter_filter(pre: Favs, post: Favs, out: KeyOutcome) -> bool {
    &&& Favs::same_store(pre, post)
    &&& post.mode == FavMode::Filter
    &&& post.filter.deep_view() == Some(Seq::<char>::empty())
    &&& post.cursor == pre.cursor
    &&& post.current_column == pre.current_column
    &&& post.has_loaded == pre.has_loaded
    &&& post.cache_dir == pre.cache_dir
    &&& out.handled
    &&& out.requests.deep_view() == Seq::<RequestView>::empty()
}

/// Open the quick-number overlay, remembering the column to come back to.
pub open spec fn nav_enter_assign(pre: Favs, post: Favs, out: KeyOutcome) -> bool {
    &&& Favs::same_store(pre, post)
    &&& post.mode == FavMode::AssignNumber
    &&& post.current_column == Some(pre.mode)
    &&& post.cursor == pre.cursor
    &&& post.filter == pre.filter
    &&& post.has_loaded == pre.has_loaded
    &&& post.cache_dir == pre.cache_dir
    &&& out.handled
    &&& out.requests.deep_view() == Seq::<RequestView>::empty()
}

/// Open the help screen.
pub open spec fn nav_enter_help(pre: Favs, post: Favs, out: KeyOutcome) -> bool {
    &&& nav_frame(pre, post)
    &&& post.mode == FavMode::Help
    &&& post.cursor == pre.cursor
    &&& out.handled
    &&& out.requests.deep_view() == Seq::<RequestView>::empty()
}

/// Ask the host to close this instance; nothing else changes.
pub open spec fn nav_close(pre: Favs, post: Favs, out: KeyOutcome) -> bool {
    &&& post == pre
    &&& out.handled
    &&& out.requests.deep_view() == seq![RequestView::CloseSelf]
}

/// Switch to the cursored session and close; with an empty view the key is
/// reported unhandled.
pub open spec fn nav_open_session(pre: Favs, post: Favs, out: KeyOutcome) -> bool {
    let active = if pre.mode == FavMode::NavigateFavs {
        filtered_views(pre.kept_views(), pre.filter_view())
    } else {
        filtered_views(pre.flush_views(), pre.filter_view())
    };
    if pre.cursor < active.len() {
        &&& post == pre
        &&& out.handled
        &&& out.requests.deep_view() == seq![
            RequestView::SwitchSession(active[pre.cursor as int].name),
            RequestView::CloseSelf,
        ]
    } else {
        nav_ignored(pre, post, out)
    }
}

/// The `k`-th entry of `from`'s filtered view left `from` and was
/// appended to the other bucket.
pub open spec fn moves_nth_match(
    from: Seq<SessionView>,
    to: Seq<SessionView>,
    post_from: Seq<SessionView>,
    post_to: Seq<SessionView>,
    f: Option<Seq<char>>,
    k: int,
) -> bool {
    exists|u: int|
        {
            &&& 0 <= u < from.len()
            &&& matches_filter(#[trigger] from[u].name, f)
            &&& filtered_views(from.take(u), f).len() == k
            &&& post_from == from.remove(u)
            &&& post_to == to.push(from[u])
        }
}

/// Move the cursored session of the active filtered view to the other
/// bucket; with an empty view the key is reported unhandled.
pub open spec fn nav_move_cursored(pre: Favs, post: Favs, out: KeyOutcome) -> bool {
    let in_kept = pre.mode == FavMode::NavigateFavs;
    let active = if in_kept {
        filtered_views(pre.kept_views(), pre.filter_view())
    } else {
        filtered_views(pre.flush_views(), pre.filter_view())
    };
    if pre.cursor < active.len() {
        &&& (if in_kept {
            moves_nth_match(
                pre.kept_views(),
                pre.flush_views(),
                post.kept_views(),
                post.flush_views(),
                pre.filter_view(),
                pre.cursor as int,
            )
        } else {
            moves_nth_match(
                pre.flush_views(),
                pre.kept_views(),
                post.flush_views(),
                post.kept_views(),
                pre.filter_view(),
                pre.cursor as int,
            )
        })
        &&& post.cursor as int == clamped(pre.cursor as int, active.len() - 1)
        &&& post.mode == pre.mode
        &&& post.current_column == pre.current_column
        &&& post.filter == pre.filter
        &&& post.has_loaded == pre.has_loaded
        &&& post.cache_dir == pre.cache_dir
        &&& out.handled
        &&& out.requests.deep_view() == seq![RequestView::Persist]
    } else {
        nav_ignored(pre, post, out)
    }
}

/// One forget request for each entry of a run, in order.
pub open spec fn forget_requests(s: Seq<SessionView>) -> Seq<RequestView> {
    s.map_values(|x: SessionView| RequestView::ForgetSession(x.name))
}

/// Bulk-delete the visible flush entries: ask the host to kill the active
/// ones, forget every removed one, and persist; the kept bucket and the
/// flush entries hidden by the filter stay.
pub open spec fn nav_flush_all(pre: Favs, post: Favs, out: KeyOutcome) -> bool {
    let visible = filtered_views(pre.flush_views(), pre.filter_view());
    &&& post.fav_sessions == pre.fav_sessions
    &&& post.flush_views() == unmatched_views(pre.flush_views(), pre.filter_view())
    &&& post.mode == pre.mode
    &&& post.cursor == pre.cursor
    &&& post.current_column == pre.current_column
    &&& post.filter == pre.filter
    &&& post.has_loaded == pre.has_loaded
    &&& post.cache_dir == pre.cache_dir
    &&& out.handled
    &&& out.requests.deep_view() == seq![RequestView::KillSessions(active_names(visible))]
        + forget_requests(visible) + seq![RequestView::Persist]
}

/// What a printable character does in the navigation modes.
pub open spec fn navigation_char_effect(pre: Favs, c: char, post: Favs, out: KeyOutcome) -> bool {
    if c == 'h' {
        nav_go_column(pre, post, out, FavMode::NavigateFavs)
    } else if c == 'l' {
        nav_go_column(pre, post, out, FavMode::NavigateFlush)
    } else if c == 'k' {
        nav_cursor_up(pre, post, out)
    } else if c == 'j' {
        nav_cursor_down(pre, post, out)
    } else if c == 'f' {
        nav_flush_all(pre, post, out)
    } else if c == '/' {
        nav_enter_filter(pre, post, out)
    } else if c == ' ' {
        nav_move_cursored(pre, post, out)
    } else if c == 'a' {
        nav_enter_assign(pre, post, out)
    } else if c == '?' {
        nav_enter_help(pre, post, out)
    } else if c == 'q' {
        nav_close(pre, post, out)
    } else {
        nav_ignored(pre, post, out)
    }
}

/// What one keystroke does in the navigation modes.
pub open spec fn navigation_effect(pre: Favs, key: BareKey, post: Favs, out: KeyOutcome) -> bool {
    match key {
        BareKey::Left => nav_go_column(pre, post, out, FavMode::NavigateFavs),
        BareKey::Right => nav_go_column(pre, post, out, FavMode::NavigateFlush),
        BareKey::Up => nav_cursor_up(pre, post, out),
        BareKey::Down => nav_cursor_down(pre, post, out),
        BareKey::Tab => nav_tab_switch(pre, post, out),
        BareKey::Enter => nav_open_session(pre, post, out),
        BareKey::Esc => nav_close(pre, post, out),
        BareKey::Char(c) => navigation_char_effect(pre, c, post, out),
        _ => nav_ignored(pre, post, out),
    }
}

/// Switch to the kept column, clamping the cursor.
fn go_kept_column(ctx: &mut Favs) -> (out: KeyOutcome)
    ensures
        nav_go_column(*old(ctx), *final(ctx), out, FavMode::NavigateFavs),
        (old(ctx).wf() && (old(ctx).mode == FavMode::NavigateFavs || old(ctx).mode
            == FavMode::NavigateFlush)) ==> final(ctx).wf(),
{
    let len = count_filtered(&ctx.fav_sessions, &ctx.filter);
    ctx.mode = FavMode::NavigateFavs;
    ctx.cursor = clamp_to(ctx.cursor, len);
    KeyOutcome::handled()
}

/// Switch to the flush column, clamping the cursor.
fn go_flush_column(ctx: &mut Favs) -> (out: KeyOutcome)
    ensures
        nav_go_column(*old(ctx), *final(ctx), out, FavMode::NavigateFlush),
        (old(ctx).wf() && (old(ctx).mode == FavMode::NavigateFavs || old(ctx).mode
            == FavMode::NavigateFlush)) ==> final(ctx).wf(),
{
    let len = count_filtered(&ctx.flush_sessions, &ctx.filter);
    ctx.mode = FavMode::NavigateFlush;
    ctx.cursor = clamp_to(ctx.cursor, len);
    KeyOutcome::handled()
}

/// One row up.
fn cursor_up_step(ctx: &mut Favs) -> (out: KeyOutcome)
    ensures
        nav_cursor_up(*old(ctx), *final(ctx), out),
        (old(ctx).wf() && (old(ctx).mode == FavMode::NavigateFavs || old(ctx).mode
            == FavMode::NavigateFlush)) ==> final(ctx).wf(),
{
    if ctx.cursor > 0 {
        ctx.cursor = ctx.cursor - 1;
    }
    KeyOutcome::handled()
}

/// One row down, stopping at the last visible entry.
fn cursor_down_step(ctx: &mut Favs) -> (out: KeyOutcome)
    ensures
        nav_cursor_down(*old(ctx), *final(ctx), out),
        (old(ctx).wf() && (old(ctx).mode == FavMode::NavigateFavs || old(ctx).mode
            == FavMode::NavigateFlush)) ==> final(ctx).wf(),
{
    let len = if ctx.mode == FavMode::NavigateFavs {
        count_filtered(&ctx.fav_sessions, &ctx.filter)
    } else {
        count_filtered(&ctx.flush_sessions, &ctx.filter)
    };
    if len > 0 && ctx.cursor < len - 1 {
        ctx.cursor = ctx.cursor + 1;
    }
    KeyOutcome::handled()
}

/// Jump to the other column, cursor to the top.
fn tab_switch_column(ctx: &mut Favs) -> (out: KeyOutcome)
    ensures
        nav_tab_switch(*old(ctx), *final(ctx), out),
        (old(ctx).wf() && (old(ctx).mode == FavMode::NavigateFavs || old(ctx).mode
            == FavMode::NavigateFlush)) ==> final(ctx).wf(),
{
    if ctx.mode == FavMode::NavigateFavs {
        ctx.mode = FavMode::NavigateFlush;
    } else {
        ctx.mode = FavMode::NavigateFavs;
    }
    ctx.cursor = 0;
    KeyOutcome::handled()
}

/// A lone close request for the host.
fn close_request_outcome() -> (out: KeyOutcome)
    ensures
        out.handled,
        out.requests.deep_view() == seq![RequestView::CloseSelf],
{
    let mut requests: Vec<HostRequest> = Vec::new();
    requests.push(HostRequest::CloseSelf);
    proof {
        assert(requests.deep_view() =~= seq![RequestView::CloseSelf]);
    }
    KeyOutcome { handled: true, requests }
}

/// Open the filter overlay.
fn open_filter(ctx: &mut Favs) -> (out: KeyOutcome)
    ensures
        nav_enter_filter(*old(ctx), *final(ctx), out),
        (old(ctx).wf() && (old(ctx).mode == FavMode::NavigateFavs || old(ctx).mode
            == FavMode::NavigateFlush)) ==> final(ctx).wf(),
{
    ctx.mode = FavMode::Filter;
    ctx.filter = Some(String::new());
    KeyOutcome::handled()
}

/// Open the quick-number overlay.
fn open_assign(ctx: &mut Favs) -> (out: KeyOutcome)
    ensures
        nav_enter_assign(*old(ctx), *final(ctx), out),
        (old(ctx).wf() && (old(ctx).mode == FavMode::NavigateFavs || old(ctx).mode
            == FavMode::NavigateFlush)) ==> final(ctx).wf(),
{
    ctx.current_column = Some(ctx.mode);
    ctx.mode = FavMode::AssignNumber;
    KeyOutcome::handled()
}

/// Open the help screen.
fn open_help(ctx: &mut Favs) -> (out: KeyOutcome)
    ensures
        nav_enter_help(*old(ctx), *final(ctx), out),
        (old(ctx).wf() && (old(ctx).mode == FavMode::NavigateFavs || old(ctx).mode
            == FavMode::NavigateFlush)) ==> final(ctx).wf(),
{
    ctx.mode = FavMode::Help;
    KeyOutcome::handled()
}

/// Bulk-delete the visible flush entries and collect the host requests.
fn flush_visible(ctx: &mut Favs) -> (out: KeyOutcome)
    ensures
        nav_flush_all(*old(ctx), *final(ctx), out),
        (old(ctx).wf() && (old(ctx).mode == FavMode::NavigateFavs || old(ctx).mode
            == FavMode::NavigateFlush)) ==> final(ctx).wf(),
{
    let ghost pre = *ctx;
    let removed = ctx.purge_flush();
    let ghost visible = filtered_views(pre.flush_views(), pre.filter_view());
    let mut kills: Vec<String> = Vec::new();
    let mut i: usize = 0;
    while i < removed.len()
        invariant
            i <= removed.len(),
            removed.deep_view() == visible,
            removed.len() == visible.len(),
            kills.deep_view() == active_names(visible.take(i as int)),
        decreases removed.len() - i,
    {
        proof {
            lemma_active_names_take_step(visible, i as int);
        }
        if removed[i].is_active {
            kills.push(removed[i].name.clone());
            proof {
                assert(kills.deep_view() =~= active_names(visible.take(i + 1)));
            }
        }
        i = i + 1;
    }
    proof {
        assert(visible.take(visible.len() as int) =~= visible);
    }
    let mut requests: Vec<HostRequest> = Vec::new();
    requests.push(HostRequest::KillSessions(kills));
    let mut j: usize = 0;
    while j < removed.len()
        invariant
            j <= removed.len(),
            removed.deep_view() == visible,
            removed.len() == visible.len(),
            requests.deep_view() == seq![RequestView::KillSessions(active_names(visible))]
                + forget_requests(visible.take(j as int)),
        decreases removed.len() - j,
    {
        let ghost prev = requests.deep_view();
        requests.push(HostRequest::ForgetSession(removed[j].name.clone()));
        proof {
            assert(requests.deep_view() =~= prev.push(
                RequestView::ForgetSession(visible[j as int].name),
            ));
            assert(prev.push(RequestView::ForgetSession(visible[j as int].name)) =~= seq![
                RequestView::KillSessions(active_names(visible)),
            ] + forget_requests(visible.take(j + 1)));
        }
        j = j + 1;
    }
    requests.push(HostRequest::Persist);
    proof {
        assert(visible.take(visible.len() as int) =~= visible);
        assert(requests.deep_view() =~= seq![RequestView::KillSessions(active_names(visible))]
            + forget_requests(visible) + seq![RequestView::Persist]);
    }
    KeyOutcome { handled: true, requests }
}

/// Move the cursored visible session to the other bucket.
#[verifier::spinoff_prover]
#[verifier::rlimit(60)]
fn move_cursored(ctx: &mut Favs) -> (out: KeyOutcome)
    ensures
        nav_move_cursored(*old(ctx), *final(ctx), out),
        (old(ctx).wf() && (old(ctx).mode == FavMode::NavigateFavs || old(ctx).mode
            == FavMode::NavigateFlush)) ==> final(ctx).wf(),
{
    let ghost pre = *ctx;
    if ctx.mode == FavMode::NavigateFavs {
        match nth_filtered_index(&ctx.fav_sessions, &ctx.filter, ctx.cursor) {
            None => KeyOutcome::unhandled(),
            Some(u) => {
                proof {
                    lemma_filtered_remove_at(
                        pre.kept_views(),
                        pre.filter_view(),
                        u as int,
                        pre.cursor as int,
                    );
                }
                transfer_at(&mut ctx.fav_sessions, &mut ctx.flush_sessions, u);
                let len = count_filtered(&ctx.fav_sessions, &ctx.filter);
                ctx.cursor = clamp_to(ctx.cursor, len);
                proof {
                    if pre.wf() {
                        lemma_transfer_props(pre.kept_views(), pre.flush_views(), u as int);
                    }
                    let w = u as int;
                    assert(0 <= w < pre.kept_views().len());
                    assert(matches_filter(pre.kept_views()[w].name, pre.filter_view()));
                    assert(filtered_views(pre.kept_views().take(w), pre.filter_view()).len()
                        == pre.cursor);
                    assert(pre.kept_views()[w] == filtered_views(
                        pre.kept_views(),
                        pre.filter_view(),
                    )[pre.cursor as int]);
                    assert(ctx.kept_views() == pre.kept_views().remove(w));
                    assert(ctx.flush_views() == pre.flush_views().push(pre.kept_views()[w]));
                }
                let mut requests: Vec<HostRequest> = Vec::new();
                requests.push(HostRequest::Persist);
                proof {
                    assert(requests.deep_view() =~= seq![RequestView::Persist]);
                }
                KeyOutcome { handled: true, requests }
            },
        }
    } else {
        match nth_filtered_index(&ctx.flush_sessions, &ctx.filter, ctx.cursor) {
            None => KeyOutcome::unhandled(),
            Some(u) => {
                proof {
                    lemma_filtered_remove_at(
                        pre.flush_views(),
                        pre.filter_view(),
                        u as int,
                        pre.cursor as int,
                    );
                }
                transfer_at(&mut ctx.flush_sessions, &mut ctx.fav_sessions, u);
                let len = count_filtered(&ctx.flush_sessions, &ctx.filter);
                ctx.cursor = clamp_to(ctx.cursor, len);
                proof {
                    if pre.wf() {
                        lemma_swap_props(pre.kept_views(), pre.flush_views());
                        lemma_transfer_props(pre.flush_views(), pre.kept_views(), u as int);
                        lemma_swap_props(
                            pre.flush_views().remove(u as int),
                            pre.kept_views().push(pre.flush_views()[u as int]),
                        );
                    }
                    let w = u as int;
                    assert(0 <= w < pre.flush_views().len());
                    assert(matches_filter(pre.flush_views()[w].name, pre.filter_view()));
                    assert(filtered_views(pre.flush_views().take(w), pre.filter_view()).len()
                        == pre.cursor);
                    assert(pre.flush_views()[w] == filtered_views(
                        pre.flush_views(),
                        pre.filter_view(),
                    )[pre.cursor as int]);
                    assert(ctx.flush_views() == pre.flush_views().remove(w));
                    assert(ctx.kept_views() == pre.kept_views().push(pre.flush_views()[w]));
                }
                let mut requests: Vec<HostRequest> = Vec::new();
                requests.push(HostRequest::Persist);
                proof {
                    assert(requests.deep_view() =~= seq![RequestView::Persist]);
                }
                KeyOutcome { handled: true, requests }
            },
        }
    }
}

/// Switch to the cursored visible session and ask the host to close.
fn open_cursored(ctx: &mut Favs) -> (out: KeyOutcome)
    ensures
        nav_open_session(*old(ctx), *final(ctx), out),
        (old(ctx).wf() && (old(ctx).mode == FavMode::NavigateFavs || old(ctx).mode
            == FavMode::NavigateFlush)) ==> final(ctx).wf(),
{
    let ghost pre = *ctx;
    if ctx.mode == FavMode::NavigateFavs {
        match nth_filtered_index(&ctx.fav_sessions, &ctx.filter, ctx.cursor) {
            None => KeyOutcome::unhandled(),
            Some(u) => {
                proof {
                    lemma_filtered_remove_at(
                        pre.kept_views(),
                        pre.filter_view(),
                        u as int,
                        pre.cursor as int,
                    );
                }
                let name = ctx.fav_sessions[u].name.clone();
                let mut requests: Vec<HostRequest> = Vec::new();
                requests.push(HostRequest::SwitchSession(name));
                requests.push(HostRequest::CloseSelf);
                proof {
                    assert(requests.deep_view() =~= seq![
                        RequestView::SwitchSession(
                            filtered_views(pre.kept_views(), pre.filter_view())[
                                pre.cursor as int
                            ].name,
                        ),
                        RequestView::CloseSelf,
                    ]);
                }
                KeyOutcome { handled: true, requests }
            },
        }
    } else {
        match nth_filtered_index(&ctx.flush_sessions, &ctx.filter, ctx.cursor) {
            None => KeyOutcome::unhandled(),
            Some(u) => {
                proof {
                    lemma_filtered_remove_at(
                        pre.flush_views(),
                        pre.filter_view(),
                        u as int,
                        pre.cursor as int,
                    );
                }
                let name = ctx.flush_sessions[u].name.clone();
                let mut requests: Vec<HostRequest> = Vec::new();
                requests.push(HostRequest::SwitchSession(name));
                requests.push(HostRequest::CloseSelf);
                proof {
                    assert(requests.deep_view() =~= seq![
                        RequestView::SwitchSession(
                            filtered_views(pre.flush_views(), pre.filter_view())[
                                pre.cursor as int
                            ].name,
                        ),
                        RequestView::CloseSelf,
                    ]);
                }
                KeyOutcome { handled: true, requests }
            },
        }
    }
}

/// Interpret one keystroke while navigating the kept or flush column.
pub fn match_navigation_keys(ctx: &mut Favs, key: &BareKey) -> (out: KeyOutcome)
    ensures
        navigation_effect(*old(ctx), *key, *final(ctx), out),
        (old(ctx).wf() && (old(ctx).mode == FavMode::NavigateFavs || old(ctx).mode
            == FavMode::NavigateFlush)) ==> final(ctx).wf(),
{
    match key {
        BareKey::Left => go_kept_column(ctx),
        BareKey::Right => go_flush_column(ctx),
        BareKey::Up => cursor_up_step(ctx),
        BareKey::Down => cursor_down_step(ctx),
        BareKey::Tab => tab_switch_column(ctx),
        BareKey::Enter => open_cursored(ctx),
        BareKey::Esc => close_request_outcome(),
        BareKey::Char(c) => {
            let ch = *c;
            if ch == 'h' {
                go_kept_column(ctx)
            } else if ch == 'l' {
                go_flush_column(ctx)
            } else if ch == 'k' {
                cursor_up_step(ctx)
            } else if ch == 'j' {
                cursor_down_step(ctx)
            } else if ch == 'f' {
                flush_visible(ctx)
            } else if ch == '/' {
                open_filter(ctx)
            } else if ch == ' ' {
                move_cursored(ctx)
            } else if ch == 'a' {
                open_assign(ctx)
            } else if ch == '?' {
                open_help(ctx)
            } else if ch == 'q' {
                close_request_outcome()
            } else {
                KeyOutcome::unhandled()
            }
        },
        _ => KeyOutcome::unhandled(),
    }
}

} // verus!
