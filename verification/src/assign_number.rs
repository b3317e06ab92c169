//! Keystroke handling for the quick-access-number overlay.
use vstd::prelude::*;

use crate::favs::Favs;
use crate::favs_mode::FavMode;
use crate::host::{BareKey, HostRequest, KeyOutcome, RequestView};
use crate::sessions::{
    cleared_digit, clear_digit_in, clone_session, filtered_views, lemma_filtered_remove_at,
    lemma_same_names_filtered_len, nth_filtered_index,
};
use crate::text_match::matches_filter;
use crate::SessionView;

verus! {

/// The numeric value of an ASCII digit key.
pub open spec fn digit_of(c: char) -> u8 {
    ((c as u32) - ('0' as u32)) as u8
}

/// The digit `d` was cleared everywhere and handed to the `k`-th entry of
/// `from`'s filtered view; with too short a view only the clearing
/// happened. The other bucket is cleared either way.
pub open spec fn assigns_nth_match(
    from: Seq<SessionView>,
    post_from: Seq<SessionView>,
    other: Seq<SessionView>,
    post_other: Seq<SessionView>,
    f: Option<Seq<char>>,
    k: int,
    d: u8,
) -> bool {
    &&& post_other == cleared_digit(other, d)
    &&& if k < filtered_views(from, f).len() {
        exists|u: int|
            {
                &&& 0 <= u < from.len()
                &&& matches_filter(#[trigger] from[u].name, f)
                &&& filtered_views(from.take(u), f).len() == k
                &&& post_from == cleared_digit(from, d).update(
                    u,
                    SessionView { assigned_number: Some(d), ..cleared_digit(from, d)[u] },
                )
            }
    } else {
        post_from == cleared_digit(from, d)
    }
}

/// Pressing a digit: clear it everywhere, give it to the cursored entry of
/// the saved column's filtered view, return to that column, and persist.
pub open spec fn assign_digit_effect(pre: Favs, d: u8, post: Favs, out: KeyOutcome) -> bool {
    &&& if pre.current_column == Some(FavMode::NavigateFavs) {
        assigns_nth_match(
            pre.kept_views(),
            post.kept_views(),
            pre.flush_views(),
            post.flush_views(),
            pre.filter_view(),
            pre.cursor as int,
            d,
        )
    } else if pre.current_column == Some(FavMode::NavigateFlush) {
        assigns_nth_match(
            pre.flush_views(),
            post.flush_views(),
            pre.kept_views(),
            post.kept_views(),
            pre.filter_view(),
            pre.cursor as int,
            d,
        )
    } else {
        post.kept_views() == cleared_digit(pre.kept_views(), d) && post.flush_views()
            == cleared_digit(pre.flush_views(), d)
    }
    &&& Some(post.mode) == pre.current_column
    &&& post.current_column is None
    &&& post.cursor == pre.cursor
    &&& post.filter == pre.filter
    &&& post.has_loaded == pre.has_loaded
    &&& post.cache_dir == pre.cache_dir
    &&& out.handled
    &&& out.requests.deep_view() == seq![RequestView::Persist]
}

/// What one keystroke does in the quick-number overlay: a digit assigns,
/// escape cancels back to the saved column, anything else is unhandled.
/// Without a saved column the key is swallowed.
pub open spec fn assign_effect(pre: Favs, key: BareKey, post: Favs, out: KeyOutcome) -> bool {
    match pre.current_column {
        None => {
            &&& post == pre
            &&& out.handled
            &&& out.requests.deep_view() == Seq::<RequestView>::empty()
        },
        Some(column) => match key {
            BareKey::Char(c) => {
                if '0' <= c && c <= '9' {
                    assign_digit_effect(pre, digit_of(c), post, out)
                } else {
                    &&& post == pre
                    &&& !out.handled
                    &&& out.requests.deep_view() == Seq::<RequestView>::empty()
                }
            },
            BareKey::Esc => {
                &&& Favs::same_store(pre, post)
                &&& post.mode == column
                &&& post.current_column is None
                &&& post.cursor == pre.cursor
                &&& post.filter == pre.filter
                &&& post.has_loaded == pre.has_loaded
                &&& post.cache_dir == pre.cache_dir
                &&& out.handled
                &&& out.requests.deep_view() == Seq::<RequestView>::empty()
            },
            _ => {
                &&& post == pre
                &&& !out.handled
                &&& out.requests.deep_view() == Seq::<RequestView>::empty()
            },
        },
    }
}

/// Clear `digit` everywhere and give it to the entry at underlying index
/// `u` of the kept bucket.
fn assign_digit_at_kept(ctx: &mut Favs, digit: u8, u: usize)
    requires
        u < old(ctx).fav_sessions.deep_view().len(),
    ensures
        final(ctx).kept_views() == cleared_digit(old(ctx).kept_views(), digit).update(
            u as int,
            SessionView {
                assigned_number: Some(digit),
                ..cleared_digit(old(ctx).kept_views(), digit)[u as int]
            },
        ),
        final(ctx).flush_views() == cleared_digit(old(ctx).flush_views(), digit),
        final(ctx).cursor == old(ctx).cursor,
        final(ctx).mode == old(ctx).mode,
        final(ctx).current_column == old(ctx).current_column,
        final(ctx).filter == old(ctx).filter,
        final(ctx).has_loaded == old(ctx).has_loaded,
        final(ctx).cache_dir == old(ctx).cache_dir,
{
    let ghost pre = *ctx;
    clear_digit_in(&mut ctx.fav_sessions, digit);
    clear_digit_in(&mut ctx.flush_sessions, digit);
    proof {
        assert(ctx.fav_sessions@.len() == ctx.fav_sessions.deep_view().len());
        assert(ctx.fav_sessions.deep_view().len() == pre.kept_views().len());
    }
    let mut x = clone_session(&ctx.fav_sessions[u]);
    x.assigned_number = Some(digit);
    ctx.fav_sessions.set(u, x);
    proof {
        let ghost ck = cleared_digit(pre.kept_views(), digit);
        assert(ctx.kept_views() =~= ck.update(
            u as int,
            SessionView { assigned_number: Some(digit), ..ck[u as int] },
        ));
    }
}

/// Clear `digit` everywhere and give it to the entry at underlying index
/// `u` of the flush bucket.
fn assign_digit_at_flush(ctx: &mut Favs, digit: u8, u: usize)
    requires
        u < old(ctx).flush_sessions.deep_view().len(),
    ensures
        final(ctx).flush_views() == cleared_digit(old(ctx).flush_views(), digit).update(
            u as int,
            SessionView {
                assigned_number: Some(digit),
                ..cleared_digit(old(ctx).flush_views(), digit)[u as int]
            },
        ),
        final(ctx).kept_views() == cleared_digit(old(ctx).kept_views(), digit),
        final(ctx).cursor == old(ctx).cursor,
        final(ctx).mode == old(ctx).mode,
        final(ctx).current_column == old(ctx).current_column,
        final(ctx).filter == old(ctx).filter,
        final(ctx).has_loaded == old(ctx).has_loaded,
        final(ctx).cache_dir == old(ctx).cache_dir,
{
    let ghost pre = *ctx;
    clear_digit_in(&mut ctx.fav_sessions, digit);
    clear_digit_in(&mut ctx.flush_sessions, digit);
    proof {
        assert(ctx.flush_sessions@.len() == ctx.flush_sessions.deep_view().len());
        assert(ctx.flush_sessions.deep_view().len() == pre.flush_views().len());
    }
    let mut x = clone_session(&ctx.flush_sessions[u]);
    x.assigned_number = Some(digit);
    ctx.flush_sessions.set(u, x);
    proof {
        let ghost cf = cleared_digit(pre.flush_views(), digit);
        assert(ctx.flush_views() =~= cf.update(
            u as int,
            SessionView { assigned_number: Some(digit), ..cf[u as int] },
        ));
    }
}

/// Interpret one keystroke while the quick-number overlay is open.
#[verifier::rlimit(60)]
pub fn match_assignation_keys(ctx: &mut Favs, key: &BareKey) -> (out: KeyOutcome)
    ensures
        assign_effect(*old(ctx), *key, *final(ctx), out),
        (old(ctx).wf() && old(ctx).mode == FavMode::AssignNumber) ==> final(ctx).wf(),
{
    match ctx.current_column {
        None => KeyOutcome::handled(),
        Some(column) => {
            match key {
                BareKey::Char(c) => {
                    let ch = *c;
                    if '0' <= ch && ch <= '9' {
                        let digit: u8 = ((ch as u32) - ('0' as u32)) as u8;
                        let ghost pre = *ctx;
                        match column {
                            FavMode::NavigateFavs => {
                                match nth_filtered_index(
                                    &ctx.fav_sessions,
                                    &ctx.filter,
                                    ctx.cursor,
                                ) {
                                    Some(u) => {
                                        proof {
                                            lemma_filtered_remove_at(
                                                pre.kept_views(),
                                                pre.filter_view(),
                                                u as int,
                                                pre.cursor as int,
                                            );
                                        }
                                        assign_digit_at_kept(ctx, digit, u);
                                        proof {
                                            ctx.lemma_assign_shape(pre, digit, u as int, true);
                                            if pre.wf() {
                                                lemma_same_names_filtered_len(
                                                    pre.kept_views(),
                                                    ctx.kept_views(),
                                                    pre.filter_view(),
                                                );
                                                lemma_same_names_filtered_len(
                                                    pre.flush_views(),
                                                    ctx.flush_views(),
                                                    pre.filter_view(),
                                                );
                                            }
                                            assert(matches_filter(
                                                pre.kept_views()[u as int].name,
                                                pre.filter_view(),
                                            ));
                                        }
                                    },
                                    None => {
                                        clear_digit_in(&mut ctx.fav_sessions, digit);
                                        clear_digit_in(&mut ctx.flush_sessions, digit);
                                        proof {
                                            if pre.wf() {
                                                ctx.lemma_cleared_both(pre, digit);
                                            }
                                        }
                                    },
                                }
                            },
                            FavMode::NavigateFlush => {
                                match nth_filtered_index(
                                    &ctx.flush_sessions,
                                    &ctx.filter,
                                    ctx.cursor,
                                ) {
                                    Some(u) => {
                                        proof {
                                            lemma_filtered_remove_at(
                                                pre.flush_views(),
                                                pre.filter_view(),
                                                u as int,
                                                pre.cursor as int,
                                            );
                                        }
                                        assign_digit_at_flush(ctx, digit, u);
                                        proof {
                                            ctx.lemma_assign_shape(pre, digit, u as int, false);
                                            if pre.wf() {
                                                lemma_same_names_filtered_len(
                                                    pre.kept_views(),
                                                    ctx.kept_views(),
                                                    pre.filter_view(),
                                                );
                                                lemma_same_names_filtered_len(
                                                    pre.flush_views(),
                                                    ctx.flush_views(),
                                                    pre.filter_view(),
                                                );
                                            }
                                            assert(matches_filter(
                                                pre.flush_views()[u as int].name,
                                                pre.filter_view(),
                                            ));
                                        }
                                    },
                                    None => {
                                        clear_digit_in(&mut ctx.fav_sessions, digit);
                                        clear_digit_in(&mut ctx.flush_sessions, digit);
                                        proof {
                                            if pre.wf() {
                                                ctx.lemma_cleared_both(pre, digit);
                                            }
                                        }
                                    },
                                }
                            },
                            _ => {
                                clear_digit_in(&mut ctx.fav_sessions, digit);
                                clear_digit_in(&mut ctx.flush_sessions, digit);
                            },
                        }
                        ctx.mode = column;
                        ctx.current_column = None;
                        let mut requests: Vec<HostRequest> = Vec::new();
                        requests.push(HostRequest::Persist);
                        proof {
                            assert(requests.deep_view() =~= seq![RequestView::Persist]);
                        }
                        KeyOutcome { handled: true, requests }
                    } else {
                        KeyOutcome::unhandled()
                    }
                },
                BareKey::Esc => {
                    ctx.mode = column;
                    ctx.current_column = None;
                    KeyOutcome::handled()
                },
                _ => KeyOutcome::unhandled(),
            }
        },
    }
}

} // verus!
