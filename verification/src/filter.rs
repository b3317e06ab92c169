//! Keystroke handling for the free-text filter overlay.
use vstd::prelude::*;

use crate::favs::{clamped, clamp_to, Favs};
use crate::favs_mode::FavMode;
use crate::host::{BareKey, KeyOutcome, RequestView};
use crate::sessions::{count_filtered, filtered_views};
use crate::text_match::{pop_char, push_char};

verus! {

/// Leave the overlay for a navigation column, cursor at the top, keeping
/// the filter text.
pub open spec fn filter_commit(pre: Favs, post: Favs, out: KeyOutcome, column: FavMode) -> bool {
    &&& Favs::same_store(pre, post)
    &&& post.mode == column
    &&& post.cursor == 0
    &&& post.filter == pre.filter
    &&& post.current_column == pre.current_column
    &&& post.has_loaded == pre.has_loaded
    &&& post.cache_dir == pre.cache_dir
    &&& out.handled
    &&& out.requests.deep_view() == Seq::<RequestView>::empty()
}

/// What one keystroke does in the filter overlay, given the filter text.
pub open spec fn filter_key_effect(
    pre: Favs,
    key: BareKey,
    f: Seq<char>,
    post: Favs,
    out: KeyOutcome,
) -> bool {
    match key {
        BareKey::Char(c) => {
            &&& Favs::same_store(pre, post)
            &&& post.mode == pre.mode
            &&& post.cursor == pre.cursor
            &&& post.current_column == pre.current_column
            &&& post.has_loaded == pre.has_loaded
            &&& post.cache_dir == pre.cache_dir
            &&& post.filter.deep_view() == Some(f.push(c))
            &&& out.handled
            &&& out.requests.deep_view() == Seq::<RequestView>::empty()
        },
        BareKey::Backspace => {
            &&& Favs::same_store(pre, post)
            &&& post.mode == pre.mode
            &&& post.cursor == pre.cursor
            &&& post.current_column == pre.current_column
            &&& post.has_loaded == pre.has_loaded
            &&& post.cache_dir == pre.cache_dir
            &&& post.filter.deep_view() == Some(
                if f.len() > 0 {
                    f.drop_last()
                } else {
                    f
                },
            )
            &&& out.handled
            &&& out.requests.deep_view() == Seq::<RequestView>::empty()
        },
        BareKey::Enter => filter_commit(pre, post, out, FavMode::NavigateFavs),
        BareKey::Left => filter_commit(pre, post, out, FavMode::NavigateFavs),
        BareKey::Right => filter_commit(pre, post, out, FavMode::NavigateFlush),
        BareKey::Tab => filter_commit(pre, post, out, FavMode::NavigateFlush),
        BareKey::Esc => {
            &&& Favs::same_store(pre, post)
            &&& post.mode == FavMode::NavigateFavs
            &&& post.filter is None
            &&& post.cursor as int == clamped(
                pre.cursor as int,
                filtered_views(pre.kept_views(), None).len() as int,
            )
            &&& post.current_column == pre.current_column
            &&& post.has_loaded == pre.has_loaded
            &&& post.cache_dir == pre.cache_dir
            &&& out.handled
            &&& out.requests.deep_view() == Seq::<RequestView>::empty()
        },
        _ => {
            &&& post == pre
            &&& !out.handled
            &&& out.requests.deep_view() == Seq::<RequestView>::empty()
        },
    }
}

/// What one keystroke does in the filter overlay: edits the filter text,
/// leaves for a column, or cancels. Without an active filter the key is
/// swallowed.
pub open spec fn filter_effect(pre: Favs, key: BareKey, post: Favs, out: KeyOutcome) -> bool {
    match pre.filter.deep_view() {
        None => {
            &&& post == pre
            &&& out.handled
            &&& out.requests.deep_view() == Seq::<RequestView>::empty()
        },
        Some(f) => filter_key_effect(pre, key, f, post, out),
    }
}

/// Interpret one keystroke while the filter overlay is open.
pub fn match_filter_key(ctx: &mut Favs, key: &BareKey) -> (out: KeyOutcome)
    ensures
        filter_effect(*old(ctx), *key, *final(ctx), out),
        (old(ctx).wf() && old(ctx).mode == FavMode::Filter) ==> final(ctx).wf(),
{
    match ctx.filter.take() {
        None => KeyOutcome::handled(),
        Some(mut f) => {
            match key {
                BareKey::Char(c) => {
                    push_char(&mut f, *c);
                    ctx.filter = Some(f);
                    KeyOutcome::handled()
                },
                BareKey::Backspace => {
                    pop_char(&mut f);
                    ctx.filter = Some(f);
                    KeyOutcome::handled()
                },
                BareKey::Enter | BareKey::Left => {
                    ctx.filter = Some(f);
                    ctx.mode = FavMode::NavigateFavs;
                    ctx.cursor = 0;
                    KeyOutcome::handled()
                },
                BareKey::Right | BareKey::Tab => {
                    ctx.filter = Some(f);
                    ctx.mode = FavMode::NavigateFlush;
                    ctx.cursor = 0;
                    KeyOutcome::handled()
                },
                BareKey::Esc => {
                    ctx.mode = FavMode::NavigateFavs;
                    let len = count_filtered(&ctx.fav_sessions, &ctx.filter);
                    ctx.cursor = clamp_to(ctx.cursor, len);
                    KeyOutcome::handled()
                },
                _ => {
                    ctx.filter = Some(f);
                    KeyOutcome::unhandled()
                },
            }
        },
    }
}

} // verus!
