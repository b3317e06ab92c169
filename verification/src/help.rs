//! Keystroke handling for the help screen.
use vstd::prelude::*;

use crate::favs::{clamped, clamp_to, Favs};
use crate::favs_mode::FavMode;
use crate::host::{BareKey, KeyOutcome, RequestView};
use crate::sessions::{count_filtered, filtered_views};

verus! {

/// Leaving help returns to the kept column with the cursor pulled back
/// inside its filtered view; any other key is reported unhandled.
pub open spec fn help_effect(pre: Favs, key: BareKey, post: Favs, out: KeyOutcome) -> bool {
    let closes = match key {
        BareKey::Esc => true,
        BareKey::Char(c) => c == 'q',
        _ => false,
    };
    if closes {
        &&& Favs::same_store(pre, post)
        &&& post.mode == FavMode::NavigateFavs
        &&& post.cursor as int == clamped(
            pre.cursor as int,
            filtered_views(pre.kept_views(), pre.filter_view()).len() as int,
        )
        &&& post.current_column == pre.current_column
        &&& post.filter == pre.filter
        &&& post.has_loaded == pre.has_loaded
        &&& post.cache_dir == pre.cache_dir
        &&& out.handled
        &&& out.requests.deep_view() == Seq::<RequestView>::empty()
    } else {
        &&& post == pre
        &&& !out.handled
        &&& out.requests.deep_view() == Seq::<RequestView>::empty()
    }
}

/// Interpret one keystroke while the help screen is open.
pub fn match_help_keys(ctx: &mut Favs, key: &BareKey) -> (out: KeyOutcome)
    ensures
        help_effect(*old(ctx), *key, *final(ctx), out),
        (old(ctx).wf() && old(ctx).mode == FavMode::Help) ==> final(ctx).wf(),
{
    let closes = match key {
        BareKey::Esc => true,
        BareKey::Char(c) => *c == 'q',
        _ => false,
    };
    if closes {
        ctx.mode = FavMode::NavigateFavs;
        let len = count_filtered(&ctx.fav_sessions, &ctx.filter);
        ctx.cursor = clamp_to(ctx.cursor, len);
        KeyOutcome::handled()
    } else {
        KeyOutcome::unhandled()
    }
}

} // verus!
