//! Cross-instance synchronization: the broadcast payload and how an
//! incoming snapshot is applied, with the sender's own echo ignored.
use vstd::prelude::*;

use crate::favs::Favs;
use crate::sessions::{clone_sessions, names_distinct, numbers_in_range, numbers_unique};
use crate::FavSessionInfo;

verus! {

/// The worker under whose name sync payloads are relayed.
pub struct FavSynchronizer {}

impl Default for FavSynchronizer {
    fn default() -> (r: Self)
        ensures
            r == (FavSynchronizer {  }),
    {
        FavSynchronizer {  }
    }
}

/// The worker name under which sync payloads travel.
pub const FAV_SYNCHRONIZER_NAME: &'static str = "fav";

/// The message name carried by a sync payload.
pub const FAV_SYNCHRONIZER_MESSAGE: &'static str = "Sync";

/// A full classification snapshot broadcast to cooperating instances,
/// tagged with the sending instance's identifier so the sender can ignore
/// its own echo.
pub struct SyncMessage {
    pub favs: Vec<FavSessionInfo>,
    pub flush: Vec<FavSessionInfo>,
    pub sender_id: u128,
}

impl Favs {
    /// Apply an incoming snapshot wholesale, unless it is this instance's
    /// own echo or it breaks the store invariant; report whether it was
    /// applied. The cursor is pulled back into view afterwards.
    pub fn apply_sync(&mut self, msg: &SyncMessage, self_id: u128) -> (applied: bool)
        ensures
            applied == (msg.sender_id != self_id && names_distinct(
                msg.favs.deep_view() + msg.flush.deep_view(),
            ) && numbers_unique(msg.favs.deep_view() + msg.flush.deep_view()) && numbers_in_range(
                msg.favs.deep_view() + msg.flush.deep_view(),
            )),
            applied ==> final(self).kept_views() == msg.favs.deep_view() && final(self)
                .flush_views() == msg.flush.deep_view(),
            !applied ==> *final(self) == *old(self),
            Favs::same_overlay(*old(self), *final(self)),
            old(self).wf() ==> final(self).wf(),
    {
        if msg.sender_id == self_id {
            return false;
        }
        let ok = Favs::snapshot_valid(&msg.favs, &msg.flush);
        if ok {
            self.fav_sessions = clone_sessions(&msg.favs);
            self.flush_sessions = clone_sessions(&msg.flush);
            self.clamp_cursor();
        }
        ok
    }
}

} // verus!
