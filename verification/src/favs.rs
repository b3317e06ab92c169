//! The classification store and its invariants: the two buckets of tracked
//! sessions, the controller's mode/cursor state, and the store operations.
use vstd::prelude::*;
use vstd::string::StringExecFns;

use crate::favs_mode::FavMode;
use crate::sessions::{
    cleared_digit, clear_digit_in, clone_session, clone_sessions, count_filtered, filtered_views,
    find_by_name, lemma_names_multiset_rotate, lemma_names_multiset_swap,
    lemma_names_multiset_transfer, lemma_rotate_props, lemma_same_names_filtered_len,
    lemma_swap_props, lemma_transfer_props, names_distinct, names_of, numbers_in_range,
    numbers_unique, rotate_at, transfer_at,
};
use crate::{FavSessionInfo, SessionView};

verus! {

/// The whole state of one triage instance: the two classification buckets
/// and the mode/cursor/filter overlay the controller navigates them with.
pub struct Favs {
    /// The "kept" bucket: sessions the operator wants to keep.
    pub fav_sessions: Vec<FavSessionInfo>,
    /// The "flush" bucket: candidates for deletion.
    pub flush_sessions: Vec<FavSessionInfo>,
    /// Index into the filtered view of the active bucket.
    pub cursor: usize,
    /// What keystrokes currently mean.
    pub mode: FavMode,
    /// While assigning a number: the navigation mode to return to.
    pub current_column: Option<FavMode>,
    /// The free-text name filter, if one is active.
    pub filter: Option<String>,
    /// Whether the persisted classification has been read (or given up on).
    pub has_loaded: bool,
    /// Where the host persists the classification.
    pub cache_dir: String,
}

impl Favs {
    /// The kept bucket as a run of session views.
    pub open spec fn kept_views(self) -> Seq<SessionView> {
        self.fav_sessions.deep_view()
    }

    /// The flush bucket as a run of session views.
    pub open spec fn flush_views(self) -> Seq<SessionView> {
        self.flush_sessions.deep_view()
    }

    /// Both buckets, kept first: the run the uniqueness invariants range over.
    pub open spec fn all_views(self) -> Seq<SessionView> {
        self.kept_views() + self.flush_views()
    }

    /// The active filter as a character sequence.
    pub open spec fn filter_view(self) -> Option<Seq<char>> {
        self.filter.deep_view()
    }

    /// The kept bucket as the operator currently sees it.
    pub open spec fn filtered_kept(self) -> Seq<SessionView> {
        filtered_views(self.kept_views(), self.filter_view())
    }

    /// The flush bucket as the operator currently sees it.
    pub open spec fn filtered_flush(self) -> Seq<SessionView> {
        filtered_views(self.flush_views(), self.filter_view())
    }

    /// The filtered view the cursor indexes, where the mode has one.
    pub open spec fn active_filtered(self) -> Option<Seq<SessionView>> {
        match self.mode {
            FavMode::NavigateFavs => Some(self.filtered_kept()),
            FavMode::NavigateFlush => Some(self.filtered_flush()),
            FavMode::AssignNumber => match self.current_column {
                Some(FavMode::NavigateFavs) => Some(self.filtered_kept()),
                Some(FavMode::NavigateFlush) => Some(self.filtered_flush()),
                _ => None,
            },
            _ => None,
        }
    }

    /// The cursor stays inside the active filtered view unless that view is
    /// empty (an empty view leaves the cursor unobserved).
    pub open spec fn cursor_ok(self) -> bool {
        match self.active_filtered() {
            Some(view) => view.len() > 0 ==> self.cursor < view.len(),
            None => true,
        }
    }

    /// The overlay fields agree with the mode: a filter exists while the
    /// filter overlay is open, and the saved column exists exactly while a
    /// number is being assigned.
    pub open spec fn modes_ok(self) -> bool {
        &&& (self.mode is Filter ==> self.filter is Some)
        &&& (self.current_column is Some <==> self.mode is AssignNumber)
        &&& (self.mode is AssignNumber ==> self.current_column == Some(FavMode::NavigateFavs)
            || self.current_column == Some(FavMode::NavigateFlush))
    }

    /// The store invariant: names partition the union of the buckets, and
    /// quick-access numbers are single digits held by at most one session.
    pub open spec fn store_ok(self) -> bool {
        &&& names_distinct(self.all_views())
        &&& numbers_unique(self.all_views())
        &&& numbers_in_range(self.all_views())
    }

    /// Well-formedness of the whole instance.
    pub open spec fn wf(self) -> bool {
        &&& self.store_ok()
        &&& self.modes_ok()
        &&& self.cursor_ok()
    }
}

/// A cursor clamped into a view of the given length: left alone while it
/// fits, pulled to the last entry otherwise, and zero for an empty view.
pub open spec fn clamped(cursor: int, len: int) -> int {
    if cursor < len {
        cursor
    } else if len > 0 {
        len - 1
    } else {
        0
    }
}

/// `clamped`, executably.
pub fn clamp_to(cursor: usize, len: usize) -> (r: usize)
    ensures
        r == clamped(cursor as int, len as int),
{
    if cursor < len {
        cursor
    } else if len > 0 {
        len - 1
    } else {
        0
    }
}

/// How many leading rows of the active view scroll off screen so that the
/// cursor stays visible: none while the cursor fits, and otherwise exactly
/// enough that the cursor lands on the last visible row.
pub fn scroll_skip(cursor: usize, space: usize) -> (r: usize)
    ensures
        r <= cursor,
        space > 0 ==> cursor - r <= space - 1,
        space > 0 && cursor >= space ==> cursor - r == space - 1,
        cursor < space ==> r == 0,
{
    if space > 0 && cursor > space - 1 {
        cursor - (space - 1)
    } else {
        0
    }
}

impl Default for Favs {
    /// A fresh instance: both buckets empty, navigating the kept column,
    /// no filter, nothing loaded yet, the default cache location.
    fn default() -> (r: Self)
        ensures
            r.kept_views() == Seq::<SessionView>::empty(),
            r.flush_views() == Seq::<SessionView>::empty(),
            r.cursor == 0,
            r.mode == FavMode::NavigateFavs,
            r.current_column is None,
            r.filter is None,
            r.has_loaded == false,
            r.cache_dir@ == "~/.cache/favs.json"@,
            r.wf(),
    {
        let r = Favs {
            fav_sessions: Vec::new(),
            flush_sessions: Vec::new(),
            cursor: 0,
            mode: FavMode::NavigateFavs,
            current_column: None,
            filter: None,
            has_loaded: false,
            cache_dir: String::from_str("~/.cache/favs.json"),
        };
        proof {
            assert(r.kept_views() =~= Seq::<SessionView>::empty());
            assert(r.flush_views() =~= Seq::<SessionView>::empty());
            assert(r.all_views() =~= Seq::<SessionView>::empty());
        }
        r
    }
}

/// One of the two classification buckets.
#[derive(Clone, Copy, Debug, PartialEq, Eq, Structural)]
pub enum Bucket {
    Kept,
    Flush,
}

/// The bucket a session leaves when it is moved out of `bucket`.
pub open spec fn other_bucket(bucket: Bucket) -> Bucket {
    match bucket {
        Bucket::Kept => Bucket::Flush,
        Bucket::Flush => Bucket::Kept,
    }
}

impl Favs {
    /// The named bucket as a run of session views.
    pub open spec fn bucket_views(self, bucket: Bucket) -> Seq<SessionView> {
        match bucket {
            Bucket::Kept => self.kept_views(),
            Bucket::Flush => self.flush_views(),
        }
    }

    /// Both buckets of `b` are exactly those of `a`.
    pub open spec fn same_store(a: Favs, b: Favs) -> bool {
        &&& b.fav_sessions == a.fav_sessions
        &&& b.flush_sessions == a.flush_sessions
    }

    /// The overlay state (everything but the buckets and the cursor) of
    /// `b` is that of `a`.
    pub open spec fn same_overlay(a: Favs, b: Favs) -> bool {
        &&& b.mode == a.mode
        &&& b.current_column == a.current_column
        &&& b.filter == a.filter
        &&& b.has_loaded == a.has_loaded
        &&& b.cache_dir == a.cache_dir
    }

    /// Pull the cursor back inside the active filtered view; every other
    /// field stays as it was.
    pub fn clamp_cursor(&mut self)
        ensures
            final(self).fav_sessions == old(self).fav_sessions,
            final(self).flush_sessions == old(self).flush_sessions,
            Favs::same_overlay(*old(self), *final(self)),
            final(self).cursor as int == match old(self).active_filtered() {
                Some(view) => clamped(old(self).cursor as int, view.len() as int),
                None => old(self).cursor as int,
            },
            final(self).cursor_ok(),
    {
        match self.mode {
            FavMode::NavigateFavs => {
                let len = count_filtered(&self.fav_sessions, &self.filter);
                self.cursor = clamp_to(self.cursor, len);
            },
            FavMode::NavigateFlush => {
                let len = count_filtered(&self.flush_sessions, &self.filter);
                self.cursor = clamp_to(self.cursor, len);
            },
            FavMode::AssignNumber => {
                match self.current_column {
                    Some(FavMode::NavigateFavs) => {
                        let len = count_filtered(&self.fav_sessions, &self.filter);
                        self.cursor = clamp_to(self.cursor, len);
                    },
                    Some(FavMode::NavigateFlush) => {
                        let len = count_filtered(&self.flush_sessions, &self.filter);
                        self.cursor = clamp_to(self.cursor, len);
                    },
                    _ => {},
                }
            },
            _ => {},
        }
    }

    /// Remove the named session from `from` and append it to `to`,
    /// metadata intact; report "not found" (and change nothing) when no
    /// session of that name is in `from`.
    pub fn move_session(&mut self, name: &String, from: Bucket, to: Bucket) -> (found: bool)
        ensures
            found == exists|j: int|
                0 <= j < old(self).bucket_views(from).len() && #[trigger] old(self).bucket_views(
                    from,
                )[j].name == name@,
            !found ==> *final(self) == *old(self),
            found ==> exists|i: int|
                {
                    &&& 0 <= i < old(self).bucket_views(from).len()
                    &&& #[trigger] old(self).bucket_views(from)[i].name == name@
                    &&& (forall|j: int|
                        0 <= j < i ==> old(self).bucket_views(from)[j].name != name@)
                    &&& if from == to {
                        final(self).bucket_views(from) == old(self).bucket_views(from).remove(
                            i,
                        ).push(old(self).bucket_views(from)[i]) && final(self).bucket_views(
                            other_bucket(from),
                        ) == old(self).bucket_views(other_bucket(from))
                    } else {
                        final(self).bucket_views(from) == old(self).bucket_views(from).remove(i)
                            && final(self).bucket_views(to) == old(self).bucket_views(to).push(
                            old(self).bucket_views(from)[i],
                        )
                    }
                },
            found ==> names_of(final(self).all_views()).to_multiset() == names_of(
                old(self).all_views(),
            ).to_multiset(),
            Favs::same_overlay(*old(self), *final(self)),
            old(self).store_ok() ==> final(self).store_ok(),
            old(self).wf() ==> final(self).wf(),
    {
        let idx = match from {
            Bucket::Kept => find_by_name(&self.fav_sessions, name),
            Bucket::Flush => find_by_name(&self.flush_sessions, name),
        };
        match idx {
            None => false,
            Some(i) => {
                let ghost pre = *self;
                match (from, to) {
                    (Bucket::Kept, Bucket::Flush) => {
                        transfer_at(&mut self.fav_sessions, &mut self.flush_sessions, i);
                        proof {
                            lemma_names_multiset_transfer(
                                pre.kept_views(),
                                pre.flush_views(),
                                i as int,
                            );
                            if pre.store_ok() {
                                lemma_transfer_props(pre.kept_views(), pre.flush_views(), i as int);
                            }
                        }
                    },
                    (Bucket::Flush, Bucket::Kept) => {
                        transfer_at(&mut self.flush_sessions, &mut self.fav_sessions, i);
                        proof {
                            lemma_names_multiset_transfer(
                                pre.flush_views(),
                                pre.kept_views(),
                                i as int,
                            );
                            lemma_names_multiset_swap(pre.kept_views(), pre.flush_views());
                            lemma_names_multiset_swap(
                                pre.kept_views().push(pre.flush_views()[i as int]),
                                pre.flush_views().remove(i as int),
                            );
                            if pre.store_ok() {
                                lemma_swap_props(pre.kept_views(), pre.flush_views());
                                lemma_transfer_props(pre.flush_views(), pre.kept_views(), i as int);
                                lemma_swap_props(
                                    pre.flush_views().remove(i as int),
                                    pre.kept_views().push(pre.flush_views()[i as int]),
                                );
                            }
                        }
                    },
                    (Bucket::Kept, Bucket::Kept) => {
                        rotate_at(&mut self.fav_sessions, i);
                        proof {
                            lemma_names_multiset_rotate(
                                pre.kept_views(),
                                pre.flush_views(),
                                i as int,
                            );
                            if pre.store_ok() {
                                lemma_rotate_props(pre.kept_views(), pre.flush_views(), i as int);
                            }
                        }
                    },
                    (Bucket::Flush, Bucket::Flush) => {
                        rotate_at(&mut self.flush_sessions, i);
                        proof {
                            lemma_names_multiset_rotate(
                                pre.flush_views(),
                                pre.kept_views(),
                                i as int,
                            );
                            lemma_names_multiset_swap(pre.kept_views(), pre.flush_views());
                            lemma_names_multiset_swap(
                                pre.kept_views(),
                                pre.flush_views().remove(i as int).push(
                                    pre.flush_views()[i as int],
                                ),
                            );
                            if pre.store_ok() {
                                lemma_swap_props(pre.kept_views(), pre.flush_views());
                                lemma_rotate_props(pre.flush_views(), pre.kept_views(), i as int);
                                lemma_swap_props(
                                    pre.flush_views().remove(i as int).push(
                                        pre.flush_views()[i as int],
                                    ),
                                    pre.kept_views(),
                                );
                            }
                        }
                    },
                }
                self.clamp_cursor();
                true
            },
        }
    }
}

impl Favs {
    /// Give the named session the quick-access digit, first taking that
    /// digit away from whichever session holds it; afterwards exactly the
    /// named session holds the digit. Reports "not found" (and changes
    /// nothing) when no tracked session bears the name.
    pub fn assign_number(&mut self, name: &String, digit: u8) -> (found: bool)
        requires
            digit <= 9,
        ensures
            found == exists|j: int|
                0 <= j < old(self).all_views().len() && #[trigger] old(self).all_views()[j].name
                    == name@,
            !found ==> *final(self) == *old(self),
            found ==> exists|i: int|
                {
                    &&& 0 <= i < old(self).all_views().len()
                    &&& #[trigger] old(self).all_views()[i].name == name@
                    &&& (forall|j: int| 0 <= j < i ==> old(self).all_views()[j].name != name@)
                    &&& final(self).all_views() == cleared_digit(
                        old(self).all_views(),
                        digit,
                    ).update(
                        i,
                        SessionView {
                            assigned_number: Some(digit),
                            ..old(self).all_views()[i]
                        },
                    )
                    &&& final(self).all_views()[i].assigned_number == Some(digit)
                    &&& final(self).all_views()[i].name == name@
                    &&& (forall|j: int|
                        0 <= j < final(self).all_views().len() && j != i
                            ==> final(self).all_views()[j].assigned_number != Some(digit))
                },
            Favs::same_overlay(*old(self), *final(self)),
            final(self).cursor == old(self).cursor,
            old(self).store_ok() ==> final(self).store_ok(),
            old(self).wf() ==> final(self).wf(),
    {
        let ghost pre = *self;
        let in_kept = find_by_name(&self.fav_sessions, name);
        match in_kept {
            Some(i) => {
                clear_digit_in(&mut self.fav_sessions, digit);
                clear_digit_in(&mut self.flush_sessions, digit);
                proof {
                    assert(self.fav_sessions@.len() == self.fav_sessions.deep_view().len());
                    assert(self.fav_sessions.deep_view().len() == pre.kept_views().len());
                }
                let mut x = clone_session(&self.fav_sessions[i]);
                x.assigned_number = Some(digit);
                self.fav_sessions.set(i, x);
                proof {
                    let ghost ck = cleared_digit(pre.kept_views(), digit);
                    assert(self.kept_views() =~= ck.update(
                        i as int,
                        SessionView { assigned_number: Some(digit), ..ck[i as int] },
                    ));
                    self.lemma_assign_shape(pre, digit, i as int, true);
                    if pre.wf() {
                        lemma_same_names_filtered_len(
                            pre.kept_views(),
                            self.kept_views(),
                            pre.filter_view(),
                        );
                        lemma_same_names_filtered_len(
                            pre.flush_views(),
                            self.flush_views(),
                            pre.filter_view(),
                        );
                    }
                }
                true
            },
            None => {
                let in_flush = find_by_name(&self.flush_sessions, name);
                match in_flush {
                    Some(i) => {
                        clear_digit_in(&mut self.fav_sessions, digit);
                        clear_digit_in(&mut self.flush_sessions, digit);
                        proof {
                            assert(self.flush_sessions@.len()
                                == self.flush_sessions.deep_view().len());
                            assert(self.flush_sessions.deep_view().len()
                                == pre.flush_views().len());
                        }
                        let mut x = clone_session(&self.flush_sessions[i]);
                        x.assigned_number = Some(digit);
                        self.flush_sessions.set(i, x);
                        proof {
                            let ghost cf = cleared_digit(pre.flush_views(), digit);
                            assert(self.flush_views() =~= cf.update(
                                i as int,
                                SessionView { assigned_number: Some(digit), ..cf[i as int] },
                            ));
                            self.lemma_assign_shape(pre, digit, i as int, false);
                            assert(pre.all_views()[pre.kept_views().len() + i as int].name
                                == name@);
                            if pre.wf() {
                                lemma_same_names_filtered_len(
                                    pre.kept_views(),
                                    self.kept_views(),
                                    pre.filter_view(),
                                );
                                lemma_same_names_filtered_len(
                                    pre.flush_views(),
                                    self.flush_views(),
                                    pre.filter_view(),
                                );
                            }
                        }
                        true
                    },
                    None => {
                        proof {
                            assert forall|j: int|
                                0 <= j < pre.all_views().len() implies pre.all_views()[j].name
                                != name@ by {
                                if j < pre.kept_views().len() {
                                    assert(pre.all_views()[j] == pre.kept_views()[j]);
                                } else {
                                    assert(pre.all_views()[j] == pre.flush_views()[j
                                        - pre.kept_views().len()]);
                                }
                            }
                        }
                        false
                    },
                }
            },
        }
    }

    /// After clearing `digit` everywhere and handing it to the session at
    /// position `i` of one bucket, the combined run has the announced
    /// shape and the invariants carry over.
    pub(crate) proof fn lemma_assign_shape(self, pre: Favs, digit: u8, i: int, in_kept: bool)
        requires
            digit <= 9,
            0 <= i,
            in_kept ==> i < pre.kept_views().len() && self.kept_views() == cleared_digit(
                pre.kept_views(),
                digit,
            ).update(
                i,
                SessionView {
                    assigned_number: Some(digit),
                    ..cleared_digit(pre.kept_views(), digit)[i]
                },
            ) && self.flush_views() == cleared_digit(pre.flush_views(), digit),
            !in_kept ==> i < pre.flush_views().len() && self.flush_views() == cleared_digit(
                pre.flush_views(),
                digit,
            ).update(
                i,
                SessionView {
                    assigned_number: Some(digit),
                    ..cleared_digit(pre.flush_views(), digit)[i]
                },
            ) && self.kept_views() == cleared_digit(pre.kept_views(), digit),
        ensures
            ({
                let t = if in_kept {
                    i
                } else {
                    pre.kept_views().len() + i
                };
                &&& self.all_views() == cleared_digit(pre.all_views(), digit).update(
                    t,
                    SessionView { assigned_number: Some(digit), ..pre.all_views()[t] },
                )
                &&& self.all_views()[t].assigned_number == Some(digit)
                &&& self.all_views()[t].name == pre.all_views()[t].name
                &&& (forall|j: int|
                    0 <= j < self.all_views().len() && j != t
                        ==> self.all_views()[j].assigned_number != Some(digit))
            }),
            pre.store_ok() ==> self.store_ok(),
            self.kept_views().len() == pre.kept_views().len(),
            self.flush_views().len() == pre.flush_views().len(),
            forall|j: int|
                0 <= j < pre.kept_views().len() ==> #[trigger] self.kept_views()[j].name
                    == pre.kept_views()[j].name,
            forall|j: int|
                0 <= j < pre.flush_views().len() ==> #[trigger] self.flush_views()[j].name
                    == pre.flush_views()[j].name,
    {
        let all0 = pre.all_views();
        let t = if in_kept {
            i
        } else {
            pre.kept_views().len() + i
        };
        let after = self.all_views();
        let target = SessionView { assigned_number: Some(digit), ..all0[t] };
        assert(after =~= cleared_digit(all0, digit).update(t, target));
        assert(after[t].assigned_number == Some(digit));
        assert forall|j: int|
            0 <= j < after.len() && j != t implies after[j].assigned_number != Some(digit) by {
            assert(after[j] == cleared_digit(all0, digit)[j]);
        }
        assert forall|j: int| 0 <= j < after.len() implies after[j].name == all0[j].name by {
            if j != t {
                assert(after[j] == cleared_digit(all0, digit)[j]);
            }
        }
        if pre.store_ok() {
            assert forall|j1: int, j2: int| 0 <= j1 < j2 < after.len() implies after[j1].name
                != after[j2].name by {
                assert(all0[j1].name != all0[j2].name);
            }
            assert forall|j1: int, j2: int|
                0 <= j1 < j2 < after.len() && after[j1].assigned_number is Some implies after[
                j1
            ].assigned_number != after[j2].assigned_number by {
                if j1 != t && j2 != t && after[j2].assigned_number is Some {
                    assert(after[j1] == cleared_digit(all0, digit)[j1]);
                    assert(after[j2] == cleared_digit(all0, digit)[j2]);
                    assert(after[j1].assigned_number == all0[j1].assigned_number);
                    assert(after[j2].assigned_number == all0[j2].assigned_number);
                }
            }
            assert forall|j: int| 0 <= j < after.len() implies match #[trigger] after[
                j
            ].assigned_number {
                Some(d) => d <= 9,
                None => true,
            } by {
                if j != t {
                    assert(after[j] == cleared_digit(all0, digit)[j]);
                    assert(match all0[j].assigned_number {
                        Some(d) => d <= 9,
                        None => true,
                    });
                }
            }
        }
        assert forall|j: int|
            0 <= j < pre.kept_views().len() implies #[trigger] self.kept_views()[j].name
            == pre.kept_views()[j].name by {}
        assert forall|j: int|
            0 <= j < pre.flush_views().len() implies #[trigger] self.flush_views()[j].name
            == pre.flush_views()[j].name by {}
    }

    /// Remove every flush entry the operator currently sees (the filtered
    /// view of the flush bucket) and hand the removed entries back so the
    /// caller can request their external deletion. The kept bucket and the
    /// flush entries hidden by the filter stay.
    pub fn purge_flush(&mut self) -> (removed: Vec<FavSessionInfo>)
        ensures
            removed.deep_view() == filtered_views(
                old(self).flush_views(),
                old(self).filter_view(),
            ),
            final(self).flush_views() == crate::sessions::unmatched_views(
                old(self).flush_views(),
                old(self).filter_view(),
            ),
            final(self).fav_sessions == old(self).fav_sessions,
            Favs::same_overlay(*old(self), *final(self)),
            final(self).cursor == old(self).cursor,
            old(self).store_ok() ==> final(self).store_ok(),
            old(self).wf() ==> final(self).wf(),
    {
        let ghost pre = *self;
        let ghost fv = pre.filter_view();
        let mut remaining: Vec<FavSessionInfo> = Vec::new();
        let mut removed: Vec<FavSessionInfo> = Vec::new();
        let mut i: usize = 0;
        while i < self.flush_sessions.len()
            invariant
                i <= self.flush_sessions.len(),
                self.flush_sessions == pre.flush_sessions,
                self.filter == pre.filter,
                remaining.deep_view() == crate::sessions::unmatched_views(
                    pre.flush_views().take(i as int),
                    fv,
                ),
                removed.deep_view() == filtered_views(pre.flush_views().take(i as int), fv),
                fv == pre.filter_view(),
            decreases self.flush_sessions.len() - i,
        {
            proof {
                crate::sessions::lemma_filtered_take_step(pre.flush_views(), fv, i as int);
            }
            if crate::text_match::name_matches_opt(&self.flush_sessions[i].name, &self.filter) {
                removed.push(clone_session(&self.flush_sessions[i]));
                proof {
                    assert(removed.deep_view() =~= filtered_views(
                        pre.flush_views().take(i + 1),
                        fv,
                    ));
                }
            } else {
                remaining.push(clone_session(&self.flush_sessions[i]));
                proof {
                    assert(remaining.deep_view() =~= crate::sessions::unmatched_views(
                        pre.flush_views().take(i + 1),
                        fv,
                    ));
                }
            }
            i = i + 1;
        }
        proof {
            crate::sessions::lemma_take_full(pre.flush_views());
        }
        self.flush_sessions = remaining;
        proof {
            if pre.store_ok() {
                crate::sessions::lemma_unmatched_props(pre.kept_views(), pre.flush_views(), fv);
            }
            if pre.wf() {
                crate::sessions::lemma_filtered_membership(pre.flush_views(), fv);
                crate::sessions::lemma_filtered_none_empty(
                    crate::sessions::unmatched_views(pre.flush_views(), fv),
                    fv,
                );
            }
        }
        removed
    }

    /// After clearing one digit from both buckets and nothing else, the
    /// invariants carry over and every filtered view keeps its length.
    pub(crate) proof fn lemma_cleared_both(self, pre: Favs, digit: u8)
        requires
            self.kept_views() == cleared_digit(pre.kept_views(), digit),
            self.flush_views() == cleared_digit(pre.flush_views(), digit),
        ensures
            pre.store_ok() ==> (names_distinct(self.all_views()) && numbers_unique(
                self.all_views(),
            ) && numbers_in_range(self.all_views())),
            self.kept_views().len() == pre.kept_views().len(),
            self.flush_views().len() == pre.flush_views().len(),
            filtered_views(self.kept_views(), pre.filter_view()).len() == filtered_views(
                pre.kept_views(),
                pre.filter_view(),
            ).len(),
            filtered_views(self.flush_views(), pre.filter_view()).len() == filtered_views(
                pre.flush_views(),
                pre.filter_view(),
            ).len(),
    {
        let all0 = pre.all_views();
        let after = self.all_views();
        assert(after =~= cleared_digit(all0, digit));
        assert forall|j: int| 0 <= j < after.len() implies after[j].name == all0[j].name by {
            assert(after[j] == cleared_digit(all0, digit)[j]);
        }
        if pre.store_ok() {
            assert forall|j1: int, j2: int| 0 <= j1 < j2 < after.len() implies after[j1].name
                != after[j2].name by {
                assert(all0[j1].name != all0[j2].name);
            }
            assert forall|j1: int, j2: int|
                0 <= j1 < j2 < after.len() && after[j1].assigned_number is Some implies after[
                j1
            ].assigned_number != after[j2].assigned_number by {
                assert(after[j1] == cleared_digit(all0, digit)[j1]);
                assert(after[j2] == cleared_digit(all0, digit)[j2]);
                if after[j2].assigned_number is Some {
                    assert(after[j1].assigned_number == all0[j1].assigned_number);
                    assert(after[j2].assigned_number == all0[j2].assigned_number);
                }
            }
            assert forall|j: int| 0 <= j < after.len() implies match #[trigger] after[
                j
            ].assigned_number {
                Some(d) => d <= 9,
                None => true,
            } by {
                assert(after[j] == cleared_digit(all0, digit)[j]);
                if after[j].assigned_number is Some {
                    assert(after[j].assigned_number == all0[j].assigned_number);
                    assert(match all0[j].assigned_number {
                        Some(d) => d <= 9,
                        None => true,
                    });
                }
            }
        }
        assert forall|j: int|
            0 <= j < pre.kept_views().len() implies #[trigger] self.kept_views()[j].name
            == pre.kept_views()[j].name by {}
        assert forall|j: int|
            0 <= j < pre.flush_views().len() implies #[trigger] self.flush_views()[j].name
            == pre.flush_views()[j].name by {}
        lemma_same_names_filtered_len(pre.kept_views(), self.kept_views(), pre.filter_view());
        lemma_same_names_filtered_len(pre.flush_views(), self.flush_views(), pre.filter_view());
    }

    /// Take away the named session's quick-access number, if it has one.
    /// Reports "not found" when no tracked session bears the name.
    pub fn clear_number(&mut self, name: &String) -> (found: bool)
        ensures
            found == exists|j: int|
                0 <= j < old(self).all_views().len() && #[trigger] old(self).all_views()[j].name
                    == name@,
            !found ==> *final(self) == *old(self),
            found ==> exists|i: int|
                {
                    &&& 0 <= i < old(self).all_views().len()
                    &&& #[trigger] old(self).all_views()[i].name == name@
                    &&& (forall|j: int| 0 <= j < i ==> old(self).all_views()[j].name != name@)
                    &&& final(self).all_views() == old(self).all_views().update(
                        i,
                        SessionView { assigned_number: None, ..old(self).all_views()[i] },
                    )
                },
            Favs::same_overlay(*old(self), *final(self)),
            final(self).cursor == old(self).cursor,
            old(self).store_ok() ==> final(self).store_ok(),
            old(self).wf() ==> final(self).wf(),
    {
        let ghost pre = *self;
        let in_kept = find_by_name(&self.fav_sessions, name);
        match in_kept {
            Some(i) => {
                let mut x = clone_session(&self.fav_sessions[i]);
                x.assigned_number = None;
                self.fav_sessions.set(i, x);
                proof {
                    assert(self.kept_views() =~= pre.kept_views().update(
                        i as int,
                        SessionView { assigned_number: None, ..pre.kept_views()[i as int] },
                    ));
                    self.lemma_clear_shape(pre, i as int, true);
                }
                true
            },
            None => {
                let in_flush = find_by_name(&self.flush_sessions, name);
                match in_flush {
                    Some(i) => {
                        let mut x = clone_session(&self.flush_sessions[i]);
                        x.assigned_number = None;
                        self.flush_sessions.set(i, x);
                        proof {
                            assert(self.flush_views() =~= pre.flush_views().update(
                                i as int,
                                SessionView {
                                    assigned_number: None,
                                    ..pre.flush_views()[i as int]
                                },
                            ));
                            self.lemma_clear_shape(pre, i as int, false);
                            assert(pre.all_views()[pre.kept_views().len() + i as int].name
                                == name@);
                        }
                        true
                    },
                    None => {
                        proof {
                            assert forall|j: int|
                                0 <= j < pre.all_views().len() implies pre.all_views()[j].name
                                != name@ by {
                                if j < pre.kept_views().len() {
                                    assert(pre.all_views()[j] == pre.kept_views()[j]);
                                } else {
                                    assert(pre.all_views()[j] == pre.flush_views()[j
                                        - pre.kept_views().len()]);
                                }
                            }
                        }
                        false
                    },
                }
            },
        }
    }

    /// After blanking the number of the session at position `i` of one
    /// bucket, the combined run has the announced shape and the
    /// invariants carry over.
    proof fn lemma_clear_shape(self, pre: Favs, i: int, in_kept: bool)
        requires
            0 <= i,
            in_kept ==> i < pre.kept_views().len() && self.kept_views() == pre.kept_views().update(
                i,
                SessionView { assigned_number: None, ..pre.kept_views()[i] },
            ) && self.flush_views() == pre.flush_views(),
            !in_kept ==> i < pre.flush_views().len() && self.flush_views()
                == pre.flush_views().update(
                i,
                SessionView { assigned_number: None, ..pre.flush_views()[i] },
            ) && self.kept_views() == pre.kept_views(),
            Favs::same_overlay(pre, self),
            self.cursor == pre.cursor,
        ensures
            ({
                let t = if in_kept {
                    i
                } else {
                    pre.kept_views().len() + i
                };
                self.all_views() == pre.all_views().update(
                    t,
                    SessionView { assigned_number: None, ..pre.all_views()[t] },
                )
            }),
            pre.store_ok() ==> self.store_ok(),
            pre.wf() ==> self.wf(),
    {
        let all0 = pre.all_views();
        let t = if in_kept {
            i
        } else {
            pre.kept_views().len() + i
        };
        let after = self.all_views();
        assert(after =~= all0.update(t, SessionView { assigned_number: None, ..all0[t] }));
        assert forall|j: int| 0 <= j < after.len() implies after[j].name == all0[j].name by {}
        if pre.store_ok() {
            assert forall|j1: int, j2: int| 0 <= j1 < j2 < after.len() implies after[j1].name
                != after[j2].name by {
                assert(all0[j1].name != all0[j2].name);
            }
            assert forall|j1: int, j2: int|
                0 <= j1 < j2 < after.len() && after[j1].assigned_number is Some implies after[
                j1
            ].assigned_number != after[j2].assigned_number by {
                assert(after[j1].assigned_number == all0[j1].assigned_number);
                if after[j2].assigned_number is Some {
                    assert(after[j2].assigned_number == all0[j2].assigned_number);
                }
            }
            assert forall|j: int| 0 <= j < after.len() implies match #[trigger] after[
                j
            ].assigned_number {
                Some(d) => d <= 9,
                None => true,
            } by {
                if j != t {
                    assert(after[j] == all0[j]);
                    assert(match all0[j].assigned_number {
                        Some(d) => d <= 9,
                        None => true,
                    });
                }
            }
        }
        if pre.wf() {
            assert forall|j: int|
                0 <= j < pre.kept_views().len() implies pre.kept_views()[j].name
                == self.kept_views()[j].name by {}
            assert forall|j: int|
                0 <= j < pre.flush_views().len() implies pre.flush_views()[j].name
                == self.flush_views()[j].name by {}
            lemma_same_names_filtered_len(pre.kept_views(), self.kept_views(), pre.filter_view());
            lemma_same_names_filtered_len(pre.flush_views(), self.flush_views(), pre.filter_view());
        }
    }
}

impl Favs {
    /// Merge the environment's authoritative snapshot into the
    /// classification: names already kept stay kept, names already in
    /// flush stay there, new names enter flush with no number, and names
    /// the environment no longer reports anywhere are dropped. Counts and
    /// activity are refreshed from the snapshot; quick-access numbers
    /// survive. Reports whether the classification changed.
    pub fn reconcile(
        &mut self,
        live: &Vec<(String, usize, usize)>,
        resurrectable: &Vec<String>,
    ) -> (changed: bool)
        ensures
            final(self).kept_views() == crate::reconcile::merged_kept(
                old(self).kept_views(),
                crate::reconcile::snapshot_entries(live.deep_view(), resurrectable.deep_view()),
            ),
            final(self).flush_views() == crate::reconcile::merged_flush(
                old(self).kept_views(),
                old(self).flush_views(),
                crate::reconcile::snapshot_entries(live.deep_view(), resurrectable.deep_view()),
            ),
            changed == !(final(self).kept_views() == old(self).kept_views() && final(self)
                .flush_views() == old(self).flush_views()),
            Favs::same_overlay(*old(self), *final(self)),
            final(self).cursor_ok(),
            (old(self).wf() && names_distinct(
                crate::reconcile::snapshot_entries(live.deep_view(), resurrectable.deep_view()),
            )) ==> final(self).wf(),
    {
        let ghost pre = *self;
        let ghost entries_spec = crate::reconcile::snapshot_entries(
            live.deep_view(),
            resurrectable.deep_view(),
        );
        let mut entries: Vec<FavSessionInfo> = Vec::new();
        let mut i: usize = 0;
        while i < live.len()
            invariant
                i <= live.len(),
                entries_spec == crate::reconcile::snapshot_entries(
                    live.deep_view(),
                    resurrectable.deep_view(),
                ),
                entries.deep_view().len() == i,
                forall|j: int| 0 <= j < i ==> entries.deep_view()[j] == entries_spec[j],
            decreases live.len() - i,
        {
            let x = FavSessionInfo {
                name: live[i].0.clone(),
                is_active: true,
                assigned_number: None,
                tabs: live[i].1,
                panes: live[i].2,
            };
            entries.push(x);
            proof {
                assert(entries.deep_view()[i as int] == entries_spec[i as int]);
            }
            i = i + 1;
        }
        let mut j: usize = 0;
        while j < resurrectable.len()
            invariant
                j <= resurrectable.len(),
                entries_spec == crate::reconcile::snapshot_entries(
                    live.deep_view(),
                    resurrectable.deep_view(),
                ),
                entries.deep_view().len() == live.len() + j,
                forall|m: int| 0 <= m < live.len() + j ==> entries.deep_view()[m] == entries_spec[m],
            decreases resurrectable.len() - j,
        {
            let x = FavSessionInfo {
                name: resurrectable[j].clone(),
                is_active: false,
                assigned_number: None,
                tabs: 0,
                panes: 0,
            };
            entries.push(x);
            proof {
                assert(entries.deep_view()[live.len() + j as int] == entries_spec[live.len()
                    + j as int]);
            }
            j = j + 1;
        }
        proof {
            assert(entries.deep_view() =~= entries_spec);
        }

        let mut new_kept: Vec<FavSessionInfo> = Vec::new();
        let mut new_flush: Vec<FavSessionInfo> = Vec::new();
        let mut t: usize = 0;
        while t < entries.len()
            invariant
                t <= entries.len(),
                entries_spec == crate::reconcile::snapshot_entries(
                    live.deep_view(),
                    resurrectable.deep_view(),
                ),
                entries.deep_view() == entries_spec,
                entries.len() == entries_spec.len(),
                *self == pre,
                new_kept.deep_view() == crate::reconcile::merged_kept(
                    pre.kept_views(),
                    entries_spec.take(t as int),
                ),
                new_flush.deep_view() == crate::reconcile::merged_flush(
                    pre.kept_views(),
                    pre.flush_views(),
                    entries_spec.take(t as int),
                ),
            decreases entries.len() - t,
        {
            let ghost e = entries_spec[t as int];
            proof {
                assert(entries_spec.take(t + 1).drop_last() =~= entries_spec.take(t as int));
                assert(entries_spec.take(t + 1).last() == e);
            }
            match find_by_name(&self.fav_sessions, &entries[t].name) {
                Some(k) => {
                    proof {
                        crate::reconcile::lemma_find_session_at(pre.kept_views(), e.name, k as int);
                    }
                    let mut x = clone_session(&entries[t]);
                    x.assigned_number = self.fav_sessions[k].assigned_number;
                    new_kept.push(x);
                    proof {
                        assert(x@ == crate::reconcile::refreshed(pre.kept_views()[k as int], e));
                        assert(new_kept.deep_view() =~= crate::reconcile::merged_kept(
                            pre.kept_views(),
                            entries_spec.take(t + 1),
                        ));
                        assert(new_flush.deep_view() == crate::reconcile::merged_flush(
                            pre.kept_views(),
                            pre.flush_views(),
                            entries_spec.take(t + 1),
                        ));
                    }
                },
                None => {
                    proof {
                        crate::reconcile::lemma_find_session_none(pre.kept_views(), e.name);
                    }
                    match find_by_name(&self.flush_sessions, &entries[t].name) {
                        Some(k) => {
                            proof {
                                crate::reconcile::lemma_find_session_at(
                                    pre.flush_views(),
                                    e.name,
                                    k as int,
                                );
                            }
                            let mut x = clone_session(&entries[t]);
                            x.assigned_number = self.flush_sessions[k].assigned_number;
                            new_flush.push(x);
                            proof {
                                assert(x@ == crate::reconcile::refreshed(
                                    pre.flush_views()[k as int],
                                    e,
                                ));
                                assert(new_flush.deep_view()
                                    =~= crate::reconcile::merged_flush(
                                    pre.kept_views(),
                                    pre.flush_views(),
                                    entries_spec.take(t + 1),
                                ));
                                assert(new_kept.deep_view() == crate::reconcile::merged_kept(
                                    pre.kept_views(),
                                    entries_spec.take(t + 1),
                                ));
                            }
                        },
                        None => {
                            proof {
                                crate::reconcile::lemma_find_session_none(
                                    pre.flush_views(),
                                    e.name,
                                );
                            }
                            let x = clone_session(&entries[t]);
                            new_flush.push(x);
                            proof {
                                crate::reconcile::lemma_snapshot_entries_numbers(
                                    live.deep_view(),
                                    resurrectable.deep_view(),
                                );
                                assert(crate::reconcile::snapshot_entries(
                                    live.deep_view(),
                                    resurrectable.deep_view(),
                                )[t as int].assigned_number is None);
                                assert(e.assigned_number is None);
                                assert(crate::reconcile::freshened(e) == e);
                                assert(new_flush.deep_view()
                                    =~= crate::reconcile::merged_flush(
                                    pre.kept_views(),
                                    pre.flush_views(),
                                    entries_spec.take(t + 1),
                                ));
                                assert(new_kept.deep_view() == crate::reconcile::merged_kept(
                                    pre.kept_views(),
                                    entries_spec.take(t + 1),
                                ));
                            }
                        },
                    }
                },
            }
            t = t + 1;
        }
        proof {
            assert(entries_spec.take(entries_spec.len() as int) =~= entries_spec);
        }
        let kept_same = crate::sessions::sessions_equal(&self.fav_sessions, &new_kept);
        let flush_same = crate::sessions::sessions_equal(&self.flush_sessions, &new_flush);
        let changed = !(kept_same && flush_same);
        self.fav_sessions = new_kept;
        self.flush_sessions = new_flush;
        proof {
            if pre.wf() && names_distinct(entries_spec) {
                crate::reconcile::lemma_merged_props(
                    pre.kept_views(),
                    pre.flush_views(),
                    entries_spec,
                );
            }
        }
        self.clamp_cursor();
        changed
    }
}

impl Favs {
    /// Route one keystroke to the handler for the current mode.
    pub fn match_key(&mut self, key: &crate::host::BareKey) -> (out: crate::host::KeyOutcome)
        ensures
            old(self).mode is Filter ==> crate::filter::filter_effect(
                *old(self),
                *key,
                *final(self),
                out,
            ),
            old(self).mode is Help ==> crate::help::help_effect(
                *old(self),
                *key,
                *final(self),
                out,
            ),
            old(self).mode is AssignNumber ==> crate::assign_number::assign_effect(
                *old(self),
                *key,
                *final(self),
                out,
            ),
            (old(self).mode is NavigateFavs || old(self).mode is NavigateFlush)
                ==> crate::navigate::navigation_effect(*old(self), *key, *final(self), out),
            old(self).wf() ==> final(self).wf(),
    {
        match self.mode {
            FavMode::Filter => crate::filter::match_filter_key(self, key),
            FavMode::Help => crate::help::match_help_keys(self, key),
            FavMode::AssignNumber => crate::assign_number::match_assignation_keys(self, key),
            _ => crate::navigate::match_navigation_keys(self, key),
        }
    }

    /// Whether a pair of bucket lists satisfies the store invariant:
    /// distinct names and single-digit numbers held at most once.
    pub fn snapshot_valid(favs: &Vec<FavSessionInfo>, flush: &Vec<FavSessionInfo>) -> (r: bool)
        ensures
            r == (names_distinct(favs.deep_view() + flush.deep_view()) && numbers_unique(
                favs.deep_view() + flush.deep_view(),
            ) && numbers_in_range(favs.deep_view() + flush.deep_view())),
    {
        let ghost all = favs.deep_view() + flush.deep_view();
        let mut combined: Vec<FavSessionInfo> = clone_sessions(favs);
        let mut rest: Vec<FavSessionInfo> = clone_sessions(flush);
        let mut k: usize = 0;
        while k < rest.len()
            invariant
                k <= rest.len(),
                rest.deep_view() == flush.deep_view(),
                rest.len() == flush.deep_view().len(),
                combined.deep_view() == favs.deep_view() + flush.deep_view().take(k as int),
            decreases rest.len() - k,
        {
            let ghost prev = combined.deep_view();
            combined.push(clone_session(&rest[k]));
            proof {
                assert(combined.deep_view() =~= prev.push(flush.deep_view()[k as int]));
                assert(prev.push(flush.deep_view()[k as int]) =~= favs.deep_view()
                    + flush.deep_view().take(k + 1));
            }
            k = k + 1;
        }
        proof {
            assert(flush.deep_view().take(flush.deep_view().len() as int) =~= flush.deep_view());
            assert(combined.deep_view() == all);
        }
        let n = combined.len();
        let mut i: usize = 0;
        while i < n
            invariant
                all == favs.deep_view() + flush.deep_view(),
                n == combined.len(),
                combined.deep_view() == all,
                i <= n,
                forall|a: int, b: int| 0 <= a < b < all.len() && a < i ==> all[a].name != all[b].name,
                forall|a: int, b: int|
                    0 <= a < b < all.len() && a < i && all[a].assigned_number is Some
                        ==> all[a].assigned_number != all[b].assigned_number,
                forall|a: int|
                    0 <= a < i ==> match #[trigger] all[a].assigned_number {
                        Some(d) => d <= 9,
                        None => true,
                    },
            decreases n - i,
        {
            let in_range = match combined[i].assigned_number {
                Some(d) => d <= 9,
                None => true,
            };
            if !in_range {
                proof {
                    assert(all[i as int] == combined@[i as int]@);
                    assert(!numbers_in_range(all)) by {
                        if numbers_in_range(all) {
                            assert(match all[i as int].assigned_number {
                                Some(d) => d <= 9,
                                None => true,
                            });
                        }
                    }
                }
                return false;
            }
            let mut j: usize = i + 1;
            while j < n
                invariant
                    all == favs.deep_view() + flush.deep_view(),
                    n == combined.len(),
                    combined.deep_view() == all,
                    i < j <= n,
                    i < n,
                    forall|b: int| i < b < j ==> all[i as int].name != all[b].name,
                    forall|b: int|
                        i < b < j && all[i as int].assigned_number is Some ==> all[
                            i as int
                        ].assigned_number != all[b].assigned_number,
                decreases n - j,
            {
                if combined[i].name == combined[j].name {
                    proof {
                        assert(all[i as int] == combined@[i as int]@);
                        assert(all[j as int] == combined@[j as int]@);
                        assert(!names_distinct(all)) by {
                            if names_distinct(all) {
                                assert(all[i as int].name != all[j as int].name);
                            }
                        }
                    }
                    return false;
                }
                let numbers_clash = match (combined[i].assigned_number, combined[j].assigned_number) {
                    (Some(x), Some(y)) => x == y,
                    _ => false,
                };
                if numbers_clash {
                    proof {
                        assert(all[i as int] == combined@[i as int]@);
                        assert(all[j as int] == combined@[j as int]@);
                        assert(!numbers_unique(all)) by {
                            if numbers_unique(all) {
                                assert(all[i as int].assigned_number
                                    != all[j as int].assigned_number);
                            }
                        }
                    }
                    return false;
                }
                j = j + 1;
            }
            i = i + 1;
        }
        true
    }

    /// Replace the classification with a snapshot read from persistent
    /// storage, provided it satisfies the store invariant; fall back to
    /// the current classification otherwise. Either way the instance now
    /// counts as loaded and the cursor is pulled back into view.
    pub fn apply_snapshot(
        &mut self,
        favs: Vec<FavSessionInfo>,
        flush: Vec<FavSessionInfo>,
    ) -> (ok: bool)
        ensures
            ok == (names_distinct(favs.deep_view() + flush.deep_view()) && numbers_unique(
                favs.deep_view() + flush.deep_view(),
            ) && numbers_in_range(favs.deep_view() + flush.deep_view())),
            ok ==> final(self).kept_views() == favs.deep_view() && final(self).flush_views()
                == flush.deep_view(),
            !ok ==> final(self).fav_sessions == old(self).fav_sessions && final(self).flush_sessions
                == old(self).flush_sessions,
            final(self).has_loaded == true,
            final(self).mode == old(self).mode,
            final(self).current_column == old(self).current_column,
            final(self).filter == old(self).filter,
            final(self).cache_dir == old(self).cache_dir,
            final(self).cursor_ok(),
            old(self).wf() ==> final(self).wf(),
    {
        let ok = Favs::snapshot_valid(&favs, &flush);
        if ok {
            self.fav_sessions = favs;
            self.flush_sessions = flush;
        }
        self.has_loaded = true;
        self.clamp_cursor();
        ok
    }
}

/// The persisted shape of the classification: the two buckets by name.
pub struct FavsJson {
    pub favs: Vec<FavSessionInfo>,
    pub flush: Vec<FavSessionInfo>,
}

impl Favs {
    /// The classification as a persistable snapshot.
    pub fn snapshot(&self) -> (r: FavsJson)
        ensures
            r.favs.deep_view() == self.kept_views(),
            r.flush.deep_view() == self.flush_views(),
    {
        FavsJson {
            favs: clone_sessions(&self.fav_sessions),
            flush: clone_sessions(&self.flush_sessions),
        }
    }

    /// The two buckets as the operator currently sees them, kept first.
    pub fn get_filtered_sessions(&self) -> (r: (Vec<FavSessionInfo>, Vec<FavSessionInfo>))
        ensures
            r.0.deep_view() == self.filtered_kept(),
            r.1.deep_view() == self.filtered_flush(),
    {
        (
            crate::sessions::filter_sessions(&self.fav_sessions, &self.filter),
            crate::sessions::filter_sessions(&self.flush_sessions, &self.filter),
        )
    }
}

} // verus!
