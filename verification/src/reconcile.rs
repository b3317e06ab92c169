//! Reconciliation: merging the environment's authoritative session
//! snapshot into the persisted classification while preserving prior
//! bucket membership and quick-access numbers.
use vstd::prelude::*;

use crate::sessions::names_distinct;
use crate::SessionView;

verus! {

/// A snapshot entry refreshed against a previously tracked session: the
/// entry's live data, the prior session's quick-access number.
pub open spec fn refreshed(prior: SessionView, e: SessionView) -> SessionView {
    SessionView { assigned_number: prior.assigned_number, ..e }
}

/// A snapshot entry first seen now: tracked with no quick-access number.
pub open spec fn freshened(e: SessionView) -> SessionView {
    SessionView { assigned_number: None, ..e }
}

/// The first session of `s` bearing `name`, scanning from the front.
pub open spec fn find_session(s: Seq<SessionView>, name: Seq<char>) -> Option<SessionView>
    decreases s.len(),
{
    if s.len() == 0 {
        None
    } else if s[0].name == name {
        Some(s[0])
    } else {
        find_session(s.drop_first(), name)
    }
}

/// Some entry of `entries` bears `name`.
pub open spec fn entry_exists(entries: Seq<SessionView>, name: Seq<char>) -> bool {
    exists|m: int| 0 <= m < entries.len() && #[trigger] entries[m].name == name
}

/// The kept bucket after a snapshot arrives: the snapshot entries that
/// were already kept, in snapshot order, refreshed in place.
pub open spec fn merged_kept(kept: Seq<SessionView>, entries: Seq<SessionView>) -> Seq<SessionView>
    decreases entries.len(),
{
    if entries.len() == 0 {
        Seq::empty()
    } else {
        let rest = merged_kept(kept, entries.drop_last());
        match find_session(kept, entries.last().name) {
            Some(prior) => rest.push(refreshed(prior, entries.last())),
            None => rest,
        }
    }
}

/// The flush bucket after a snapshot arrives: the snapshot entries that
/// were not kept, in snapshot order — refreshed where they were already
/// in flush, tracked fresh otherwise.
pub open spec fn merged_flush(
    kept: Seq<SessionView>,
    flush: Seq<SessionView>,
    entries: Seq<SessionView>,
) -> Seq<SessionView>
    decreases entries.len(),
{
    if entries.len() == 0 {
        Seq::empty()
    } else {
        let rest = merged_flush(kept, flush, entries.drop_last());
        let e = entries.last();
        if find_session(kept, e.name) is Some {
            rest
        } else {
            match find_session(flush, e.name) {
                Some(prior) => rest.push(refreshed(prior, e)),
                None => rest.push(freshened(e)),
            }
        }
    }
}

/// The environment snapshot as a run of entries: live sessions first
/// (active, with their counts), then resurrectable names (inactive, zero
/// counts). Assigned numbers in entries are blank.
pub open spec fn snapshot_entries(
    live: Seq<(Seq<char>, usize, usize)>,
    resurrectable: Seq<Seq<char>>,
) -> Seq<SessionView> {
    live.map_values(
        |t: (Seq<char>, usize, usize)|
            SessionView {
                name: t.0,
                is_active: true,
                assigned_number: None,
                tabs: t.1,
                panes: t.2,
            },
    ) + resurrectable.map_values(
        |n: Seq<char>|
            SessionView { name: n, is_active: false, assigned_number: None, tabs: 0, panes: 0 },
    )
}

/// Snapshot entries never carry a quick-access number of their own.
pub proof fn lemma_snapshot_entries_numbers(
    live: Seq<(Seq<char>, usize, usize)>,
    resurrectable: Seq<Seq<char>>,
)
    ensures
        forall|m: int|
            0 <= m < snapshot_entries(live, resurrectable).len() ==> (#[trigger] snapshot_entries(
                live,
                resurrectable,
            )[m].assigned_number) is None,
{
    let s = snapshot_entries(live, resurrectable);
    assert forall|m: int| 0 <= m < s.len() implies (#[trigger] s[m].assigned_number) is None by {
        if m < live.len() {
            assert(s[m] == live.map_values(
                |t: (Seq<char>, usize, usize)|
                    SessionView {
                        name: t.0,
                        is_active: true,
                        assigned_number: None,
                        tabs: t.1,
                        panes: t.2,
                    },
            )[m]);
        } else {
            assert(s[m] == resurrectable.map_values(
                |n: Seq<char>|
                    SessionView {
                        name: n,
                        is_active: false,
                        assigned_number: None,
                        tabs: 0,
                        panes: 0,
                    },
            )[m - live.len()]);
        }
    }
}

/// `find_session` finds the first index whose name matches.
pub proof fn lemma_find_session_at(s: Seq<SessionView>, name: Seq<char>, i: int)
    requires
        0 <= i < s.len(),
        s[i].name == name,
        forall|j: int| 0 <= j < i ==> s[j].name != name,
    ensures
        find_session(s, name) == Some(s[i]),
    decreases i,
{
    if i > 0 {
        assert forall|j: int| 0 <= j < i - 1 implies s.drop_first()[j].name != name by {
            assert(s.drop_first()[j] == s[j + 1]);
        }
        assert(s.drop_first()[i - 1] == s[i]);
        lemma_find_session_at(s.drop_first(), name, i - 1);
    }
}

/// Where no name matches, `find_session` finds nothing.
pub proof fn lemma_find_session_none(s: Seq<SessionView>, name: Seq<char>)
    requires
        forall|j: int| 0 <= j < s.len() ==> s[j].name != name,
    ensures
        find_session(s, name) is None,
    decreases s.len(),
{
    if s.len() > 0 {
        assert forall|j: int| 0 <= j < s.drop_first().len() implies s.drop_first()[j].name
            != name by {
            assert(s.drop_first()[j] == s[j + 1]);
        }
        lemma_find_session_none(s.drop_first(), name);
    }
}

/// What `find_session` returns is an entry of the run, bears the sought
/// name, and is the first such entry.
pub proof fn lemma_find_session_some(s: Seq<SessionView>, name: Seq<char>)
    requires
        find_session(s, name) is Some,
    ensures
        exists|i: int|
            0 <= i < s.len() && #[trigger] s[i] == find_session(s, name).unwrap()
                && s[i].name == name,
    decreases s.len(),
{
    if s.len() > 0 {
        if s[0].name == name {
            assert(s[0] == find_session(s, name).unwrap());
        } else {
            lemma_find_session_some(s.drop_first(), name);
            let i = choose|i: int|
                0 <= i < s.drop_first().len() && #[trigger] s.drop_first()[i] == find_session(
                    s.drop_first(),
                    name,
                ).unwrap() && s.drop_first()[i].name == name;
            assert(s[i + 1] == find_session(s, name).unwrap());
        }
    }
}

/// `find_session` over a run extended at the back: the front finds first.
pub proof fn lemma_find_session_push(s: Seq<SessionView>, x: SessionView, name: Seq<char>)
    ensures
        find_session(s.push(x), name) == if find_session(s, name) is Some {
            find_session(s, name)
        } else if x.name == name {
            Some(x)
        } else {
            None::<SessionView>
        },
    decreases s.len(),
{
    if s.len() == 0 {
        assert(s.push(x)[0] == x);
        assert(s.push(x).drop_first() =~= Seq::<SessionView>::empty());
    } else {
        assert(s.push(x)[0] == s[0]);
        assert(s.push(x).drop_first() =~= s.drop_first().push(x));
        lemma_find_session_push(s.drop_first(), x, name);
    }
}

/// Every merged record takes its name from a snapshot entry and its
/// quick-access number, where it has one, from a previously tracked
/// session of the same name.
pub proof fn lemma_merged_provenance(
    kept: Seq<SessionView>,
    flush: Seq<SessionView>,
    entries: Seq<SessionView>,
)
    ensures
        forall|j: int|
            0 <= j < merged_kept(kept, entries).len() ==> entry_exists(
                entries,
                #[trigger] merged_kept(kept, entries)[j].name,
            ),
        forall|j: int|
            0 <= j < merged_kept(kept, entries).len() && #[trigger] merged_kept(
                kept,
                entries,
            )[j].assigned_number is Some ==> exists|p: int|
                0 <= p < (kept + flush).len() && #[trigger] (kept + flush)[p].name == merged_kept(
                    kept,
                    entries,
                )[j].name && (kept + flush)[p].assigned_number == merged_kept(
                    kept,
                    entries,
                )[j].assigned_number,
        forall|j: int|
            0 <= j < merged_flush(kept, flush, entries).len() ==> entry_exists(
                entries,
                #[trigger] merged_flush(kept, flush, entries)[j].name,
            ),
        forall|j: int|
            0 <= j < merged_flush(kept, flush, entries).len() && #[trigger] merged_flush(
                kept,
                flush,
                entries,
            )[j].assigned_number is Some ==> exists|p: int|
                0 <= p < (kept + flush).len() && #[trigger] (kept + flush)[p].name == merged_flush(
                    kept,
                    flush,
                    entries,
                )[j].name && (kept + flush)[p].assigned_number == merged_flush(
                    kept,
                    flush,
                    entries,
                )[j].assigned_number,
    decreases entries.len(),
{
    if entries.len() > 0 {
        let b = entries.drop_last();
        let e = entries.last();
        lemma_merged_provenance(kept, flush, b);
        let kb = merged_kept(kept, b);
        let fb = merged_flush(kept, flush, b);
        let kk = merged_kept(kept, entries);
        let ff = merged_flush(kept, flush, entries);
        assert(entries[entries.len() - 1] == e);
        assert forall|j: int| 0 <= j < kk.len() implies entry_exists(
            entries,
            #[trigger] kk[j].name,
        ) by {
            if j < kb.len() {
                assert(kk[j] == kb[j]);
                assert(entry_exists(b, kb[j].name));
                let m = choose|m: int| 0 <= m < b.len() && #[trigger] b[m].name == kb[j].name;
                assert(entries[m].name == kk[j].name);
            } else {
                assert(kk[j].name == e.name);
                assert(entries[entries.len() - 1].name == kk[j].name);
            }
        }
        assert forall|j: int|
            0 <= j < kk.len() && #[trigger] kk[j].assigned_number is Some implies exists|p: int|
            0 <= p < (kept + flush).len() && #[trigger] (kept + flush)[p].name == kk[j].name && (
            kept + flush)[p].assigned_number == kk[j].assigned_number by {
            if j < kb.len() {
                assert(kk[j] == kb[j]);
            } else {
                let r = find_session(kept, e.name).unwrap();
                assert(kk[j] == refreshed(r, e));
                lemma_find_session_some(kept, e.name);
                let i = choose|i: int|
                    0 <= i < kept.len() && #[trigger] kept[i] == find_session(kept, e.name).unwrap()
                        && kept[i].name == e.name;
                assert((kept + flush)[i] == kept[i]);
                assert((kept + flush)[i].name == kk[j].name);
                assert((kept + flush)[i].assigned_number == kk[j].assigned_number);
            }
        }
        assert forall|j: int| 0 <= j < ff.len() implies entry_exists(
            entries,
            #[trigger] ff[j].name,
        ) by {
            if j < fb.len() {
                assert(ff[j] == fb[j]);
                assert(entry_exists(b, fb[j].name));
                let m = choose|m: int| 0 <= m < b.len() && #[trigger] b[m].name == fb[j].name;
                assert(entries[m].name == ff[j].name);
            } else {
                assert(ff[j].name == e.name);
                assert(entries[entries.len() - 1].name == ff[j].name);
            }
        }
        assert forall|j: int|
            0 <= j < ff.len() && #[trigger] ff[j].assigned_number is Some implies exists|p: int|
            0 <= p < (kept + flush).len() && #[trigger] (kept + flush)[p].name == ff[j].name && (
            kept + flush)[p].assigned_number == ff[j].assigned_number by {
            if j < fb.len() {
                assert(ff[j] == fb[j]);
            } else {
                if find_session(flush, e.name) is Some {
                    let r = find_session(flush, e.name).unwrap();
                    assert(ff[j] == refreshed(r, e));
                    lemma_find_session_some(flush, e.name);
                    let i = choose|i: int|
                        0 <= i < flush.len() && #[trigger] flush[i] == find_session(
                            flush,
                            e.name,
                        ).unwrap() && flush[i].name == e.name;
                    assert((kept + flush)[kept.len() + i] == flush[i]);
                    assert((kept + flush)[kept.len() + i].name == ff[j].name);
                    assert((kept + flush)[kept.len() + i].assigned_number == ff[
                        j
                    ].assigned_number);
                } else {
                    assert(ff[j] == freshened(e));
                    assert(ff[j].assigned_number is None);
                }
            }
        }
    }
}

/// Distinct snapshot names give a merged classification with distinct
/// names across both buckets.
pub proof fn lemma_merged_names_distinct(
    kept: Seq<SessionView>,
    flush: Seq<SessionView>,
    entries: Seq<SessionView>,
)
    requires
        names_distinct(entries),
    ensures
        names_distinct(merged_kept(kept, entries) + merged_flush(kept, flush, entries)),
    decreases entries.len(),
{
    let kk = merged_kept(kept, entries);
    let ff = merged_flush(kept, flush, entries);
    if entries.len() == 0 {
        assert(kk + ff =~= Seq::<SessionView>::empty());
    } else {
        let b = entries.drop_last();
        let e = entries.last();
        assert forall|i: int, j: int| 0 <= i < j < b.len() implies b[i].name != b[j].name by {
            assert(b[i] == entries[i]);
            assert(b[j] == entries[j]);
        }
        lemma_merged_names_distinct(kept, flush, b);
        lemma_merged_provenance(kept, flush, b);
        let kb = merged_kept(kept, b);
        let fb = merged_flush(kept, flush, b);
        assert(entries[entries.len() - 1] == e);
        assert forall|j: int| 0 <= j < (kb + fb).len() implies (kb + fb)[j].name != e.name by {
            if j < kb.len() {
                assert((kb + fb)[j] == kb[j]);
                assert(entry_exists(b, kb[j].name));
                let m = choose|m: int| 0 <= m < b.len() && #[trigger] b[m].name == kb[j].name;
                assert(entries[m].name == kb[j].name);
                assert(entries[m].name != entries[entries.len() - 1].name);
            } else {
                assert((kb + fb)[j] == fb[j - kb.len()]);
                assert(entry_exists(b, fb[j - kb.len()].name));
                let m = choose|m: int|
                    0 <= m < b.len() && #[trigger] b[m].name == fb[j - kb.len()].name;
                assert(entries[m].name == fb[j - kb.len()].name);
                assert(entries[m].name != entries[entries.len() - 1].name);
            }
        }
        if find_session(kept, e.name) is Some {
            let x = refreshed(find_session(kept, e.name).unwrap(), e);
            assert(kk == kb.push(x));
            assert(ff == fb);
            assert forall|i: int, j: int| 0 <= i < j < (kk + ff).len() implies (kk + ff)[i].name
                != (kk + ff)[j].name by {
                let old_i: int = if i < kb.len() {
                    i
                } else if i == kb.len() {
                    -1
                } else {
                    i - 1
                };
                let old_j: int = if j < kb.len() {
                    j
                } else if j == kb.len() {
                    -1
                } else {
                    j - 1
                };
                if old_i >= 0 {
                    assert((kk + ff)[i] == (kb + fb)[old_i]);
                } else {
                    assert((kk + ff)[i] == x);
                }
                if old_j >= 0 {
                    assert((kk + ff)[j] == (kb + fb)[old_j]);
                } else {
                    assert((kk + ff)[j] == x);
                }
                if old_i >= 0 && old_j >= 0 {
                    if old_i < old_j {
                        assert((kb + fb)[old_i].name != (kb + fb)[old_j].name);
                    } else {
                        assert((kb + fb)[old_j].name != (kb + fb)[old_i].name);
                    }
                } else if old_i >= 0 {
                    assert((kb + fb)[old_i].name != e.name);
                } else {
                    assert((kb + fb)[old_j].name != e.name);
                }
            }
        } else {
            let y = if find_session(flush, e.name) is Some {
                refreshed(find_session(flush, e.name).unwrap(), e)
            } else {
                freshened(e)
            };
            assert(kk == kb);
            assert(ff == fb.push(y));
            assert(kk + ff =~= (kb + fb).push(y));
            assert forall|i: int, j: int| 0 <= i < j < (kk + ff).len() implies (kk + ff)[i].name
                != (kk + ff)[j].name by {
                if j < (kk + ff).len() - 1 {
                    assert((kk + ff)[i] == (kb + fb)[i]);
                    assert((kk + ff)[j] == (kb + fb)[j]);
                } else {
                    assert((kk + ff)[i] == (kb + fb)[i]);
                    assert((kk + ff)[j] == y);
                    assert((kb + fb)[i].name != e.name);
                }
            }
        }
    }
}

/// Reconciling a well-formed store against a snapshot with distinct names
/// yields a well-formed store.
pub proof fn lemma_merged_props(
    kept: Seq<SessionView>,
    flush: Seq<SessionView>,
    entries: Seq<SessionView>,
)
    requires
        names_distinct(entries),
        names_distinct(kept + flush),
        crate::sessions::numbers_unique(kept + flush),
        crate::sessions::numbers_in_range(kept + flush),
    ensures
        names_distinct(merged_kept(kept, entries) + merged_flush(kept, flush, entries)),
        crate::sessions::numbers_unique(
            merged_kept(kept, entries) + merged_flush(kept, flush, entries),
        ),
        crate::sessions::numbers_in_range(
            merged_kept(kept, entries) + merged_flush(kept, flush, entries),
        ),
{
    lemma_merged_names_distinct(kept, flush, entries);
    lemma_merged_provenance(kept, flush, entries);
    let kk = merged_kept(kept, entries);
    let ff = merged_flush(kept, flush, entries);
    let out = kk + ff;
    assert forall|j1: int, j2: int|
        0 <= j1 < j2 < out.len() && out[j1].assigned_number is Some implies out[
        j1
    ].assigned_number != out[j2].assigned_number by {
        if out[j2].assigned_number is Some {
            if j1 < kk.len() {
                assert(out[j1] == kk[j1]);
            } else {
                assert(out[j1] == ff[j1 - kk.len()]);
            }
            if j2 < kk.len() {
                assert(out[j2] == kk[j2]);
            } else {
                assert(out[j2] == ff[j2 - kk.len()]);
            }
            let p1 = choose|p: int|
                0 <= p < (kept + flush).len() && #[trigger] (kept + flush)[p].name == out[j1].name
                    && (kept + flush)[p].assigned_number == out[j1].assigned_number;
            let p2 = choose|p: int|
                0 <= p < (kept + flush).len() && #[trigger] (kept + flush)[p].name == out[j2].name
                    && (kept + flush)[p].assigned_number == out[j2].assigned_number;
            assert(out[j1].name != out[j2].name);
            assert(p1 != p2);
            if p1 < p2 {
                assert((kept + flush)[p1].assigned_number != (kept + flush)[p2].assigned_number);
            } else {
                assert((kept + flush)[p2].assigned_number != (kept + flush)[p1].assigned_number);
            }
        }
    }
    assert forall|j: int| 0 <= j < out.len() implies match #[trigger] out[j].assigned_number {
        Some(d) => d <= 9,
        None => true,
    } by {
        if j < kk.len() {
            assert(out[j] == kk[j]);
        } else {
            assert(out[j] == ff[j - kk.len()]);
        }
        if out[j].assigned_number is Some {
            let p = choose|p: int|
                0 <= p < (kept + flush).len() && #[trigger] (kept + flush)[p].name == out[j].name
                    && (kept + flush)[p].assigned_number == out[j].assigned_number;
            assert(match (kept + flush)[p].assigned_number {
                Some(d) => d <= 9,
                None => true,
            });
        }
    }
}

} // verus!
