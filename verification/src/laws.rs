//! The library's cross-operation laws, stated and proved over the same
//! spec functions that the operations' contracts use.
use vstd::prelude::*;

use crate::navigate::moves_nth_match;
use crate::reconcile::{
    entry_exists, find_session, freshened, lemma_find_session_push, merged_flush, merged_kept,
    refreshed,
};
use crate::sessions::{
    cleared_digit, filtered_views, lemma_names_multiset_transfer, lemma_transfer_props,
    names_distinct, names_of, numbers_in_range, numbers_unique,
};
use crate::text_match::matches_filter;
use crate::SessionView;

verus! {

/// Moving the cursored session between buckets keeps the union of names a
/// partition: no name is lost, none duplicated, and the uniqueness
/// invariants carry over — so any sequence of moves does the same.
pub proof fn lemma_move_preserves_partition(
    from: Seq<SessionView>,
    to: Seq<SessionView>,
    post_from: Seq<SessionView>,
    post_to: Seq<SessionView>,
    f: Option<Seq<char>>,
    k: int,
)
    requires
        moves_nth_match(from, to, post_from, post_to, f, k),
        names_distinct(from + to),
        numbers_unique(from + to),
        numbers_in_range(from + to),
    ensures
        names_of(post_from + post_to).to_multiset() == names_of(from + to).to_multiset(),
        names_distinct(post_from + post_to),
        numbers_unique(post_from + post_to),
        numbers_in_range(post_from + post_to),
{
    let u = choose|u: int|
        {
            &&& 0 <= u < from.len()
            &&& matches_filter(#[trigger] from[u].name, f)
            &&& filtered_views(from.take(u), f).len() == k
            &&& post_from == from.remove(u)
            &&& post_to == to.push(from[u])
        };
    lemma_names_multiset_transfer(from, to, u);
    lemma_transfer_props(from, to, u);
}

/// A run after one quick-number assignment: the digit is cleared
/// everywhere, then handed to the session at position `i`.
pub open spec fn assigned_at(s: Seq<SessionView>, i: int, d: u8) -> Seq<SessionView> {
    cleared_digit(s, d).update(i, SessionView { assigned_number: Some(d), ..s[i] })
}

/// Assigning a digit to one session and then to another leaves exactly
/// the second session holding the digit, and the first holding none: the
/// digit's holder is unique after any such pair of assignments.
pub proof fn lemma_assign_digit_moves(s: Seq<SessionView>, i1: int, i2: int, d: u8)
    requires
        0 <= i1 < s.len(),
        0 <= i2 < s.len(),
    ensures
        ({
            let s2 = assigned_at(assigned_at(s, i1, d), i2, d);
            &&& s2[i2].assigned_number == Some(d)
            &&& (forall|j: int|
                0 <= j < s2.len() && j != i2 ==> #[trigger] s2[j].assigned_number != Some(d))
            &&& (i1 != i2 ==> s2[i1].assigned_number is None)
        }),
{
    let s1 = assigned_at(s, i1, d);
    let s2 = assigned_at(s1, i2, d);
    assert(s2[i2].assigned_number == Some(d));
    assert forall|j: int|
        0 <= j < s2.len() && j != i2 implies #[trigger] s2[j].assigned_number != Some(d) by {
        assert(s2[j] == cleared_digit(s1, d)[j]);
    }
    if i1 != i2 {
        assert(s1[i1].assigned_number == Some(d));
        assert(s2[i1] == cleared_digit(s1, d)[i1]);
    }
}

/// How name lookup behaves on a reconciled kept bucket: a name is found
/// there exactly when the snapshot reports it and it was kept before, and
/// the found record carries the previously assigned number.
pub proof fn lemma_find_in_merged_kept(kept: Seq<SessionView>, entries: Seq<SessionView>, name: Seq<char>)
    ensures
        find_session(merged_kept(kept, entries), name) is Some <==> (entry_exists(entries, name)
            && find_session(kept, name) is Some),
        find_session(merged_kept(kept, entries), name) is Some ==> {
            let found = find_session(merged_kept(kept, entries), name).unwrap();
            found.name == name && found.assigned_number == find_session(
                kept,
                name,
            ).unwrap().assigned_number
        },
    decreases entries.len(),
{
    if entries.len() == 0 {
        assert(!entry_exists(entries, name));
    } else {
        let b = entries.drop_last();
        let e = entries.last();
        lemma_find_in_merged_kept(kept, b, name);
        assert(entries[entries.len() - 1] == e);
        assert(entry_exists(entries, name) <==> (entry_exists(b, name) || e.name == name)) by {
            if entry_exists(entries, name) {
                let m = choose|m: int| 0 <= m < entries.len() && #[trigger] entries[m].name == name;
                if m < b.len() {
                    assert(b[m].name == name);
                } else {
                    assert(e.name == name);
                }
            }
            if entry_exists(b, name) {
                let m = choose|m: int| 0 <= m < b.len() && #[trigger] b[m].name == name;
                assert(entries[m].name == name);
            }
        }
        match find_session(kept, e.name) {
            Some(prior) => {
                let x = refreshed(prior, e);
                assert(merged_kept(kept, entries) == merged_kept(kept, b).push(x));
                lemma_find_session_push(merged_kept(kept, b), x, name);
            },
            None => {
                assert(merged_kept(kept, entries) == merged_kept(kept, b));
            },
        }
    }
}

/// How name lookup behaves on a reconciled flush bucket: a name is found
/// there exactly when the snapshot reports it and it was not kept, and
/// the found record carries the number it had in flush, if any.
pub proof fn lemma_find_in_merged_flush(
    kept: Seq<SessionView>,
    flush: Seq<SessionView>,
    entries: Seq<SessionView>,
    name: Seq<char>,
)
    ensures
        find_session(merged_flush(kept, flush, entries), name) is Some <==> (entry_exists(
            entries,
            name,
        ) && find_session(kept, name) is None),
        find_session(merged_flush(kept, flush, entries), name) is Some ==> {
            let found = find_session(merged_flush(kept, flush, entries), name).unwrap();
            found.name == name && found.assigned_number == (match find_session(flush, name) {
                Some(prior) => prior.assigned_number,
                None => None::<u8>,
            })
        },
    decreases entries.len(),
{
    if entries.len() == 0 {
        assert(!entry_exists(entries, name));
    } else {
        let b = entries.drop_last();
        let e = entries.last();
        lemma_find_in_merged_flush(kept, flush, b, name);
        assert(entries[entries.len() - 1] == e);
        assert(entry_exists(entries, name) <==> (entry_exists(b, name) || e.name == name)) by {
            if entry_exists(entries, name) {
                let m = choose|m: int| 0 <= m < entries.len() && #[trigger] entries[m].name == name;
                if m < b.len() {
                    assert(b[m].name == name);
                } else {
                    assert(e.name == name);
                }
            }
            if entry_exists(b, name) {
                let m = choose|m: int| 0 <= m < b.len() && #[trigger] b[m].name == name;
                assert(entries[m].name == name);
            }
        }
        if find_session(kept, e.name) is Some {
            assert(merged_flush(kept, flush, entries) == merged_flush(kept, flush, b));
        } else {
            let y = match find_session(flush, e.name) {
                Some(prior) => refreshed(prior, e),
                None => freshened(e),
            };
            assert(merged_flush(kept, flush, entries) == merged_flush(kept, flush, b).push(y));
            lemma_find_session_push(merged_flush(kept, flush, b), y, name);
        }
    }
}

/// Reconciling a second time against the same snapshot rebuilds exactly
/// the same buckets, prefix by prefix.
proof fn lemma_merged_again(
    kept: Seq<SessionView>,
    flush: Seq<SessionView>,
    entries: Seq<SessionView>,
    prefix: Seq<SessionView>,
)
    requires
        forall|m: int| 0 <= m < prefix.len() ==> entry_exists(entries, #[trigger] prefix[m].name),
    ensures
        merged_kept(merged_kept(kept, entries), prefix) == merged_kept(kept, prefix),
        merged_flush(
            merged_kept(kept, entries),
            merged_flush(kept, flush, entries),
            prefix,
        ) == merged_flush(kept, flush, prefix),
    decreases prefix.len(),
{
    let k1 = merged_kept(kept, entries);
    let f1 = merged_flush(kept, flush, entries);
    if prefix.len() > 0 {
        let b = prefix.drop_last();
        let e = prefix.last();
        assert forall|m: int| 0 <= m < b.len() implies entry_exists(
            entries,
            #[trigger] b[m].name,
        ) by {
            assert(b[m] == prefix[m]);
        }
        lemma_merged_again(kept, flush, entries, b);
        assert(prefix[prefix.len() - 1] == e);
        assert(entry_exists(entries, e.name));
        lemma_find_in_merged_kept(kept, entries, e.name);
        lemma_find_in_merged_flush(kept, flush, entries, e.name);
        match find_session(kept, e.name) {
            Some(prior) => {
                let x = find_session(k1, e.name).unwrap();
                assert(refreshed(x, e) == refreshed(prior, e));
                assert(merged_kept(k1, prefix) == merged_kept(k1, b).push(refreshed(x, e)));
                assert(merged_kept(kept, prefix) == merged_kept(kept, b).push(refreshed(prior, e)));
                assert(merged_flush(k1, f1, prefix) == merged_flush(k1, f1, b));
                assert(merged_flush(kept, flush, prefix) == merged_flush(kept, flush, b));
            },
            None => {
                assert(find_session(k1, e.name) is None);
                assert(merged_kept(k1, prefix) == merged_kept(k1, b));
                assert(merged_kept(kept, prefix) == merged_kept(kept, b));
                let y = find_session(f1, e.name).unwrap();
                let z = match find_session(flush, e.name) {
                    Some(prior) => refreshed(prior, e),
                    None => freshened(e),
                };
                assert(refreshed(y, e) == z);
                assert(merged_flush(k1, f1, prefix) == merged_flush(k1, f1, b).push(refreshed(y, e)));
                assert(merged_flush(kept, flush, prefix) == merged_flush(kept, flush, b).push(z));
            },
        }
    }
}

/// Reconciliation is idempotent: merging the same snapshot a second time,
/// with no mutation in between, changes neither bucket. A second
/// `reconcile` call with the same live and resurrectable sets therefore
/// reports "no change".
pub proof fn lemma_reconcile_idempotent(
    kept: Seq<SessionView>,
    flush: Seq<SessionView>,
    entries: Seq<SessionView>,
)
    ensures
        merged_kept(merged_kept(kept, entries), entries) == merged_kept(kept, entries),
        merged_flush(
            merged_kept(kept, entries),
            merged_flush(kept, flush, entries),
            entries,
        ) == merged_flush(kept, flush, entries),
{
    assert forall|m: int| 0 <= m < entries.len() implies entry_exists(
        entries,
        #[trigger] entries[m].name,
    ) by {
        assert(entries[m].name == entries[m].name);
    }
    lemma_merged_again(kept, flush, entries, entries);
}

} // verus!
