//! The mathematical model of tracked sessions: filtered views, name
//! lookups, and the uniqueness predicates the store maintains.
use vstd::prelude::*;

use crate::text_match::{matches_filter, name_matches_opt};
use crate::{FavSessionInfo, SessionView};

verus! {

/// The names of a run of sessions, in order.
pub open spec fn names_of(s: Seq<SessionView>) -> Seq<Seq<char>> {
    s.map_values(|x: SessionView| x.name)
}

/// No two sessions share a name.
pub open spec fn names_distinct(s: Seq<SessionView>) -> bool {
    forall|i: int, j: int| 0 <= i < j < s.len() ==> s[i].name != s[j].name
}

/// No two sessions hold the same quick-access number.
pub open spec fn numbers_unique(s: Seq<SessionView>) -> bool {
    forall|i: int, j: int|
        0 <= i < j < s.len() && s[i].assigned_number is Some ==> s[i].assigned_number
            != s[j].assigned_number
}

/// Every assigned quick-access number is a single digit.
pub open spec fn numbers_in_range(s: Seq<SessionView>) -> bool {
    forall|i: int|
        0 <= i < s.len() ==> match #[trigger] s[i].assigned_number {
            Some(d) => d <= 9,
            None => true,
        }
}

/// The subsequence of sessions whose names pass the filter, in order.
pub open spec fn filtered_views(s: Seq<SessionView>, filter: Option<Seq<char>>) -> Seq<SessionView>
    decreases s.len(),
{
    if s.len() == 0 {
        Seq::empty()
    } else {
        let rest = filtered_views(s.drop_last(), filter);
        if matches_filter(s.last().name, filter) {
            rest.push(s.last())
        } else {
            rest
        }
    }
}

/// The subsequence of sessions whose names do not pass the filter, in order.
pub open spec fn unmatched_views(s: Seq<SessionView>, filter: Option<Seq<char>>) -> Seq<SessionView>
    decreases s.len(),
{
    if s.len() == 0 {
        Seq::empty()
    } else {
        let rest = unmatched_views(s.drop_last(), filter);
        if matches_filter(s.last().name, filter) {
            rest
        } else {
            rest.push(s.last())
        }
    }
}

/// Extending a prefix by one element extends its filtered view by that
/// element exactly when the element matches.
pub proof fn lemma_filtered_take_step(s: Seq<SessionView>, filter: Option<Seq<char>>, i: int)
    requires
        0 <= i < s.len(),
    ensures
        filtered_views(s.take(i + 1), filter) == if matches_filter(s[i].name, filter) {
            filtered_views(s.take(i), filter).push(s[i])
        } else {
            filtered_views(s.take(i), filter)
        },
        unmatched_views(s.take(i + 1), filter) == if matches_filter(s[i].name, filter) {
            unmatched_views(s.take(i), filter)
        } else {
            unmatched_views(s.take(i), filter).push(s[i])
        },
{
    let t = s.take(i + 1);
    assert(t.drop_last() =~= s.take(i));
    assert(t.last() == s[i]);
}

/// A sequence is the prefix of itself of full length.
pub proof fn lemma_take_full(s: Seq<SessionView>)
    ensures
        s.take(s.len() as int) == s,
{
    assert(s.take(s.len() as int) =~= s);
}

/// Filtering distributes over concatenation.
pub proof fn lemma_filtered_append(a: Seq<SessionView>, b: Seq<SessionView>, filter: Option<Seq<char>>)
    ensures
        filtered_views(a + b, filter) == filtered_views(a, filter) + filtered_views(b, filter),
    decreases b.len(),
{
    if b.len() == 0 {
        assert(a + b =~= a);
        assert(filtered_views(a, filter) + filtered_views(b, filter) =~= filtered_views(a, filter));
    } else {
        lemma_filtered_append(a, b.drop_last(), filter);
        assert((a + b).drop_last() =~= a + b.drop_last());
        assert((a + b).last() == b.last());
        if matches_filter(b.last().name, filter) {
            assert(filtered_views(a, filter) + filtered_views(b.drop_last(), filter).push(b.last())
                =~= (filtered_views(a, filter) + filtered_views(b.drop_last(), filter)).push(
                b.last(),
            ));
        }
    }
}

/// Every entry of the filtered view is an entry of the underlying run, and
/// it matches the filter; every unmatched entry likewise comes from the run.
pub proof fn lemma_filtered_membership(s: Seq<SessionView>, filter: Option<Seq<char>>)
    ensures
        forall|j: int|
            0 <= j < filtered_views(s, filter).len() ==> matches_filter(
                #[trigger] filtered_views(s, filter)[j].name,
                filter,
            ) && exists|i: int| 0 <= i < s.len() && s[i] == filtered_views(s, filter)[j],
        forall|j: int|
            0 <= j < unmatched_views(s, filter).len() ==> !matches_filter(
                #[trigger] unmatched_views(s, filter)[j].name,
                filter,
            ) && exists|i: int| 0 <= i < s.len() && s[i] == unmatched_views(s, filter)[j],
    decreases s.len(),
{
    if s.len() > 0 {
        lemma_filtered_membership(s.drop_last(), filter);
        assert forall|j: int| 0 <= j < filtered_views(s, filter).len() implies matches_filter(
            #[trigger] filtered_views(s, filter)[j].name,
            filter,
        ) && exists|i: int| 0 <= i < s.len() && s[i] == filtered_views(s, filter)[j] by {
            let fv = filtered_views(s, filter);
            let fvp = filtered_views(s.drop_last(), filter);
            if j < fvp.len() {
                assert(fv[j] == fvp[j]);
                assert(matches_filter(fvp[j].name, filter));
                let i = choose|i: int| 0 <= i < s.drop_last().len() && s.drop_last()[i] == fvp[j];
                assert(s[i] == fv[j]);
            } else {
                assert(fv[j] == s.last());
                assert(s[s.len() - 1] == fv[j]);
            }
        }
        assert forall|j: int| 0 <= j < unmatched_views(s, filter).len() implies !matches_filter(
            #[trigger] unmatched_views(s, filter)[j].name,
            filter,
        ) && exists|i: int| 0 <= i < s.len() && s[i] == unmatched_views(s, filter)[j] by {
            let uv = unmatched_views(s, filter);
            let uvp = unmatched_views(s.drop_last(), filter);
            if j < uvp.len() {
                assert(uv[j] == uvp[j]);
                assert(!matches_filter(uvp[j].name, filter));
                let i = choose|i: int| 0 <= i < s.drop_last().len() && s.drop_last()[i] == uvp[j];
                assert(s[i] == uv[j]);
            } else {
                assert(uv[j] == s.last());
                assert(s[s.len() - 1] == uv[j]);
            }
        }
    }
}

/// The uniqueness invariants do not care which bucket comes first in the
/// combined run.
pub proof fn lemma_swap_props(a: Seq<SessionView>, b: Seq<SessionView>)
    requires
        names_distinct(a + b),
        numbers_unique(a + b),
        numbers_in_range(a + b),
    ensures
        names_distinct(b + a),
        numbers_unique(b + a),
        numbers_in_range(b + a),
{
    let ab = a + b;
    let ba = b + a;
    assert forall|i: int, j: int| 0 <= i < j < ba.len() implies ba[i].name != ba[j].name by {
        let mi = if i < b.len() { a.len() + i } else { i - b.len() };
        let mj = if j < b.len() { a.len() + j } else { j - b.len() };
        assert(ba[i] == ab[mi]);
        assert(ba[j] == ab[mj]);
        if mi < mj {
            assert(ab[mi].name != ab[mj].name);
        } else {
            assert(ab[mj].name != ab[mi].name);
        }
    }
    assert forall|i: int, j: int|
        0 <= i < j < ba.len() && ba[i].assigned_number is Some implies ba[i].assigned_number
        != ba[j].assigned_number by {
        let mi = if i < b.len() { a.len() + i } else { i - b.len() };
        let mj = if j < b.len() { a.len() + j } else { j - b.len() };
        assert(ba[i] == ab[mi]);
        assert(ba[j] == ab[mj]);
        if ba[j].assigned_number is Some {
            if mi < mj {
                assert(ab[mi].assigned_number != ab[mj].assigned_number);
            } else {
                assert(ab[mj].assigned_number != ab[mi].assigned_number);
            }
        }
    }
    assert forall|i: int| 0 <= i < ba.len() implies match #[trigger] ba[i].assigned_number {
        Some(d) => d <= 9,
        None => true,
    } by {
        let mi = if i < b.len() { a.len() + i } else { i - b.len() };
        assert(ba[i] == ab[mi]);
        assert(match ab[mi].assigned_number {
            Some(d) => d <= 9,
            None => true,
        });
    }
}

/// Moving one session from the front bucket to the back of the other
/// preserves the uniqueness invariants and the multiset of names.
pub proof fn lemma_transfer_props(a: Seq<SessionView>, b: Seq<SessionView>, i: int)
    requires
        0 <= i < a.len(),
        names_distinct(a + b),
        numbers_unique(a + b),
        numbers_in_range(a + b),
    ensures
        names_distinct(a.remove(i) + b.push(a[i])),
        numbers_unique(a.remove(i) + b.push(a[i])),
        numbers_in_range(a.remove(i) + b.push(a[i])),
        names_of(a.remove(i) + b.push(a[i])).to_multiset() == names_of(a + b).to_multiset(),
{
    let before = a + b;
    let after = a.remove(i) + b.push(a[i]);
    assert(after.len() == before.len());
    let m = |j: int|
        if j < i {
            j
        } else if j < before.len() - 1 {
            j + 1
        } else {
            i
        };
    assert forall|j: int| 0 <= j < after.len() implies after[j] == before[m(j)] by {
        if j < i {
        } else if j < a.len() - 1 {
        } else if j < after.len() - 1 {
        } else {
        }
    }
    assert forall|j1: int, j2: int| 0 <= j1 < j2 < after.len() implies after[j1].name
        != after[j2].name by {
        let m1 = m(j1);
        let m2 = m(j2);
        assert(after[j1] == before[m1]);
        assert(after[j2] == before[m2]);
        if m1 < m2 {
            assert(before[m1].name != before[m2].name);
        } else {
            assert(before[m2].name != before[m1].name);
        }
    }
    assert forall|j1: int, j2: int|
        0 <= j1 < j2 < after.len() && after[j1].assigned_number is Some implies after[
        j1
    ].assigned_number != after[j2].assigned_number by {
        let m1 = m(j1);
        let m2 = m(j2);
        assert(after[j1] == before[m1]);
        assert(after[j2] == before[m2]);
        if after[j2].assigned_number is Some {
            if m1 < m2 {
                assert(before[m1].assigned_number != before[m2].assigned_number);
            } else {
                assert(before[m2].assigned_number != before[m1].assigned_number);
            }
        }
    }
    assert forall|j: int| 0 <= j < after.len() implies match #[trigger] after[j].assigned_number {
        Some(d) => d <= 9,
        None => true,
    } by {
        assert(after[j] == before[m(j)]);
        assert(match before[m(j)].assigned_number {
            Some(d) => d <= 9,
            None => true,
        });
    }
    lemma_names_multiset_transfer(a, b, i);
}

/// Moving one session from the front bucket to that same bucket's end
/// preserves the uniqueness invariants and the multiset of names.
pub proof fn lemma_rotate_props(a: Seq<SessionView>, b: Seq<SessionView>, i: int)
    requires
        0 <= i < a.len(),
        names_distinct(a + b),
        numbers_unique(a + b),
        numbers_in_range(a + b),
    ensures
        names_distinct(a.remove(i).push(a[i]) + b),
        numbers_unique(a.remove(i).push(a[i]) + b),
        numbers_in_range(a.remove(i).push(a[i]) + b),
        names_of(a.remove(i).push(a[i]) + b).to_multiset() == names_of(a + b).to_multiset(),
{
    let before = a + b;
    let after = a.remove(i).push(a[i]) + b;
    assert(after.len() == before.len());
    let m = |j: int|
        if j < i {
            j
        } else if j < a.len() - 1 {
            j + 1
        } else if j == a.len() - 1 {
            i
        } else {
            j
        };
    assert forall|j: int| 0 <= j < after.len() implies after[j] == before[m(j)] by {
        if j < i {
        } else if j < a.len() - 1 {
        } else if j == a.len() - 1 {
        } else {
        }
    }
    assert forall|j1: int, j2: int| 0 <= j1 < j2 < after.len() implies after[j1].name
        != after[j2].name by {
        let m1 = m(j1);
        let m2 = m(j2);
        assert(after[j1] == before[m1]);
        assert(after[j2] == before[m2]);
        if m1 < m2 {
            assert(before[m1].name != before[m2].name);
        } else {
            assert(before[m2].name != before[m1].name);
        }
    }
    assert forall|j1: int, j2: int|
        0 <= j1 < j2 < after.len() && after[j1].assigned_number is Some implies after[
        j1
    ].assigned_number != after[j2].assigned_number by {
        let m1 = m(j1);
        let m2 = m(j2);
        assert(after[j1] == before[m1]);
        assert(after[j2] == before[m2]);
        if after[j2].assigned_number is Some {
            if m1 < m2 {
                assert(before[m1].assigned_number != before[m2].assigned_number);
            } else {
                assert(before[m2].assigned_number != before[m1].assigned_number);
            }
        }
    }
    assert forall|j: int| 0 <= j < after.len() implies match #[trigger] after[j].assigned_number {
        Some(d) => d <= 9,
        None => true,
    } by {
        assert(after[j] == before[m(j)]);
        assert(match before[m(j)].assigned_number {
            Some(d) => d <= 9,
            None => true,
        });
    }
    lemma_names_multiset_rotate(a, b, i);
}

/// The multiset of names is untouched by a within-bucket rotation.
pub proof fn lemma_names_multiset_rotate(a: Seq<SessionView>, b: Seq<SessionView>, i: int)
    requires
        0 <= i < a.len(),
    ensures
        names_of(a.remove(i).push(a[i]) + b).to_multiset() == names_of(a + b).to_multiset(),
{
    broadcast use vstd::seq_lib::group_to_multiset_ensures;
    broadcast use vstd::multiset::group_multiset_axioms;

    let na = names_of(a);
    let nb = names_of(b);
    assert(names_of(a.remove(i).push(a[i])) =~= na.remove(i).push(na[i]));
    assert(names_of(a.remove(i).push(a[i]) + b) =~= na.remove(i).push(na[i]) + nb);
    assert(names_of(a + b) =~= na + nb);
    vstd::seq_lib::lemma_multiset_commutative(na.remove(i).push(na[i]), nb);
    vstd::seq_lib::lemma_multiset_commutative(na, nb);
    assert(na.remove(i).to_multiset() =~= na.to_multiset().remove(na[i]));
    assert(na.remove(i).push(na[i]).to_multiset() =~= na.remove(i).to_multiset().insert(na[i]));
    assert(na.contains(na[i]));
    assert(na.to_multiset().count(na[i]) > 0);
    assert(na.to_multiset().remove(na[i]).insert(na[i]) =~= na.to_multiset());
}

/// The multiset of names does not care which bucket comes first.
pub proof fn lemma_names_multiset_swap(a: Seq<SessionView>, b: Seq<SessionView>)
    ensures
        names_of(a + b).to_multiset() == names_of(b + a).to_multiset(),
{
    broadcast use vstd::multiset::group_multiset_axioms;

    assert(names_of(a + b) =~= names_of(a) + names_of(b));
    assert(names_of(b + a) =~= names_of(b) + names_of(a));
    vstd::seq_lib::lemma_multiset_commutative(names_of(a), names_of(b));
    vstd::seq_lib::lemma_multiset_commutative(names_of(b), names_of(a));
    assert(names_of(a).to_multiset().add(names_of(b).to_multiset()) =~= names_of(
        b,
    ).to_multiset().add(names_of(a).to_multiset()));
}

/// Remove the entry at `i` of one bucket and append it to the other.
pub fn transfer_at(src: &mut Vec<FavSessionInfo>, dst: &mut Vec<FavSessionInfo>, i: usize)
    requires
        i < old(src).len(),
    ensures
        final(src).deep_view() == old(src).deep_view().remove(i as int),
        final(dst).deep_view() == old(dst).deep_view().push(old(src).deep_view()[i as int]),
{
    let x = src.remove(i);
    dst.push(x);
    proof {
        old(src)@.remove_ensures(i as int);
        old(src).deep_view().remove_ensures(i as int);
        assert(src.deep_view() =~= old(src).deep_view().remove(i as int));
        assert(dst.deep_view() =~= old(dst).deep_view().push(old(src).deep_view()[i as int]));
    }
}

/// Remove the entry at `i` and append it again at the same bucket's end.
pub fn rotate_at(v: &mut Vec<FavSessionInfo>, i: usize)
    requires
        i < old(v).len(),
    ensures
        final(v).deep_view() == old(v).deep_view().remove(i as int).push(
            old(v).deep_view()[i as int],
        ),
{
    let x = v.remove(i);
    v.push(x);
    proof {
        old(v)@.remove_ensures(i as int);
        old(v).deep_view().remove_ensures(i as int);
        assert(v.deep_view() =~= old(v).deep_view().remove(i as int).push(
            old(v).deep_view()[i as int],
        ));
    }
}

/// The multiset of names is untouched by a remove-here/append-there move.
pub proof fn lemma_names_multiset_transfer(a: Seq<SessionView>, b: Seq<SessionView>, i: int)
    requires
        0 <= i < a.len(),
    ensures
        names_of(a.remove(i) + b.push(a[i])).to_multiset() == names_of(a + b).to_multiset(),
{
    broadcast use vstd::seq_lib::group_to_multiset_ensures;
    broadcast use vstd::multiset::group_multiset_axioms;

    let na = names_of(a);
    let nb = names_of(b);
    assert(names_of(a.remove(i)) =~= na.remove(i));
    assert(names_of(b.push(a[i])) =~= nb.push(a[i].name));
    assert(names_of(a.remove(i) + b.push(a[i])) =~= na.remove(i) + nb.push(a[i].name));
    assert(names_of(a + b) =~= na + nb);
    vstd::seq_lib::lemma_multiset_commutative(na.remove(i), nb.push(a[i].name));
    vstd::seq_lib::lemma_multiset_commutative(na, nb);
    assert(na.remove(i).to_multiset() =~= na.to_multiset().remove(na[i]));
    assert(nb.push(a[i].name).to_multiset() =~= nb.to_multiset().insert(a[i].name));
    assert(na[i] == a[i].name);
    assert(na.contains(na[i]));
    assert(na.to_multiset().count(na[i]) > 0);
    assert(na.to_multiset().remove(na[i]).add(nb.to_multiset().insert(na[i])) =~= na.to_multiset().add(
        nb.to_multiset(),
    ));
}

/// The same run with the digit `d` taken away from whichever sessions
/// hold it.
pub open spec fn cleared_digit(s: Seq<SessionView>, d: u8) -> Seq<SessionView> {
    s.map_values(
        |x: SessionView|
            if x.assigned_number == Some(d) {
                SessionView { assigned_number: None, ..x }
            } else {
                x
            },
    )
}

/// Clearing a digit touches no name, so the filtered view clears the same
/// digit entry for entry.
pub proof fn lemma_cleared_digit_filtered(s: Seq<SessionView>, d: u8, filter: Option<Seq<char>>)
    ensures
        filtered_views(cleared_digit(s, d), filter) == cleared_digit(filtered_views(s, filter), d),
    decreases s.len(),
{
    if s.len() == 0 {
        assert(filtered_views(cleared_digit(s, d), filter) =~= cleared_digit(
            filtered_views(s, filter),
            d,
        ));
    } else {
        lemma_cleared_digit_filtered(s.drop_last(), d, filter);
        assert(cleared_digit(s, d).drop_last() =~= cleared_digit(s.drop_last(), d));
        assert(cleared_digit(s, d).last() == cleared_digit(s, d)[s.len() - 1]);
        if matches_filter(s.last().name, filter) {
            assert(filtered_views(cleared_digit(s, d), filter) =~= cleared_digit(
                filtered_views(s, filter),
                d,
            ));
        } else {
            assert(filtered_views(cleared_digit(s, d), filter) =~= cleared_digit(
                filtered_views(s, filter),
                d,
            ));
        }
    }
}

/// Take the digit `d` away from every session in `v` that holds it.
pub fn clear_digit_in(v: &mut Vec<FavSessionInfo>, digit: u8)
    ensures
        final(v).deep_view() == cleared_digit(old(v).deep_view(), digit),
{
    let ghost orig = old(v).deep_view();
    let mut i: usize = 0;
    while i < v.len()
        invariant
            i <= v.len(),
            v.deep_view().len() == orig.len(),
            v.len() == orig.len(),
            forall|j: int| 0 <= j < i ==> v.deep_view()[j] == cleared_digit(orig, digit)[j],
            forall|j: int| i <= j < orig.len() ==> v.deep_view()[j] == orig[j],
        decreases v.len() - i,
    {
        let holds_digit = match v[i].assigned_number {
            Some(x) => x == digit,
            None => false,
        };
        if holds_digit {
            let mut x = clone_session(&v[i]);
            x.assigned_number = None;
            v.set(i, x);
        }
        i = i + 1;
    }
    proof {
        assert(v.deep_view() =~= cleared_digit(orig, digit));
    }
}

/// The names of the active sessions in a run, in order.
pub open spec fn active_names(s: Seq<SessionView>) -> Seq<Seq<char>>
    decreases s.len(),
{
    if s.len() == 0 {
        Seq::empty()
    } else {
        let rest = active_names(s.drop_last());
        if s.last().is_active {
            rest.push(s.last().name)
        } else {
            rest
        }
    }
}

/// Extending a prefix by one element extends its active-name list by that
/// element's name exactly when the element is active.
pub proof fn lemma_active_names_take_step(s: Seq<SessionView>, i: int)
    requires
        0 <= i < s.len(),
    ensures
        active_names(s.take(i + 1)) == if s[i].is_active {
            active_names(s.take(i)).push(s[i].name)
        } else {
            active_names(s.take(i))
        },
{
    let t = s.take(i + 1);
    assert(t.drop_last() =~= s.take(i));
    assert(t.last() == s[i]);
}

/// Where the entry at `u` is the `k`-th match, it is the `k`-th entry of
/// the filtered view, and removing it removes exactly that entry of the
/// filtered view.
pub proof fn lemma_filtered_remove_at(s: Seq<SessionView>, f: Option<Seq<char>>, u: int, k: int)
    requires
        0 <= u < s.len(),
        matches_filter(s[u].name, f),
        filtered_views(s.take(u), f).len() == k,
    ensures
        0 <= k < filtered_views(s, f).len(),
        filtered_views(s, f)[k] == s[u],
        filtered_views(s.remove(u), f) == filtered_views(s, f).remove(k),
{
    let front = s.take(u);
    let back = s.skip(u + 1);
    let mid = seq![s[u]];
    assert(s =~= front + (mid + back));
    lemma_filtered_append(front, mid + back, f);
    lemma_filtered_append(mid, back, f);
    assert(mid.drop_last() =~= Seq::<SessionView>::empty());
    assert(mid.last() == s[u]);
    assert(filtered_views(Seq::<SessionView>::empty(), f) =~= Seq::<SessionView>::empty());
    assert(filtered_views(mid, f) == filtered_views(mid.drop_last(), f).push(mid.last()));
    assert(filtered_views(mid, f) =~= seq![s[u]]);
    assert(filtered_views(s, f) =~= filtered_views(front, f) + (seq![s[u]] + filtered_views(
        back,
        f,
    )));
    assert(filtered_views(s, f)[k] == s[u]);
    assert(s.remove(u) =~= front + back);
    lemma_filtered_append(front, back, f);
    assert(filtered_views(s.remove(u), f) =~= filtered_views(s, f).remove(k));
}

/// A run none of whose names match has an empty filtered view.
pub proof fn lemma_filtered_none_empty(s: Seq<SessionView>, f: Option<Seq<char>>)
    requires
        forall|j: int| 0 <= j < s.len() ==> !matches_filter(#[trigger] s[j].name, f),
    ensures
        filtered_views(s, f).len() == 0,
    decreases s.len(),
{
    if s.len() > 0 {
        assert forall|j: int| 0 <= j < s.drop_last().len() implies !matches_filter(
            #[trigger] s.drop_last()[j].name,
            f,
        ) by {
            assert(s.drop_last()[j] == s[j]);
        }
        lemma_filtered_none_empty(s.drop_last(), f);
    }
}

/// Dropping the matching part of the second bucket preserves the
/// uniqueness invariants over the combined run.
pub proof fn lemma_unmatched_props(k: Seq<SessionView>, s: Seq<SessionView>, f: Option<Seq<char>>)
    requires
        names_distinct(k + s),
        numbers_unique(k + s),
        numbers_in_range(k + s),
    ensures
        names_distinct(k + unmatched_views(s, f)),
        numbers_unique(k + unmatched_views(s, f)),
        numbers_in_range(k + unmatched_views(s, f)),
    decreases s.len(),
{
    if s.len() == 0 {
        assert(k + unmatched_views(s, f) =~= k + s);
    } else {
        let sp = s.drop_last();
        let x = s.last();
        assert forall|i: int, j: int| 0 <= i < j < (k + sp).len() implies (k + sp)[i].name != (k
            + sp)[j].name && ((k + sp)[i].assigned_number is Some ==> (k + sp)[i].assigned_number
            != (k + sp)[j].assigned_number) by {
            assert((k + sp)[i] == (k + s)[i]);
            assert((k + sp)[j] == (k + s)[j]);
        }
        assert forall|i: int| 0 <= i < (k + sp).len() implies match #[trigger] (k
            + sp)[i].assigned_number {
            Some(d) => d <= 9,
            None => true,
        } by {
            assert((k + sp)[i] == (k + s)[i]);
            assert(match (k + s)[i].assigned_number {
                Some(d) => d <= 9,
                None => true,
            });
        }
        lemma_unmatched_props(k, sp, f);
        let up = unmatched_views(sp, f);
        if matches_filter(x.name, f) {
            assert(k + unmatched_views(s, f) =~= k + up);
        } else {
            lemma_filtered_membership(sp, f);
            let target = k + unmatched_views(s, f);
            let base = k + up;
            assert(target =~= base.push(x));
            assert(x == (k + s)[(k + s).len() - 1]);
            assert forall|j: int| 0 <= j < base.len() implies base[j].name != x.name && (
            base[j].assigned_number is Some ==> base[j].assigned_number
                != x.assigned_number) && (x.assigned_number is Some ==> base[j].assigned_number
                != x.assigned_number) by {
                let last = (k + s).len() - 1;
                if j < k.len() {
                    assert(base[j] == (k + s)[j]);
                    assert((k + s)[j].name != (k + s)[last].name);
                    if (k + s)[j].assigned_number is Some {
                        assert((k + s)[j].assigned_number != (k + s)[last].assigned_number);
                    }
                    if (k + s)[last].assigned_number is Some {
                        assert((k + s)[last].assigned_number != (k + s)[j].assigned_number || (k
                            + s)[j].assigned_number != (k + s)[last].assigned_number);
                    }
                } else {
                    assert(base[j] == up[j - k.len()]);
                    assert(!matches_filter(up[j - k.len()].name, f));
                    let m = choose|m: int| 0 <= m < sp.len() && sp[m] == up[j - k.len()];
                    assert(base[j] == (k + s)[k.len() + m]);
                    assert((k + s)[k.len() + m].name != (k + s)[last].name);
                    if (k + s)[k.len() + m].assigned_number is Some {
                        assert((k + s)[k.len() + m].assigned_number != (k
                            + s)[last].assigned_number);
                    }
                }
            }
            assert forall|i: int, j: int| 0 <= i < j < target.len() implies target[i].name
                != target[j].name by {
                if j < target.len() - 1 {
                    assert(target[i] == base[i]);
                    assert(target[j] == base[j]);
                } else {
                    assert(target[i] == base[i]);
                    assert(target[j] == x);
                }
            }
            assert forall|i: int, j: int|
                0 <= i < j < target.len() && target[i].assigned_number is Some implies target[
                i
            ].assigned_number != target[j].assigned_number by {
                if j < target.len() - 1 {
                    assert(target[i] == base[i]);
                    assert(target[j] == base[j]);
                } else {
                    assert(target[i] == base[i]);
                    assert(target[j] == x);
                    if x.assigned_number is Some {
                        assert(base[i].assigned_number != x.assigned_number);
                    } else {
                        assert(target[i].assigned_number != target[j].assigned_number);
                    }
                }
            }
            assert forall|i: int| 0 <= i < target.len() implies match #[trigger] target[
                i
            ].assigned_number {
                Some(d) => d <= 9,
                None => true,
            } by {
                if i < target.len() - 1 {
                    assert(target[i] == base[i]);
                    assert(match base[i].assigned_number {
                        Some(d) => d <= 9,
                        None => true,
                    });
                } else {
                    assert(target[i] == (k + s)[(k + s).len() - 1]);
                    assert(match (k + s)[(k + s).len() - 1].assigned_number {
                        Some(d) => d <= 9,
                        None => true,
                    });
                }
            }
        }
    }
}

/// Two runs whose sessions bear the same names entry for entry have
/// filtered views of the same length.
pub proof fn lemma_same_names_filtered_len(
    a: Seq<SessionView>,
    b: Seq<SessionView>,
    filter: Option<Seq<char>>,
)
    requires
        a.len() == b.len(),
        forall|j: int| 0 <= j < a.len() ==> a[j].name == b[j].name,
    ensures
        filtered_views(a, filter).len() == filtered_views(b, filter).len(),
    decreases a.len(),
{
    if a.len() > 0 {
        lemma_same_names_filtered_len(a.drop_last(), b.drop_last(), filter);
        assert(a.last().name == b.last().name);
    }
}

/// A field-for-field copy of one tracked session.
pub fn clone_session(s: &FavSessionInfo) -> (r: FavSessionInfo)
    ensures
        r@ == s@,
{
    FavSessionInfo {
        name: s.name.clone(),
        is_active: s.is_active,
        assigned_number: s.assigned_number,
        tabs: s.tabs,
        panes: s.panes,
    }
}

/// A field-for-field copy of a whole run of tracked sessions.
pub fn clone_sessions(v: &Vec<FavSessionInfo>) -> (r: Vec<FavSessionInfo>)
    ensures
        r.deep_view() == v.deep_view(),
{
    let mut r: Vec<FavSessionInfo> = Vec::new();
    let mut i: usize = 0;
    while i < v.len()
        invariant
            i <= v.len(),
            r.deep_view() == v.deep_view().take(i as int),
        decreases v.len() - i,
    {
        let ghost prev = r.deep_view();
        r.push(clone_session(&v[i]));
        proof {
            assert(r.deep_view() =~= prev.push(v.deep_view()[i as int]));
            assert(prev.push(v.deep_view()[i as int]) =~= v.deep_view().take(i + 1));
        }
        i = i + 1;
    }
    proof {
        lemma_take_full(v.deep_view());
    }
    r
}

/// How many entries of `v` pass the filter.
pub fn count_filtered(v: &Vec<FavSessionInfo>, filter: &Option<String>) -> (r: usize)
    ensures
        r == filtered_views(v.deep_view(), filter.deep_view()).len(),
{
    let ghost fv = filter.deep_view();
    let mut count: usize = 0;
    let mut i: usize = 0;
    while i < v.len()
        invariant
            i <= v.len(),
            count == filtered_views(v.deep_view().take(i as int), fv).len(),
            count <= i,
            fv == filter.deep_view(),
        decreases v.len() - i,
    {
        proof {
            lemma_filtered_take_step(v.deep_view(), fv, i as int);
        }
        if name_matches_opt(&v[i].name, filter) {
            count = count + 1;
        }
        i = i + 1;
    }
    proof {
        lemma_take_full(v.deep_view());
    }
    count
}

/// The entries of `v` whose names pass the filter, in order.
pub fn filter_sessions(v: &Vec<FavSessionInfo>, filter: &Option<String>) -> (r: Vec<FavSessionInfo>)
    ensures
        r.deep_view() == filtered_views(v.deep_view(), filter.deep_view()),
{
    let ghost fv = filter.deep_view();
    let mut r: Vec<FavSessionInfo> = Vec::new();
    let mut i: usize = 0;
    while i < v.len()
        invariant
            i <= v.len(),
            r.deep_view() == filtered_views(v.deep_view().take(i as int), fv),
            fv == filter.deep_view(),
        decreases v.len() - i,
    {
        proof {
            lemma_filtered_take_step(v.deep_view(), fv, i as int);
        }
        if name_matches_opt(&v[i].name, filter) {
            r.push(clone_session(&v[i]));
        }
        proof {
            assert(r.deep_view() =~= filtered_views(v.deep_view().take(i + 1), fv));
        }
        i = i + 1;
    }
    proof {
        lemma_take_full(v.deep_view());
    }
    r
}

/// The index into `v` of the `k`-th entry of its filtered view, if the
/// filtered view is that long.
pub fn nth_filtered_index(v: &Vec<FavSessionInfo>, filter: &Option<String>, k: usize) -> (r: Option<
    usize,
>)
    ensures
        match r {
            Some(i) => i < v.len() && matches_filter(v.deep_view()[i as int].name, filter.deep_view())
                && filtered_views(v.deep_view().take(i as int), filter.deep_view()).len() == k,
            None => filtered_views(v.deep_view(), filter.deep_view()).len() <= k,
        },
{
    let ghost fv = filter.deep_view();
    let mut count: usize = 0;
    let mut i: usize = 0;
    while i < v.len()
        invariant
            i <= v.len(),
            count <= k,
            count == filtered_views(v.deep_view().take(i as int), fv).len(),
            fv == filter.deep_view(),
        decreases v.len() - i,
    {
        proof {
            lemma_filtered_take_step(v.deep_view(), fv, i as int);
        }
        if name_matches_opt(&v[i].name, filter) {
            if count == k {
                return Some(i);
            }
            count = count + 1;
        }
        i = i + 1;
    }
    proof {
        lemma_take_full(v.deep_view());
    }
    None
}

/// The index of the first entry of `v` bearing `name`, if any.
pub fn find_by_name(v: &Vec<FavSessionInfo>, name: &String) -> (r: Option<usize>)
    ensures
        match r {
            Some(i) => i < v.len() && v.deep_view()[i as int].name == name@ && forall|j: int|
                0 <= j < i ==> v.deep_view()[j].name != name@,
            None => forall|j: int| 0 <= j < v.deep_view().len() ==> v.deep_view()[j].name != name@,
        },
{
    let mut i: usize = 0;
    while i < v.len()
        invariant
            i <= v.len(),
            forall|j: int| 0 <= j < i ==> v.deep_view()[j].name != name@,
        decreases v.len() - i,
    {
        if v[i].name == *name {
            return Some(i);
        }
        i = i + 1;
    }
    None
}

/// Whether two runs of sessions agree entry for entry.
pub fn sessions_equal(a: &Vec<FavSessionInfo>, b: &Vec<FavSessionInfo>) -> (r: bool)
    ensures
        r == (a.deep_view() == b.deep_view()),
{
    if a.len() != b.len() {
        assert(a.deep_view().len() != b.deep_view().len());
        return false;
    }
    let mut i: usize = 0;
    while i < a.len()
        invariant
            i <= a.len(),
            a.len() == b.len(),
            a.deep_view().len() == b.deep_view().len(),
            forall|j: int| 0 <= j < i ==> a.deep_view()[j] == b.deep_view()[j],
        decreases a.len() - i,
    {
        if !session_fields_equal(&a[i], &b[i]) {
            assert(a.deep_view()[i as int] != b.deep_view()[i as int]);
            return false;
        }
        i = i + 1;
    }
    proof {
        assert(a.deep_view() =~= b.deep_view());
    }
    true
}

/// Whether two sessions agree in every field.
pub fn session_fields_equal(a: &FavSessionInfo, b: &FavSessionInfo) -> (r: bool)
    ensures
        r == (a@ == b@),
{
    let names_eq = a.name == b.name;
    let numbers_eq = match (a.assigned_number, b.assigned_number) {
        (None, None) => true,
        (Some(x), Some(y)) => x == y,
        _ => false,
    };
    names_eq && numbers_eq && a.is_active == b.is_active && a.tabs == b.tabs && a.panes == b.panes
}

} // verus!
