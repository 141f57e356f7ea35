//! What holds of the orders and of the sort: each order is a strict weak
//! order, and the sort yields the one arrangement that is in order and keeps
//! entries that tie in place.

use vstd::prelude::*;
use crate::entry::EntryView;
use crate::name_order::{
    lemma_text_before_strict,
    lemma_text_before_total,
    lemma_text_before_transitive,
    text_before,
};
use crate::sorting::{
    arranged,
    distinct_names,
    in_order,
    keeps_ties,
    place,
    precedes,
    tied,
    ties,
    Criterion,
    Sorting,
};

verus! {

/// Of two entries at most one has to stand before the other, and none before
/// itself.
pub proof fn lemma_precedes_strict(a: EntryView, b: EntryView, mode: Sorting)
    ensures
        !(precedes(a, b, mode) && precedes(b, a, mode)),
        !precedes(a, a, mode),
{
    lemma_text_before_strict(a.name, b.name);
    lemma_text_before_strict(a.name, a.name);
}

/// What stands before an entry stands before everything behind that entry.
pub proof fn lemma_precedes_transitive(a: EntryView, b: EntryView, c: EntryView, mode: Sorting)
    requires
        precedes(a, b, mode),
        precedes(b, c, mode),
    ensures
        precedes(a, c, mode),
{
    match mode {
        Sorting::NameDown => lemma_text_before_transitive(a.name, b.name, c.name),
        Sorting::NameUp => lemma_text_before_transitive(c.name, b.name, a.name),
        _ => {},
    }
}

/// If `a` may stand behind `b` and `b` behind `c`, then `a` may stand behind
/// `c`.
pub proof fn lemma_precedes_chain(a: EntryView, b: EntryView, c: EntryView, mode: Sorting)
    requires
        !precedes(a, b, mode),
        !precedes(b, c, mode),
    ensures
        !precedes(a, c, mode),
{
    match mode {
        Sorting::NameDown => {
            lemma_text_before_total(a.name, b.name);
            if text_before(b.name, a.name) && text_before(a.name, c.name) {
                lemma_text_before_transitive(b.name, a.name, c.name);
            }
        },
        Sorting::NameUp => {
            lemma_text_before_total(a.name, b.name);
            if text_before(c.name, a.name) && text_before(a.name, b.name) {
                lemma_text_before_transitive(c.name, a.name, b.name);
            }
        },
        _ => {},
    }
}

/// To tie is an equivalence: every entry ties with itself, and two entries
/// that tie with a third tie with each other.
pub proof fn lemma_ties_equivalence(a: EntryView, b: EntryView, c: EntryView, mode: Sorting)
    ensures
        ties(a, a, mode),
        ties(a, b, mode) == ties(b, a, mode),
        ties(a, b, mode) && ties(b, c, mode) ==> ties(a, c, mode),
{
    lemma_precedes_strict(a, a, mode);
    if ties(a, b, mode) && ties(b, c, mode) {
        lemma_precedes_chain(a, b, c, mode);
        lemma_precedes_chain(c, b, a, mode);
    }
}

/// The other direction turns every pair round, so the same entries tie.
pub proof fn lemma_reversed_turns(a: EntryView, b: EntryView, mode: Sorting)
    ensures
        precedes(a, b, mode.reversed()) == precedes(b, a, mode),
        ties(a, b, mode.reversed()) == ties(a, b, mode),
        mode.reversed().reversed() == mode,
        mode.reversed().criterion() == mode.criterion(),
{
}

/// A click on the column that orders the entries turns the order round; a
/// second click turns it back.
pub proof fn lemma_toggle_active(mode: Sorting, criterion: Criterion)
    requires
        mode.criterion() == criterion,
    ensures
        mode.toggled(criterion) == mode.reversed(),
        mode.toggled(criterion).toggled(criterion) == mode,
{
}

/// A click on a column always leaves that column ordering the entries.
pub proof fn lemma_toggle_selects(mode: Sorting, criterion: Criterion)
    ensures
        mode.toggled(criterion).criterion() == criterion,
{
}

/// The entries of two sequences one after the other that tie with `e` are
/// those of the first followed by those of the second.
pub proof fn lemma_tied_add(a: Seq<EntryView>, b: Seq<EntryView>, e: EntryView, mode: Sorting)
    ensures
        tied(a + b, e, mode) == tied(a, e, mode) + tied(b, e, mode),
    decreases b.len(),
{
    if b.len() == 0 {
        assert(a + b =~= a);
        assert(tied(a, e, mode) + tied(b, e, mode) =~= tied(a, e, mode));
    } else {
        assert((a + b).drop_last() =~= a + b.drop_last());
        lemma_tied_add(a, b.drop_last(), e, mode);
        if ties(b.last(), e, mode) {
            assert((tied(a, e, mode) + tied(b.drop_last(), e, mode)).push(b.last()) =~= tied(
                a,
                e,
                mode,
            ) + tied(b.drop_last(), e, mode).push(b.last()));
        }
    }
}

/// Where no entry ties with `e`, nothing is left.
pub proof fn lemma_tied_none(s: Seq<EntryView>, e: EntryView, mode: Sorting)
    requires
        forall|i: int| 0 <= i < s.len() ==> !ties(s[i], e, mode),
    ensures
        tied(s, e, mode) == Seq::<EntryView>::empty(),
    decreases s.len(),
{
    if s.len() > 0 {
        assert forall|i: int| 0 <= i < s.drop_last().len() implies !ties(
            s.drop_last()[i],
            e,
            mode,
        ) by {
            assert(s.drop_last()[i] == s[i]);
        }
        lemma_tied_none(s.drop_last(), e, mode);
    }
}

/// Two entries that tie have the same entries tying with them.
proof fn lemma_tied_same_class(s: Seq<EntryView>, e: EntryView, f: EntryView, mode: Sorting)
    requires
        ties(e, f, mode),
    ensures
        tied(s, e, mode) == tied(s, f, mode),
    decreases s.len(),
{
    if s.len() > 0 {
        lemma_tied_same_class(s.drop_last(), e, f, mode);
        lemma_ties_equivalence(s.last(), e, f, mode);
        lemma_ties_equivalence(s.last(), f, e, mode);
        lemma_ties_equivalence(e, f, f, mode);
    }
}

/// The other direction of a criterion has the same entries tie.
proof fn lemma_tied_reversed(s: Seq<EntryView>, e: EntryView, mode: Sorting)
    ensures
        tied(s, e, mode.reversed()) == tied(s, e, mode),
    decreases s.len(),
{
    if s.len() > 0 {
        lemma_tied_reversed(s.drop_last(), e, mode);
        lemma_reversed_turns(s.last(), e, mode);
    }
}

/// The place of the last entry of `r` that ties with `e`.
proof fn lemma_tied_last(r: Seq<EntryView>, e: EntryView, mode: Sorting) -> (q: int)
    requires
        tied(r, e, mode).len() > 0,
    ensures
        0 <= q < r.len(),
        ties(r[q], e, mode),
        forall|j: int| q < j < r.len() ==> !ties(r[j], e, mode),
        tied(r, e, mode) == tied(r.take(q), e, mode).push(r[q]),
    decreases r.len(),
{
    if ties(r.last(), e, mode) {
        assert(r.take(r.len() - 1) =~= r.drop_last());
        r.len() - 1
    } else {
        let q = lemma_tied_last(r.drop_last(), e, mode);
        assert(r.drop_last().take(q) =~= r.take(q));
        assert(r.drop_last()[q] == r[q]);
        assert forall|j: int| q < j < r.len() implies !ties(r[j], e, mode) by {
            if j < r.len() - 1 {
                assert(r.drop_last()[j] == r[j]);
            }
        }
        q
    }
}

/// Where `place` puts `x`: everything from there on has to follow `x`, and
/// `x` does not have to precede the entry before.
proof fn lemma_place_slot(t: Seq<EntryView>, x: EntryView, mode: Sorting) -> (at: int)
    ensures
        0 <= at <= t.len(),
        place(t, x, mode) == t.insert(at, x),
        forall|j: int| at <= j < t.len() ==> precedes(x, t[j], mode),
        at > 0 ==> !precedes(x, t[at - 1], mode),
    decreases t.len(),
{
    if t.len() > 0 && precedes(x, t.last(), mode) {
        let front = t.drop_last();
        let at = lemma_place_slot(front, x, mode);
        assert(front.insert(at, x).push(t.last()) =~= t.insert(at, x));
        assert forall|j: int| at <= j < t.len() implies precedes(x, t[j], mode) by {
            if j < t.len() - 1 {
                assert(front[j] == t[j]);
            }
        }
        if at > 0 {
            assert(front[at - 1] == t[at - 1]);
        }
        at
    } else {
        assert(t.push(x) =~= t.insert(t.len() as int, x));
        t.len() as int
    }
}

/// The converse: a place of which both hold is where `place` puts `x`.
proof fn lemma_place_at(t: Seq<EntryView>, x: EntryView, mode: Sorting, at: int)
    requires
        0 <= at <= t.len(),
        forall|j: int| at <= j < t.len() ==> precedes(x, t[j], mode),
        at > 0 ==> !precedes(x, t[at - 1], mode),
    ensures
        place(t, x, mode) == t.insert(at, x),
{
    let slot = lemma_place_slot(t, x, mode);
    if slot < at {
        assert(precedes(x, t[at - 1], mode));
    } else if at < slot {
        assert(precedes(x, t[slot - 1], mode));
    }
}

/// Putting an entry into a sequence that is in order leaves it in order.
pub proof fn lemma_place_in_order(t: Seq<EntryView>, x: EntryView, mode: Sorting)
    requires
        in_order(t, mode),
    ensures
        in_order(place(t, x, mode), mode),
        place(t, x, mode).len() == t.len() + 1,
{
    let at = lemma_place_slot(t, x, mode);
    let r = t.insert(at, x);
    assert forall|i: int, j: int| 0 <= i < j < r.len() implies !precedes(r[j], r[i], mode) by {
        if j == at {
            // r[j] is x, r[i] stands before the slot
            if at > 0 && i < at - 1 {
                lemma_precedes_chain(x, t[at - 1], t[i], mode);
            }
        } else if i == at {
            lemma_precedes_strict(x, t[j - 1], mode);
        } else {
            let ti = if i < at { i } else { i - 1 };
            let tj = if j < at { j } else { j - 1 };
            assert(r[i] == t[ti]);
            assert(r[j] == t[tj]);
        }
    }
}

/// The sort yields a sequence that is in order, of the length it was given.
pub proof fn lemma_arranged_in_order(s: Seq<EntryView>, mode: Sorting)
    ensures
        in_order(arranged(s, mode), mode),
        arranged(s, mode).len() == s.len(),
    decreases s.len(),
{
    if s.len() > 0 {
        lemma_arranged_in_order(s.drop_last(), mode);
        lemma_place_in_order(arranged(s.drop_last(), mode), s.last(), mode);
    }
}

/// The sort yields the entries it was given, each as often as it was given.
pub proof fn lemma_arranged_permutes(s: Seq<EntryView>, mode: Sorting)
    ensures
        arranged(s, mode).to_multiset() == s.to_multiset(),
    decreases s.len(),
{
    broadcast use vstd::seq_lib::group_to_multiset_ensures;

    if s.len() > 0 {
        let front = arranged(s.drop_last(), mode);
        lemma_arranged_permutes(s.drop_last(), mode);
        let at = lemma_place_slot(front, s.last(), mode);
        assert(s =~= s.drop_last().push(s.last()));
        assert(front.insert(at, s.last()).to_multiset() =~= front.to_multiset().insert(s.last()));
        assert(s.drop_last().push(s.last()).to_multiset() =~= s.drop_last().to_multiset().insert(
            s.last(),
        ));
    }
}

/// As far as ties go, to put an entry in its place is to put it last.
proof fn lemma_place_tied(t: Seq<EntryView>, x: EntryView, e: EntryView, mode: Sorting)
    ensures
        tied(place(t, x, mode), e, mode) == tied(t.push(x), e, mode),
{
    let at = lemma_place_slot(t, x, mode);
    let head = t.take(at);
    let tail = t.skip(at);
    let one = seq![x];
    assert(t =~= head + tail);
    assert(t.insert(at, x) =~= (head + one) + tail);
    assert(t.push(x) =~= (head + tail) + one);
    lemma_tied_add(head + one, tail, e, mode);
    lemma_tied_add(head, one, e, mode);
    lemma_tied_add(head + tail, one, e, mode);
    lemma_tied_add(head, tail, e, mode);
    if ties(x, e, mode) {
        assert forall|i: int| 0 <= i < tail.len() implies !ties(tail[i], e, mode) by {
            assert(tail[i] == t[at + i]);
            lemma_ties_equivalence(tail[i], e, x, mode);
            lemma_ties_equivalence(x, e, e, mode);
        }
        lemma_tied_none(tail, e, mode);
        assert((tied(head, e, mode) + tied(one, e, mode)) + Seq::<EntryView>::empty() =~= (tied(
            head,
            e,
            mode,
        ) + Seq::<EntryView>::empty()) + tied(one, e, mode));
    } else {
        assert(one[0] == x);
        lemma_tied_none(one, e, mode);
        assert((tied(head, e, mode) + Seq::<EntryView>::empty()) + tied(tail, e, mode) =~= (tied(
            head,
            e,
            mode,
        ) + tied(tail, e, mode)) + Seq::<EntryView>::empty());
    }
}

/// The sort is stable: entries that tie come out in the order they went in.
pub proof fn lemma_arranged_keeps_ties(s: Seq<EntryView>, mode: Sorting)
    ensures
        keeps_ties(arranged(s, mode), s, mode),
    decreases s.len(),
{
    assert forall|e: EntryView| #[trigger] tied(arranged(s, mode), e, mode) == tied(s, e, mode) by {
        if s.len() > 0 {
            let front = arranged(s.drop_last(), mode);
            lemma_arranged_keeps_ties(s.drop_last(), mode);
            assert(tied(front, e, mode) == tied(s.drop_last(), e, mode));
            lemma_place_tied(front, s.last(), e, mode);
            assert(front.push(s.last()).drop_last() =~= front);
            assert(s =~= s.drop_last().push(s.last()));
        }
    }
}

/// The sort yields the only arrangement of what it was given that is in
/// order and keeps entries that tie in place.
pub proof fn lemma_arranged_unique(r: Seq<EntryView>, s: Seq<EntryView>, mode: Sorting)
    requires
        in_order(r, mode),
        keeps_ties(r, s, mode),
    ensures
        r == arranged(s, mode),
    decreases s.len(),
{
    if s.len() == 0 {
        if r.len() > 0 {
            let e = r.last();
            lemma_ties_equivalence(e, e, e, mode);
            assert(tied(r, e, mode) == tied(s, e, mode));
            assert(tied(r, e, mode).len() > 0);
        }
        assert(r =~= s);
    } else {
        let x = s.last();
        let s0 = s.drop_last();
        lemma_ties_equivalence(x, x, x, mode);
        assert(tied(r, x, mode) == tied(s, x, mode));
        let q = lemma_tied_last(r, x, mode);
        let head = r.take(q);
        let tail = r.skip(q + 1);
        let one = seq![x];
        assert(r[q] == x) by {
            assert(tied(head, x, mode).push(r[q]).last() == r[q]);
            assert(tied(s0, x, mode).push(x).last() == x);
        }
        assert(tied(head, x, mode) == tied(s0, x, mode)) by {
            assert(tied(head, x, mode).push(r[q]).drop_last() =~= tied(head, x, mode));
            assert(tied(s0, x, mode).push(x).drop_last() =~= tied(s0, x, mode));
        }
        let r0 = r.remove(q);
        assert(r =~= (head + one) + tail);
        assert(r0 =~= head + tail);
        assert forall|i: int, j: int| 0 <= i < j < r0.len() implies !precedes(
            r0[j],
            r0[i],
            mode,
        ) by {
            let ri = if i < q { i } else { i + 1 };
            let rj = if j < q { j } else { j + 1 };
            assert(r0[i] == r[ri]);
            assert(r0[j] == r[rj]);
        }
        assert forall|e: EntryView| #[trigger] tied(r0, e, mode) == tied(s0, e, mode) by {
            lemma_tied_add(head + one, tail, e, mode);
            lemma_tied_add(head, one, e, mode);
            lemma_tied_add(head, tail, e, mode);
            assert(tied(r, e, mode) == tied(s, e, mode));
            if ties(x, e, mode) {
                lemma_ties_equivalence(x, e, e, mode);
                lemma_tied_same_class(head, e, x, mode);
                lemma_tied_same_class(tail, e, x, mode);
                lemma_tied_same_class(s0, e, x, mode);
                assert forall|i: int| 0 <= i < tail.len() implies !ties(tail[i], x, mode) by {
                    assert(tail[i] == r[q + 1 + i]);
                }
                lemma_tied_none(tail, x, mode);
                assert(tied(head, x, mode) + Seq::<EntryView>::empty() =~= tied(head, x, mode));
            } else {
                assert(one[0] == x);
                lemma_tied_none(one, e, mode);
                assert((tied(head, e, mode) + Seq::<EntryView>::empty()) + tied(tail, e, mode)
                    =~= tied(head, e, mode) + tied(tail, e, mode));
            }
        }
        lemma_arranged_unique(r0, s0, mode);
        assert forall|j: int| q <= j < r0.len() implies precedes(x, r0[j], mode) by {
            assert(r0[j] == r[j + 1]);
            assert(!ties(r[j + 1], x, mode));
            assert(!precedes(r[j + 1], r[q], mode));
        }
        if q > 0 {
            assert(r0[q - 1] == r[q - 1]);
            assert(!precedes(r[q], r[q - 1], mode));
        }
        lemma_place_at(r0, x, mode, q);
        assert(r0.insert(q, x) =~= r);
    }
}

/// Sorting what is in order changes nothing; so sorting twice by one order
/// gives what sorting once gives.
pub proof fn lemma_arranged_idempotent(s: Seq<EntryView>, mode: Sorting)
    ensures
        in_order(s, mode) ==> arranged(s, mode) == s,
        arranged(arranged(s, mode), mode) == arranged(s, mode),
{
    if in_order(s, mode) {
        lemma_arranged_unique(s, s, mode);
    }
    lemma_arranged_in_order(s, mode);
    lemma_arranged_unique(arranged(s, mode), arranged(s, mode), mode);
}

/// Two clicks on the column that orders the entries bring back the order
/// that was shown before them, entry for entry: the two directions of a
/// criterion undo each other.
pub proof fn lemma_toggle_twice_restores(s: Seq<EntryView>, mode: Sorting, criterion: Criterion)
    requires
        in_order(s, mode),
        mode.criterion() == criterion,
    ensures
        mode.toggled(criterion).toggled(criterion) == mode,
        arranged(arranged(s, mode.toggled(criterion)), mode) == s,
{
    let turned = mode.toggled(criterion);
    let shown = arranged(s, turned);
    lemma_toggle_active(mode, criterion);
    lemma_arranged_keeps_ties(s, turned);
    assert forall|e: EntryView| #[trigger] tied(s, e, mode) == tied(shown, e, mode) by {
        lemma_tied_reversed(s, e, mode);
        lemma_tied_reversed(shown, e, mode);
        assert(tied(shown, e, turned) == tied(s, e, turned));
    }
    lemma_arranged_unique(s, shown, mode);
}

/// When names order the entries, two entries tie exactly when they carry
/// the same name.
pub proof fn lemma_ties_by_name(a: EntryView, b: EntryView, mode: Sorting)
    requires
        mode.criterion() == Criterion::Name,
    ensures
        ties(a, b, mode) == (a.name == b.name),
{
    lemma_text_before_total(a.name, b.name);
    lemma_text_before_strict(a.name, b.name);
}

/// Names that are distinct in one sequence are distinct in every sequence
/// that holds the same entries.
pub proof fn lemma_distinct_names_permuted(a: Seq<EntryView>, b: Seq<EntryView>)
    requires
        distinct_names(a),
        a.to_multiset() == b.to_multiset(),
    ensures
        distinct_names(b),
{
    broadcast use vstd::seq_lib::group_to_multiset_ensures;

    assert(a.no_duplicates());
    a.lemma_multiset_has_no_duplicates();
    b.lemma_multiset_has_no_duplicates_conv();
    assert forall|i: int, j: int| 0 <= i < j < b.len() implies b[i].name != b[j].name by {
        assert(b.contains(b[i]));
        assert(b.contains(b[j]));
        assert(a.to_multiset().count(b[i]) > 0);
        assert(a.to_multiset().count(b[j]) > 0);
        assert(a.contains(b[i]));
        assert(a.contains(b[j]));
        let p = choose|p: int| 0 <= p < a.len() && a[p] == b[i];
        let q = choose|q: int| 0 <= q < a.len() && a[q] == b[j];
        assert(b[i] != b[j]);
        assert(p != q);
    }
}

/// Among distinct names, the entries that tie with `e` under a name order
/// are the one entry that carries the name of `e`.
proof fn lemma_tied_single(s: Seq<EntryView>, e: EntryView, mode: Sorting, at: int)
    requires
        mode.criterion() == Criterion::Name,
        distinct_names(s),
        0 <= at < s.len(),
        s[at].name == e.name,
    ensures
        tied(s, e, mode) == seq![s[at]],
{
    let head = s.take(at);
    let one = seq![s[at]];
    let tail = s.skip(at + 1);
    assert(s =~= (head + one) + tail);
    lemma_tied_add(head + one, tail, e, mode);
    lemma_tied_add(head, one, e, mode);
    assert forall|i: int| 0 <= i < head.len() implies !ties(head[i], e, mode) by {
        assert(head[i] == s[i]);
        lemma_ties_by_name(head[i], e, mode);
    }
    assert forall|i: int| 0 <= i < tail.len() implies !ties(tail[i], e, mode) by {
        assert(tail[i] == s[at + 1 + i]);
        lemma_ties_by_name(tail[i], e, mode);
    }
    lemma_tied_none(head, e, mode);
    lemma_tied_none(tail, e, mode);
    lemma_ties_by_name(s[at], e, mode);
    assert(one.drop_last() =~= Seq::<EntryView>::empty());
    assert(one.last() == s[at]);
    assert(tied(one.drop_last(), e, mode) =~= Seq::<EntryView>::empty());
    assert(tied(one, e, mode) =~= one);
    assert((Seq::<EntryView>::empty() + one) + Seq::<EntryView>::empty() =~= one);
}

/// Sorting leaves distinct names distinct.
pub proof fn lemma_arranged_keeps_names_distinct(s: Seq<EntryView>, mode: Sorting)
    requires
        distinct_names(s),
    ensures
        distinct_names(arranged(s, mode)),
{
    lemma_arranged_permutes(s, mode);
    lemma_distinct_names_permuted(s, arranged(s, mode));
}

/// What a directory holds comes out of a sort by name in one order only,
/// in whatever order the directory was listed: two listings that hold the
/// same entries, no name twice, are sorted to the same rows.
pub proof fn lemma_name_order_forgets_listing_order(
    a: Seq<EntryView>,
    b: Seq<EntryView>,
    mode: Sorting,
)
    requires
        mode.criterion() == Criterion::Name,
        distinct_names(a),
        a.to_multiset() == b.to_multiset(),
    ensures
        arranged(a, mode) == arranged(b, mode),
{
    broadcast use vstd::seq_lib::group_to_multiset_ensures;

    let r = arranged(b, mode);
    lemma_arranged_in_order(b, mode);
    lemma_arranged_permutes(b, mode);
    lemma_distinct_names_permuted(a, r);
    assert forall|e: EntryView| #[trigger] tied(r, e, mode) == tied(a, e, mode) by {
        if exists|p: int| 0 <= p < a.len() && a[p].name == e.name {
            let p = choose|p: int| 0 <= p < a.len() && a[p].name == e.name;
            assert(a.contains(a[p]));
            assert(r.to_multiset().count(a[p]) > 0);
            assert(r.contains(a[p]));
            let i = choose|i: int| 0 <= i < r.len() && r[i] == a[p];
            lemma_tied_single(a, e, mode, p);
            lemma_tied_single(r, e, mode, i);
        } else {
            assert forall|i: int| 0 <= i < a.len() implies !ties(a[i], e, mode) by {
                lemma_ties_by_name(a[i], e, mode);
            }
            assert forall|i: int| 0 <= i < r.len() implies !ties(r[i], e, mode) by {
                assert(r.contains(r[i]));
                assert(a.to_multiset().count(r[i]) > 0);
                assert(a.contains(r[i]));
                let p = choose|p: int| 0 <= p < a.len() && a[p] == r[i];
                lemma_ties_by_name(r[i], e, mode);
            }
            lemma_tied_none(a, e, mode);
            lemma_tied_none(r, e, mode);
        }
    }
    lemma_arranged_unique(r, a, mode);
}

} // verus!
