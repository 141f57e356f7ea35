//! Merging two runs of entries that are in order, the step that the sort is
//! built from.

use vstd::prelude::*;
use crate::entry::{DirEntryInfo, EntryView};
use crate::sorting::{comes_before, in_order, precedes, tied, ties, Sorting};
use crate::sorting_laws::{
    lemma_precedes_chain,
    lemma_precedes_strict,
    lemma_tied_none,
    lemma_ties_equivalence,
};

verus! {

/// Whether `merged` holds, for every entry, first the entries of `first`
/// that tie with it and then those of `second`, each run in its own order.
pub(crate) open spec fn ties_first_then_second(
    merged: Seq<EntryView>,
    first: Seq<EntryView>,
    second: Seq<EntryView>,
    mode: Sorting,
) -> bool {
    forall|e: EntryView| #[trigger]
        tied(merged, e, mode) == tied(first, e, mode) + tied(second, e, mode)
}

/// What holds while two runs are merged: `out` is what has been taken, the
/// first `ka` entries of `a` and the first `kb` of `b`.
spec fn merging(
    out: Seq<EntryView>,
    a: Seq<EntryView>,
    b: Seq<EntryView>,
    ka: int,
    kb: int,
    mode: Sorting,
) -> bool {
    &&& 0 <= ka <= a.len()
    &&& 0 <= kb <= b.len()
    &&& in_order(a, mode)
    &&& in_order(b, mode)
    &&& in_order(out, mode)
    &&& ka < a.len() ==> forall|i: int| 0 <= i < out.len() ==> !precedes(a[ka], out[i], mode)
    &&& kb < b.len() ==> forall|i: int| 0 <= i < out.len() ==> !precedes(b[kb], out[i], mode)
    &&& ka < a.len() ==> forall|j: int| 0 <= j < kb ==> precedes(b[j], a[ka], mode)
    &&& ties_first_then_second(out, a.take(ka), b.take(kb), mode)
}

proof fn lemma_tied_push(s: Seq<EntryView>, x: EntryView, e: EntryView, mode: Sorting)
    ensures
        tied(s.push(x), e, mode) == if ties(x, e, mode) {
            tied(s, e, mode).push(x)
        } else {
            tied(s, e, mode)
        },
{
    assert(s.push(x).drop_last() =~= s);
}

proof fn lemma_merging_starts(a: Seq<EntryView>, b: Seq<EntryView>, mode: Sorting)
    requires
        in_order(a, mode),
        in_order(b, mode),
    ensures
        merging(Seq::empty(), a, b, 0, 0, mode),
{
    assert forall|e: EntryView| #[trigger]
        tied(Seq::empty(), e, mode) == tied(a.take(0), e, mode) + tied(b.take(0), e, mode) by {
        assert(a.take(0) =~= Seq::<EntryView>::empty());
        assert(b.take(0) =~= Seq::<EntryView>::empty());
        assert(Seq::<EntryView>::empty() + Seq::<EntryView>::empty() =~= Seq::<
            EntryView,
        >::empty());
    }
}

/// Taking the head of `a` is in order where the head of `b` does not have to
/// stand before it.
proof fn lemma_merging_takes_first(
    out: Seq<EntryView>,
    a: Seq<EntryView>,
    b: Seq<EntryView>,
    ka: int,
    kb: int,
    mode: Sorting,
)
    requires
        merging(out, a, b, ka, kb, mode),
        ka < a.len(),
        kb < b.len() ==> !precedes(b[kb], a[ka], mode),
    ensures
        merging(out.push(a[ka]), a, b, ka + 1, kb, mode),
{
    let x = a[ka];
    let next = out.push(x);
    assert forall|i: int, j: int| 0 <= i < j < next.len() implies !precedes(
        next[j],
        next[i],
        mode,
    ) by {
        if j < out.len() {
            assert(next[i] == out[i] && next[j] == out[j]);
        }
    }
    if ka + 1 < a.len() {
        assert forall|i: int| 0 <= i < next.len() implies !precedes(a[ka + 1], next[i], mode) by {
            if i < out.len() {
                lemma_precedes_chain(a[ka + 1], x, out[i], mode);
            }
        }
        assert forall|j: int| 0 <= j < kb implies precedes(b[j], a[ka + 1], mode) by {
            if !precedes(b[j], a[ka + 1], mode) {
                lemma_precedes_chain(b[j], a[ka + 1], x, mode);
            }
        }
    }
    assert forall|e: EntryView| #[trigger]
        tied(next, e, mode) == tied(a.take(ka + 1), e, mode) + tied(b.take(kb), e, mode) by {
        assert(tied(out, e, mode) == tied(a.take(ka), e, mode) + tied(b.take(kb), e, mode));
        assert(a.take(ka + 1) =~= a.take(ka).push(x));
        lemma_tied_push(out, x, e, mode);
        lemma_tied_push(a.take(ka), x, e, mode);
        if ties(x, e, mode) {
            assert forall|j: int| 0 <= j < b.take(kb).len() implies !ties(
                b.take(kb)[j],
                e,
                mode,
            ) by {
                assert(b.take(kb)[j] == b[j]);
                lemma_ties_equivalence(b[j], e, x, mode);
                lemma_ties_equivalence(x, e, e, mode);
            }
            lemma_tied_none(b.take(kb), e, mode);
            assert((tied(a.take(ka), e, mode) + Seq::<EntryView>::empty()).push(x) =~= tied(
                a.take(ka),
                e,
                mode,
            ).push(x) + Seq::<EntryView>::empty());
        }
    }
}

/// Taking the head of `b` is in order where it has to stand before the head
/// of `a`, or `a` is used up.
proof fn lemma_merging_takes_second(
    out: Seq<EntryView>,
    a: Seq<EntryView>,
    b: Seq<EntryView>,
    ka: int,
    kb: int,
    mode: Sorting,
)
    requires
        merging(out, a, b, ka, kb, mode),
        kb < b.len(),
        ka < a.len() ==> precedes(b[kb], a[ka], mode),
    ensures
        merging(out.push(b[kb]), a, b, ka, kb + 1, mode),
{
    let y = b[kb];
    let next = out.push(y);
    assert forall|i: int, j: int| 0 <= i < j < next.len() implies !precedes(
        next[j],
        next[i],
        mode,
    ) by {
        if j < out.len() {
            assert(next[i] == out[i] && next[j] == out[j]);
        }
    }
    if kb + 1 < b.len() {
        assert forall|i: int| 0 <= i < next.len() implies !precedes(b[kb + 1], next[i], mode) by {
            if i < out.len() {
                lemma_precedes_chain(b[kb + 1], y, out[i], mode);
            }
        }
    }
    if ka < a.len() {
        lemma_precedes_strict(y, a[ka], mode);
        assert forall|i: int| 0 <= i < next.len() implies !precedes(a[ka], next[i], mode) by {
            if i < out.len() {
                assert(next[i] == out[i]);
            }
        }
    }
    assert forall|e: EntryView| #[trigger]
        tied(next, e, mode) == tied(a.take(ka), e, mode) + tied(b.take(kb + 1), e, mode) by {
        assert(tied(out, e, mode) == tied(a.take(ka), e, mode) + tied(b.take(kb), e, mode));
        assert(b.take(kb + 1) =~= b.take(kb).push(y));
        lemma_tied_push(out, y, e, mode);
        lemma_tied_push(b.take(kb), y, e, mode);
        if ties(y, e, mode) {
            assert((tied(a.take(ka), e, mode) + tied(b.take(kb), e, mode)).push(y) =~= tied(
                a.take(ka),
                e,
                mode,
            ) + tied(b.take(kb), e, mode).push(y));
        }
    }
}

/// The entries of `v` from last to first.
fn reversed(v: Vec<DirEntryInfo>) -> (r: Vec<DirEntryInfo>)
    ensures
        r.len() == v.len(),
        forall|i: int| 0 <= i < v.len() ==> r@[i] == v@[v.len() - 1 - i],
{
    let ghost all = v@;
    let mut left = v;
    let mut r: Vec<DirEntryInfo> = Vec::new();
    while left.len() > 0
        invariant
            left.len() + r.len() == all.len(),
            left@ == all.take(left.len() as int),
            forall|i: int| 0 <= i < r.len() ==> r@[i] == all[all.len() - 1 - i],
        decreases left.len(),
    {
        let last = left.pop().unwrap();
        r.push(last);
    }
    r
}

/// Merges two runs that are in order into one run that is in order. Where an
/// entry of `a` ties with one of `b`, that of `a` comes first.
pub(crate) fn merge(a: Vec<DirEntryInfo>, b: Vec<DirEntryInfo>, mode: Sorting) -> (merged: Vec<
    DirEntryInfo,
>)
    requires
        in_order(a.deep_view(), mode),
        in_order(b.deep_view(), mode),
    ensures
        in_order(merged.deep_view(), mode),
        ties_first_then_second(merged.deep_view(), a.deep_view(), b.deep_view(), mode),
        merged.len() == a.len() + b.len(),
{
    let ghost av = a.deep_view();
    let ghost bv = b.deep_view();
    let ghost a_all = a@;
    let ghost b_all = b@;
    // the heads of the two runs lie on top of the two stacks
    let mut stack_a = reversed(a);
    let mut stack_b = reversed(b);
    let mut merged: Vec<DirEntryInfo> = Vec::new();
    let ghost mut ka: int = 0;
    let ghost mut kb: int = 0;
    proof {
        lemma_merging_starts(av, bv, mode);
        assert(merged.deep_view() =~= Seq::<EntryView>::empty());
    }
    while stack_a.len() > 0 || stack_b.len() > 0
        invariant
            av.len() == a_all.len(),
            bv.len() == b_all.len(),
            forall|i: int| 0 <= i < a_all.len() ==> av[i] == a_all[i]@,
            forall|i: int| 0 <= i < b_all.len() ==> bv[i] == b_all[i]@,
            merging(merged.deep_view(), av, bv, ka, kb, mode),
            merged.len() == ka + kb,
            stack_a.len() == a_all.len() - ka,
            stack_b.len() == b_all.len() - kb,
            forall|i: int| 0 <= i < stack_a.len() ==> stack_a@[i] == a_all[a_all.len() - 1 - i],
            forall|i: int| 0 <= i < stack_b.len() ==> stack_b@[i] == b_all[b_all.len() - 1 - i],
        decreases stack_a.len() + stack_b.len(),
    {
        let ghost out = merged.deep_view();
        let take_second = if stack_a.len() == 0 {
            true
        } else if stack_b.len() == 0 {
            false
        } else {
            comes_before(&stack_b[stack_b.len() - 1], &stack_a[stack_a.len() - 1], mode)
        };
        if take_second {
            proof {
                lemma_merging_takes_second(out, av, bv, ka, kb, mode);
            }
            let y = stack_b.pop().unwrap();
            merged.push(y);
            proof {
                assert(merged.deep_view() =~= out.push(bv[kb]));
                kb = kb + 1;
            }
        } else {
            proof {
                lemma_merging_takes_first(out, av, bv, ka, kb, mode);
            }
            let x = stack_a.pop().unwrap();
            merged.push(x);
            proof {
                assert(merged.deep_view() =~= out.push(av[ka]));
                ka = ka + 1;
            }
        }
    }
    proof {
        assert(av.take(ka) =~= av);
        assert(bv.take(kb) =~= bv);
    }
    merged
}

} // verus!
