//! The six orders in which a listing can be shown, and the stable sort that
//! puts a listing into one of them.

use vstd::prelude::*;
use crate::entry::{DirEntryInfo, EntryView};
use crate::name_order::{name_before, text_before};
use crate::merge::merge;
use crate::sorting_laws::{
    lemma_arranged_idempotent,
    lemma_arranged_in_order,
    lemma_arranged_keeps_ties,
    lemma_arranged_permutes,
    lemma_arranged_unique,
    lemma_tied_add,
};

verus! {

/// What the entries are ordered by.
#[derive(Debug, Eq, PartialEq, Clone, Copy, Structural)]
pub enum Criterion {
    Name,
    Size,
    Date,
}

/// The order of the entries. The arrow of a column points up when the first
/// row holds the smallest size or the oldest date; for names it points down
/// when the first row holds the name that comes first.
#[derive(Debug, Eq, PartialEq, Clone, Copy, Structural)]
pub enum Sorting {
    /// Names from last to first.
    NameUp,
    /// Names from first to last.
    NameDown,
    /// Sizes from smallest to largest.
    SizeUp,
    /// Sizes from largest to smallest.
    SizeDown,
    /// Dates from oldest to newest.
    DateUp,
    /// Dates from newest to oldest.
    DateDown,
}

impl Sorting {
    /// What this order goes by.
    pub open spec fn criterion(self) -> Criterion {
        match self {
            Sorting::NameUp | Sorting::NameDown => Criterion::Name,
            Sorting::SizeUp | Sorting::SizeDown => Criterion::Size,
            Sorting::DateUp | Sorting::DateDown => Criterion::Date,
        }
    }

    /// The same criterion in the other direction.
    pub open spec fn reversed(self) -> Sorting {
        match self {
            Sorting::NameUp => Sorting::NameDown,
            Sorting::NameDown => Sorting::NameUp,
            Sorting::SizeUp => Sorting::SizeDown,
            Sorting::SizeDown => Sorting::SizeUp,
            Sorting::DateUp => Sorting::DateDown,
            Sorting::DateDown => Sorting::DateUp,
        }
    }

    /// The order that a click on the column of `criterion` leads to: the other
    /// direction where that column already orders the entries with its arrow
    /// up, and the arrow up in every other case.
    pub open spec fn toggled(self, criterion: Criterion) -> Sorting {
        match criterion {
            Criterion::Name => if self == Sorting::NameUp {
                Sorting::NameDown
            } else {
                Sorting::NameUp
            },
            Criterion::Size => if self == Sorting::SizeUp {
                Sorting::SizeDown
            } else {
                Sorting::SizeUp
            },
            Criterion::Date => if self == Sorting::DateUp {
                Sorting::DateDown
            } else {
                Sorting::DateUp
            },
        }
    }

    /// Executable form of [`Sorting::criterion`].
    pub fn column(&self) -> (c: Criterion)
        ensures
            c == self.criterion(),
    {
        match self {
            Sorting::NameUp | Sorting::NameDown => Criterion::Name,
            Sorting::SizeUp | Sorting::SizeDown => Criterion::Size,
            Sorting::DateUp | Sorting::DateDown => Criterion::Date,
        }
    }

    /// Executable form of [`Sorting::toggled`].
    pub fn toggle(&self, criterion: Criterion) -> (next: Sorting)
        ensures
            next == self.toggled(criterion),
    {
        match criterion {
            Criterion::Name => match self {
                Sorting::NameUp => Sorting::NameDown,
                _ => Sorting::NameUp,
            },
            Criterion::Size => match self {
                Sorting::SizeUp => Sorting::SizeDown,
                _ => Sorting::SizeUp,
            },
            Criterion::Date => match self {
                Sorting::DateUp => Sorting::DateDown,
                _ => Sorting::DateUp,
            },
        }
    }

    /// Two orders are the same when they are equal.
    pub fn same(&self, other: &Self) -> (r: bool)
        ensures
            r == (*self == *other),
    {
        *self == *other
    }
}

/// Whether `a` has to stand strictly before `b` under `mode`. Only the key of
/// the mode counts, whatever the kinds of the two entries: a directory is
/// placed by the size and the date that its listing gave, like a file.
pub open spec fn precedes(a: EntryView, b: EntryView, mode: Sorting) -> bool {
    match mode {
        Sorting::NameUp => text_before(b.name, a.name),
        Sorting::NameDown => text_before(a.name, b.name),
        Sorting::SizeUp => a.size < b.size,
        Sorting::SizeDown => b.size < a.size,
        Sorting::DateUp => a.modified.earlier(b.modified),
        Sorting::DateDown => b.modified.earlier(a.modified),
    }
}

/// Whether neither of `a` and `b` has to stand before the other.
pub open spec fn ties(a: EntryView, b: EntryView, mode: Sorting) -> bool {
    !precedes(a, b, mode) && !precedes(b, a, mode)
}

/// Whether no two entries of `s` carry the same name, as it is with what one
/// directory holds.
pub open spec fn distinct_names(s: Seq<EntryView>) -> bool {
    forall|i: int, j: int| 0 <= i < j < s.len() ==> s[i].name != s[j].name
}

/// Whether no entry of `s` stands after one that it has to precede.
pub open spec fn in_order(s: Seq<EntryView>, mode: Sorting) -> bool {
    forall|i: int, j: int| 0 <= i < j < s.len() ==> !precedes(s[j], s[i], mode)
}

/// The entries of `s` that tie with `e`, in the order they have in `s`.
pub open spec fn tied(s: Seq<EntryView>, e: EntryView, mode: Sorting) -> Seq<EntryView>
    decreases s.len(),
{
    if s.len() == 0 {
        s
    } else if ties(s.last(), e, mode) {
        tied(s.drop_last(), e, mode).push(s.last())
    } else {
        tied(s.drop_last(), e, mode)
    }
}

/// Whether `r` holds, for every entry, the entries that tie with it in the
/// order in which `s` holds them.
pub open spec fn keeps_ties(r: Seq<EntryView>, s: Seq<EntryView>, mode: Sorting) -> bool {
    forall|e: EntryView| #[trigger] tied(r, e, mode) == tied(s, e, mode)
}

/// `t` with `x` put in behind the last entry that `x` does not have to
/// precede.
pub open spec fn place(t: Seq<EntryView>, x: EntryView, mode: Sorting) -> Seq<EntryView>
    decreases t.len(),
{
    if t.len() > 0 && precedes(x, t.last(), mode) {
        place(t.drop_last(), x, mode).push(t.last())
    } else {
        t.push(x)
    }
}

/// The entries of `s` sorted by `mode`, entries that tie staying in the order
/// they had in `s`.
pub open spec fn arranged(s: Seq<EntryView>, mode: Sorting) -> Seq<EntryView>
    decreases s.len(),
{
    if s.len() == 0 {
        s
    } else {
        place(arranged(s.drop_last(), mode), s.last(), mode)
    }
}

/// Executable form of [`precedes`].
pub fn comes_before(a: &DirEntryInfo, b: &DirEntryInfo, mode: Sorting) -> (r: bool)
    ensures
        r == precedes(a@, b@, mode),
{
    match mode {
        Sorting::NameUp => name_before(b.name().as_str(), a.name().as_str()),
        Sorting::NameDown => name_before(a.name().as_str(), b.name().as_str()),
        Sorting::SizeUp => a.size() < b.size(),
        Sorting::SizeDown => b.size() < a.size(),
        Sorting::DateUp => a.modified().is_earlier(&b.modified()),
        Sorting::DateDown => b.modified().is_earlier(&a.modified()),
    }
}

/// Sorts `entries` by `mode`, by merging. The sort is total and stable: what
/// comes out is in order, holds every entry as often as it went in, and holds
/// entries that tie in the order they went in. One sequence only does all
/// that, and [`arranged`] names it.
pub fn sort_entries(entries: Vec<DirEntryInfo>, mode: Sorting) -> (sorted: Vec<DirEntryInfo>)
    ensures
        sorted.deep_view() == arranged(entries.deep_view(), mode),
        in_order(sorted.deep_view(), mode),
        sorted.deep_view().to_multiset() == entries.deep_view().to_multiset(),
        keeps_ties(sorted.deep_view(), entries.deep_view(), mode),
        sorted.len() == entries.len(),
    decreases entries.len(),
{
    let ghost given = entries.deep_view();
    proof {
        lemma_arranged_in_order(given, mode);
        lemma_arranged_permutes(given, mode);
        lemma_arranged_keeps_ties(given, mode);
    }
    let count = entries.len();
    if count <= 1 {
        proof {
            lemma_arranged_idempotent(given, mode);
        }
        return entries;
    }
    let half = count / 2;
    let mut first = entries;
    let second = first.split_off(half);
    proof {
        assert(first.deep_view() =~= given.take(half as int));
        assert(second.deep_view() =~= given.skip(half as int));
    }
    let first = sort_entries(first, mode);
    let second = sort_entries(second, mode);
    let sorted = merge(first, second, mode);
    proof {
        assert forall|e: EntryView| #[trigger]
            tied(sorted.deep_view(), e, mode) == tied(given, e, mode) by {
            assert(tied(first.deep_view(), e, mode) == tied(given.take(half as int), e, mode));
            assert(tied(second.deep_view(), e, mode) == tied(given.skip(half as int), e, mode));
            assert(given =~= given.take(half as int) + given.skip(half as int));
            lemma_tied_add(given.take(half as int), given.skip(half as int), e, mode);
        }
        lemma_arranged_unique(sorted.deep_view(), given, mode);
    }
    sorted
}

} // verus!
