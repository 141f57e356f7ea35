//! What holds of every move of the dialog.

use vstd::prelude::*;
use crate::entry::{EntryKind, EntryView};
use crate::navigation::{AppDataView, AppEvent, NavError};
use crate::sorting::{arranged, distinct_names, in_order, Criterion};
use crate::sorting_laws::{
    lemma_arranged_idempotent,
    lemma_arranged_in_order,
    lemma_arranged_keeps_names_distinct,
    lemma_arranged_permutes,
    lemma_name_order_forgets_listing_order,
    lemma_toggle_selects,
    lemma_toggle_twice_restores,
};

verus! {

/// Whatever the event and whatever was listed for it, a state whose
/// directory lies on its path and whose entries are in order leads to such a
/// state again.
pub proof fn lemma_step_keeps_wf(
    state: AppDataView,
    event: AppEvent,
    listing: Option<Seq<EntryView>>,
)
    requires
        state.wf(),
    ensures
        state.step(event, listing) matches Ok(next) ==> next.wf(),
{
    if let Some(found) = listing {
        lemma_arranged_in_order(found, state.sorting);
    }
    lemma_arranged_in_order(state.entries, state.sorting.toggled(Criterion::Name));
    lemma_arranged_in_order(state.entries, state.sorting.toggled(Criterion::Size));
    lemma_arranged_in_order(state.entries, state.sorting.toggled(Criterion::Date));
}

/// No move brings a name twice into the rows: where no name occurs twice in
/// the rows on show nor in what was listed, none occurs twice in the rows
/// that the event leads to.
pub proof fn lemma_step_keeps_names_distinct(
    state: AppDataView,
    event: AppEvent,
    listing: Option<Seq<EntryView>>,
)
    requires
        distinct_names(state.entries),
        listing matches Some(found) ==> distinct_names(found),
    ensures
        state.step(event, listing) matches Ok(next) ==> distinct_names(next.entries),
{
    if let Some(found) = listing {
        lemma_arranged_keeps_names_distinct(found, state.sorting);
    }
    lemma_arranged_keeps_names_distinct(state.entries, state.sorting.toggled(Criterion::Name));
    lemma_arranged_keeps_names_distinct(state.entries, state.sorting.toggled(Criterion::Size));
    lemma_arranged_keeps_names_distinct(state.entries, state.sorting.toggled(Criterion::Date));
}

/// An event fails in two cases only: it names a row or a segment that is
/// not there, or the directory it leads to could not be listed.
pub proof fn lemma_step_errors(
    state: AppDataView,
    event: AppEvent,
    listing: Option<Seq<EntryView>>,
)
    ensures
        state.step(event, listing) is Err <==> state.target(event) is Err || (state.target(event)
            != Ok::<Option<Seq<Seq<char>>>, NavError>(None) && listing is None),
        state.target(event) is Err ==> state.step(event, listing) == Err::<AppDataView, NavError>(
            NavError::IndexOutOfRange,
        ),
        state.target(event) is Ok && state.step(event, listing) is Err ==> state.step(
            event,
            listing,
        ) == Err::<AppDataView, NavError>(NavError::DirectoryUnreadable),
{
}

/// A click on a segment of the path puts the directory that ends with that
/// segment on show: it is the directory that has to be listed, its depth is
/// the segment's index and one, and the entries on show are what was listed
/// there, in the current order. The path itself stays as it is.
pub proof fn lemma_path_select(state: AppDataView, index: usize, listing: Seq<EntryView>)
    requires
        state.wf(),
        index < state.path_list.len(),
    ensures
        state.target(AppEvent::PathSelect(index)) == Ok::<Option<Seq<Seq<char>>>, NavError>(
            Some(state.path_list.take(index + 1)),
        ),
        state.step(AppEvent::PathSelect(index), Some(listing)) == Ok::<AppDataView, NavError>(
            state.moved((index + 1) as nat, listing),
        ),
        state.moved((index + 1) as nat, listing).path_len == index + 1,
        state.moved((index + 1) as nat, listing).current_path() == state.path_list.take(
            index + 1,
        ),
        state.moved((index + 1) as nat, listing).path_list == state.path_list,
        state.moved((index + 1) as nat, listing).entries == arranged(listing, state.sorting),
        state.moved((index + 1) as nat, listing).entries.to_multiset() == listing.to_multiset(),
        in_order(state.moved((index + 1) as nat, listing).entries, state.sorting),
{
    lemma_arranged_in_order(listing, state.sorting);
    lemma_arranged_permutes(listing, state.sorting);
}

/// A click on a directory row adds exactly one segment, the directory's
/// name, behind the directory on show and highlights the first row.
pub proof fn lemma_select_directory(state: AppDataView, index: usize, listing: Seq<EntryView>)
    requires
        state.wf(),
        index < state.entries.len(),
        state.entries[index as int].kind == EntryKind::Directory,
    ensures
        state.target(AppEvent::Select(index)) == Ok::<Option<Seq<Seq<char>>>, NavError>(
            Some(state.current_path().push(state.entries[index as int].name)),
        ),
        state.step(AppEvent::Select(index), Some(listing)) == Ok::<AppDataView, NavError>(
            state.entered(state.entries[index as int].name, listing),
        ),
        state.entered(state.entries[index as int].name, listing).path_list
            == state.current_path().push(state.entries[index as int].name),
        state.entered(state.entries[index as int].name, listing).path_list.len() == state.path_len
            + 1,
        state.entered(state.entries[index as int].name, listing).path_len == state.path_len + 1,
        state.entered(state.entries[index as int].name, listing).selected == 0,
        state.entered(state.entries[index as int].name, listing).entries.to_multiset()
            == listing.to_multiset(),
{
    lemma_arranged_permutes(listing, state.sorting);
}

/// A click on a row that is no directory highlights that row and changes
/// nothing else, whatever was listed: the path and the depth stay.
pub proof fn lemma_select_other(state: AppDataView, index: usize, listing: Option<Seq<EntryView>>)
    requires
        index < state.entries.len(),
        state.entries[index as int].kind != EntryKind::Directory,
    ensures
        state.step(AppEvent::Select(index), listing) == Ok::<AppDataView, NavError>(
            state.highlighted(index as nat),
        ),
        state.highlighted(index as nat).path_list == state.path_list,
        state.highlighted(index as nat).path_len == state.path_len,
        state.highlighted(index as nat).entries == state.entries,
        state.highlighted(index as nat).sorting == state.sorting,
        state.highlighted(index as nat).selected == index,
{
}

/// Listing the directory on show once more changes no row while names order
/// the rows and the directory holds what it held, no name twice: the order
/// in which the directory is listed does not show.
pub proof fn lemma_relisting_keeps_rows(state: AppDataView, listing: Seq<EntryView>)
    requires
        state.wf(),
        state.sorting.criterion() == Criterion::Name,
        distinct_names(listing),
        listing.to_multiset() == state.entries.to_multiset(),
    ensures
        state.moved(state.path_len, listing) == state,
{
    lemma_name_order_forgets_listing_order(listing, state.entries, state.sorting);
    lemma_arranged_idempotent(state.entries, state.sorting);
}

/// Two clicks on the column that orders the entries bring the state back,
/// entry for entry.
pub proof fn lemma_two_clicks_restore(state: AppDataView, criterion: Criterion)
    requires
        state.wf(),
        state.sorting.criterion() == criterion,
    ensures
        state.resorted(criterion).resorted(criterion) == state,
{
    lemma_toggle_twice_restores(state.entries, state.sorting, criterion);
}

/// After a click on a column that column orders the entries, so from then
/// on two more clicks on it change nothing.
pub proof fn lemma_clicks_settle(state: AppDataView, criterion: Criterion)
    ensures
        state.resorted(criterion).resorted(criterion).resorted(criterion) == state.resorted(
            criterion,
        ),
{
    let once = state.resorted(criterion);
    lemma_toggle_selects(state.sorting, criterion);
    lemma_arranged_in_order(state.entries, state.sorting.toggled(criterion));
    lemma_toggle_twice_restores(once.entries, once.sorting, criterion);
}

} // verus!
