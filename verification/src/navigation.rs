//! The state of the dialog: the path walked so far, the directory on show,
//! its entries in the current order, and the highlighted row.
//!
//! The state never reads a directory itself. [`AppData::target`] names the
//! directory that an event asks for; the caller lists it and hands the
//! listing, or the news that there is none, to [`AppData::event`].

use vstd::prelude::*;
use crate::entry::{DirEntryInfo, EntryKind, EntryView};
use crate::sorting::{arranged, in_order, sort_entries, Criterion, Sorting};
use crate::sorting_laws::lemma_arranged_in_order;

verus! {

/// Why an event left the state as it was.
#[derive(Debug, Clone, Copy, PartialEq, Eq, Structural)]
pub enum NavError {
    /// The directory that the event leads to could not be listed.
    DirectoryUnreadable,
    /// The event names a row or a path segment that is not there.
    IndexOutOfRange,
}

/// What the user can do in the dialog.
#[derive(Debug, Clone, Copy, PartialEq, Eq, Structural)]
pub enum AppEvent {
    /// A click on the row with this index.
    Select(usize),
    /// A click on the path segment with this index.
    PathSelect(usize),
    /// A click on the head of the name column.
    SortName,
    /// A click on the head of the size column.
    SortSize,
    /// A click on the head of the date column.
    SortDate,
}

/// The mathematical content of an [`AppData`].
#[verifier::ext_equal]
pub struct AppDataView {
    /// Every segment of the deepest path walked since the last descent.
    pub path_list: Seq<Seq<char>>,
    /// How many leading segments make up the directory on show.
    pub path_len: nat,
    /// The entries of the directory on show.
    pub entries: Seq<EntryView>,
    /// The highlighted row.
    pub selected: nat,
    /// The order of the entries.
    pub sorting: Sorting,
}

impl AppDataView {
    /// What holds of every state: the directory on show lies on the path,
    /// and the entries stand in the current order.
    pub open spec fn wf(self) -> bool {
        &&& self.path_len <= self.path_list.len()
        &&& in_order(self.entries, self.sorting)
    }

    /// The segments of the directory on show.
    pub open spec fn current_path(self) -> Seq<Seq<char>> {
        self.path_list.take(self.path_len as int)
    }

    /// The state once the directory made of the first `depth` segments is on
    /// show, `listing` being what that directory holds. The segments behind
    /// it stay, and so does the highlighted row.
    pub open spec fn moved(self, depth: nat, listing: Seq<EntryView>) -> AppDataView {
        AppDataView { path_len: depth, entries: arranged(listing, self.sorting), ..self }
    }

    /// The state once the child `name` of the directory on show is on show
    /// itself, `listing` being what the child holds. Segments behind the
    /// directory that was on show are gone, and the first row is highlighted.
    pub open spec fn entered(self, name: Seq<char>, listing: Seq<EntryView>) -> AppDataView {
        AppDataView {
            path_list: self.current_path().push(name),
            path_len: self.path_len + 1,
            entries: arranged(listing, self.sorting),
            selected: 0,
            sorting: self.sorting,
        }
    }

    /// The state with row `index` highlighted.
    pub open spec fn highlighted(self, index: nat) -> AppDataView {
        AppDataView { selected: index, ..self }
    }

    /// The state after a click on the column of `criterion`: the order
    /// changes as [`Sorting::toggled`] says and the entries are sorted anew.
    pub open spec fn resorted(self, criterion: Criterion) -> AppDataView {
        AppDataView {
            entries: arranged(self.entries, self.sorting.toggled(criterion)),
            sorting: self.sorting.toggled(criterion),
            ..self
        }
    }

    /// The directory that has to be listed before `event` can take effect:
    /// `Ok(None)` where the event needs none, an error where the event names
    /// a row or a segment that is not there.
    pub open spec fn target(self, event: AppEvent) -> Result<Option<Seq<Seq<char>>>, NavError> {
        match event {
            AppEvent::Select(index) => if index >= self.entries.len() {
                Err(NavError::IndexOutOfRange)
            } else if self.entries[index as int].kind == EntryKind::Directory {
                Ok(Some(self.current_path().push(self.entries[index as int].name)))
            } else {
                Ok(None)
            },
            AppEvent::PathSelect(index) => if index >= self.path_list.len() {
                Err(NavError::IndexOutOfRange)
            } else {
                Ok(Some(self.path_list.take(index + 1)))
            },
            _ => Ok(None),
        }
    }

    /// The state that `event` leads to, `listing` being what the directory
    /// of [`AppDataView::target`] holds, or `None` where it could not be
    /// listed. An error leaves the state as it is.
    pub open spec fn step(self, event: AppEvent, listing: Option<Seq<EntryView>>) -> Result<
        AppDataView,
        NavError,
    > {
        match self.target(event) {
            Err(e) => Err(e),
            Ok(Some(_)) => match listing {
                None => Err(NavError::DirectoryUnreadable),
                Some(found) => match event {
                    AppEvent::Select(index) => Ok(
                        self.entered(self.entries[index as int].name, found),
                    ),
                    AppEvent::PathSelect(index) => Ok(self.moved((index + 1) as nat, found)),
                    _ => Ok(self),
                },
            },
            Ok(None) => match event {
                AppEvent::Select(index) => Ok(self.highlighted(index as nat)),
                AppEvent::SortName => Ok(self.resorted(Criterion::Name)),
                AppEvent::SortSize => Ok(self.resorted(Criterion::Size)),
                AppEvent::SortDate => Ok(self.resorted(Criterion::Date)),
                AppEvent::PathSelect(_) => Ok(self),
            },
        }
    }
}

/// What [`AppData::target`] returned, read as the model reads it.
pub open spec fn target_view(r: Result<Option<Vec<String>>, NavError>) -> Result<
    Option<Seq<Seq<char>>>,
    NavError,
> {
    match r {
        Ok(Some(path)) => Ok(Some(path.deep_view())),
        Ok(None) => Ok(None),
        Err(e) => Err(e),
    }
}

/// The session's one mutable structure.
#[derive(Debug)]
pub struct AppData {
    path_list: Vec<String>,
    path_len: usize,
    entries: Vec<DirEntryInfo>,
    selected: usize,
    sorting: Sorting,
}

impl View for AppData {
    type V = AppDataView;

    closed spec fn view(&self) -> AppDataView {
        AppDataView {
            path_list: self.path_list.deep_view(),
            path_len: self.path_len as nat,
            entries: self.entries.deep_view(),
            selected: self.selected as nat,
            sorting: self.sorting,
        }
    }
}

/// The first `count` segments of `segments`, copied.
fn leading(segments: &Vec<String>, count: usize) -> (r: Vec<String>)
    requires
        count <= segments.len(),
    ensures
        r.deep_view() == segments.deep_view().take(count as int),
{
    let mut r: Vec<String> = Vec::new();
    let mut i: usize = 0;
    while i < count
        invariant
            i <= count <= segments.len(),
            r.len() == i,
            r.deep_view() == segments.deep_view().take(i as int),
        decreases count - i,
    {
        let ghost copied = r.deep_view();
        r.push(segments[i].clone());
        i = i + 1;
        assert forall|j: int| 0 <= j < i implies r.deep_view()[j] == segments.deep_view()[j] by {
            if j < i - 1 {
                assert(r.deep_view()[j] == copied[j]);
            }
        }
        assert(r.deep_view() =~= segments.deep_view().take(i as int));
    }
    r
}

impl AppData {
    #[verifier::type_invariant]
    spec fn inv(self) -> bool {
        self@.wf()
    }

    /// The state at the start: the whole of `path_list` is the directory on
    /// show, `listing` is what it holds, names run from first to last and the
    /// first row is highlighted.
    pub fn new(path_list: Vec<String>, listing: Vec<DirEntryInfo>) -> (state: Self)
        ensures
            state@.wf(),
            state@ == (AppDataView {
                path_list: path_list.deep_view(),
                path_len: path_list.len() as nat,
                entries: arranged(listing.deep_view(), Sorting::NameDown),
                selected: 0,
                sorting: Sorting::NameDown,
            }),
    {
        let entries = sort_entries(listing, Sorting::NameDown);
        proof {
            lemma_arranged_in_order(listing.deep_view(), Sorting::NameDown);
        }
        let path_len = path_list.len();
        AppData { path_list, path_len, entries, selected: 0, sorting: Sorting::NameDown }
    }

    /// Every segment of the path, those behind the directory on show too.
    pub fn path_list(&self) -> (r: &Vec<String>)
        ensures
            r.deep_view() == self@.path_list,
            self@.path_len <= r.len(),
    {
        proof {
            use_type_invariant(self);
        }
        &self.path_list
    }

    /// How many leading segments make up the directory on show.
    pub fn path_len(&self) -> (r: usize)
        ensures
            r == self@.path_len,
            r <= self@.path_list.len(),
    {
        proof {
            use_type_invariant(self);
        }
        self.path_len
    }

    /// The entries of the directory on show, in the current order.
    pub fn entries(&self) -> (r: &Vec<DirEntryInfo>)
        ensures
            r.deep_view() == self@.entries,
            in_order(self@.entries, self@.sorting),
    {
        proof {
            use_type_invariant(self);
        }
        &self.entries
    }

    /// The highlighted row.
    pub fn selected(&self) -> (r: usize)
        ensures
            r == self@.selected,
    {
        self.selected
    }

    /// The order of the entries.
    pub fn sorting(&self) -> (r: Sorting)
        ensures
            r == self@.sorting,
    {
        self.sorting
    }

    /// The segments of the directory on show.
    pub fn current_path(&self) -> (r: Vec<String>)
        ensures
            r.deep_view() == self@.current_path(),
    {
        proof {
            use_type_invariant(self);
        }
        leading(&self.path_list, self.path_len)
    }

    /// The directory that has to be listed before `event` can take effect,
    /// as its path segments. `Ok(None)` says that the event needs no listing.
    pub fn target(&self, event: &AppEvent) -> (r: Result<Option<Vec<String>>, NavError>)
        ensures
            target_view(r) == self@.target(*event),
    {
        proof {
            use_type_invariant(self);
        }
        match *event {
            AppEvent::Select(index) => {
                if index >= self.entries.len() {
                    return Err(NavError::IndexOutOfRange);
                }
                let entry = &self.entries[index];
                if entry.is_dir() {
                    let mut path = leading(&self.path_list, self.path_len);
                    let ghost front = path.deep_view();
                    path.push(entry.name().clone());
                    assert(path.deep_view() =~= front.push(entry@.name));
                    Ok(Some(path))
                } else {
                    Ok(None)
                }
            },
            AppEvent::PathSelect(index) => {
                if index >= self.path_list.len() {
                    Err(NavError::IndexOutOfRange)
                } else {
                    Ok(Some(leading(&self.path_list, index + 1)))
                }
            },
            _ => Ok(None),
        }
    }

    /// Puts the directory made of the first `index` segments on show, with
    /// `listing` as what it holds.
    fn update_path(&mut self, index: usize, listing: Vec<DirEntryInfo>)
        requires
            index <= old(self)@.path_list.len(),
        ensures
            final(self)@ == old(self)@.moved(index as nat, listing.deep_view()),
    {
        proof {
            use_type_invariant(&*self);
            lemma_arranged_in_order(listing.deep_view(), self.sorting);
        }
        let sorted = sort_entries(listing, self.sorting);
        self.path_len = index;
        self.entries = sorted;
    }

    /// A click on path segment `index`: the directory that ends with that
    /// segment comes on show, `listing` being what the caller found in it
    /// (`None`: it could not be listed). The segments behind it stay on the
    /// path, and the highlighted row stays where it is.
    pub fn select_path_segment(&mut self, index: usize, listing: Option<Vec<DirEntryInfo>>) -> (r:
        Result<(), NavError>)
        ensures
            final(self)@.wf(),
            index >= old(self)@.path_list.len() ==> r == Err::<(), NavError>(
                NavError::IndexOutOfRange,
            ),
            index < old(self)@.path_list.len() && listing is None ==> r == Err::<(), NavError>(
                NavError::DirectoryUnreadable,
            ),
            r is Err ==> final(self)@ == old(self)@,
            index < old(self)@.path_list.len() && listing is Some ==> r is Ok && final(self)@
                == old(self)@.moved((index + 1) as nat, listing->0.deep_view()),
    {
        proof {
            use_type_invariant(&*self);
        }
        if index >= self.path_list.len() {
            return Err(NavError::IndexOutOfRange);
        }
        match listing {
            None => Err(NavError::DirectoryUnreadable),
            Some(found) => {
                proof {
                    lemma_arranged_in_order(found.deep_view(), self.sorting);
                }
                self.update_path(index + 1, found);
                Ok(())
            },
        }
    }

    /// A click on row `index`. On a directory the dialog descends into it,
    /// `listing` being what the caller found there (`None`: it could not be
    /// listed): its name becomes the last segment of the path and the first
    /// row is highlighted. On anything else the row is highlighted and
    /// `listing` is not looked at.
    pub fn select_entry(&mut self, index: usize, listing: Option<Vec<DirEntryInfo>>) -> (r: Result<
        (),
        NavError,
    >)
        ensures
            final(self)@.wf(),
            index >= old(self)@.entries.len() ==> r == Err::<(), NavError>(
                NavError::IndexOutOfRange,
            ),
            index < old(self)@.entries.len() && old(self)@.entries[index as int].kind
                == EntryKind::Directory && listing is None ==> r == Err::<(), NavError>(
                NavError::DirectoryUnreadable,
            ),
            r is Err ==> final(self)@ == old(self)@,
            index < old(self)@.entries.len() && old(self)@.entries[index as int].kind
                == EntryKind::Directory && listing is Some ==> r is Ok && final(self)@ == old(
                self,
            )@.entered(old(self)@.entries[index as int].name, listing->0.deep_view()),
            index < old(self)@.entries.len() && old(self)@.entries[index as int].kind
                != EntryKind::Directory ==> r is Ok && final(self)@ == old(self)@.highlighted(
                index as nat,
            ),
    {
        proof {
            use_type_invariant(&*self);
        }
        if index >= self.entries.len() {
            return Err(NavError::IndexOutOfRange);
        }
        if !self.entries[index].is_dir() {
            self.selected = index;
            return Ok(());
        }
        match listing {
            None => Err(NavError::DirectoryUnreadable),
            Some(found) => {
                let name = self.entries[index].name().clone();
                let ghost before = self@;
                proof {
                    lemma_arranged_in_order(found.deep_view(), self.sorting);
                }
                let depth = self.path_len;
                let mut path: Vec<String> = Vec::new();
                self.path_len = 0;
                std::mem::swap(&mut self.path_list, &mut path);
                path.truncate(depth);
                assert(path.deep_view() =~= before.current_path());
                path.push(name);
                assert(path.deep_view() =~= before.current_path().push(name@));
                let depth = path.len();
                self.path_list = path;
                self.update_path(depth, found);
                self.selected = 0;
                Ok(())
            },
        }
    }

    /// A click on the column of `criterion`: the order changes as
    /// [`Sorting::toggled`] says, and the entries on show are sorted anew
    /// from the order they stand in. No directory is listed for this.
    pub fn toggle_sort(&mut self, criterion: Criterion)
        ensures
            final(self)@.wf(),
            final(self)@ == old(self)@.resorted(criterion),
    {
        proof {
            use_type_invariant(&*self);
        }
        let next = self.sorting.toggle(criterion);
        let mut shown: Vec<DirEntryInfo> = Vec::new();
        std::mem::swap(&mut self.entries, &mut shown);
        proof {
            lemma_arranged_in_order(shown.deep_view(), next);
        }
        self.sorting = next;
        self.entries = sort_entries(shown, next);
    }

    /// Lets `event` take effect. `listing` is what the caller found in the
    /// directory that [`AppData::target`] names for the event, `None` where
    /// that directory could not be listed or none was asked for. On an error
    /// the state is what it was.
    pub fn event(&mut self, event: AppEvent, listing: Option<Vec<DirEntryInfo>>) -> (r: Result<
        (),
        NavError,
    >)
        ensures
            final(self)@.wf(),
            r is Ok <==> old(self)@.step(event, listing.deep_view()) is Ok,
            r is Ok ==> final(self)@ == old(self)@.step(event, listing.deep_view())->Ok_0,
            r is Err ==> final(self)@ == old(self)@ && r->Err_0 == old(self)@.step(
                event,
                listing.deep_view(),
            )->Err_0,
    {
        match event {
            AppEvent::Select(index) => self.select_entry(index, listing),
            AppEvent::PathSelect(index) => self.select_path_segment(index, listing),
            AppEvent::SortName => {
                self.toggle_sort(Criterion::Name);
                Ok(())
            },
            AppEvent::SortSize => {
                self.toggle_sort(Criterion::Size);
                Ok(())
            },
            AppEvent::SortDate => {
                self.toggle_sort(Criterion::Date);
                Ok(())
            },
        }
    }
}

} // verus!
