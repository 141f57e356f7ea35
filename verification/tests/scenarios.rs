use file_dialog::{AppData, AppEvent, DirEntryInfo, EntryKind, NavError, Sorting, Timestamp};

fn file(name: &str, size: u64, secs: i64) -> DirEntryInfo {
    DirEntryInfo::new(name.to_string(), EntryKind::File, size, Timestamp::new(secs, 0))
}

fn dir(name: &str, secs: i64) -> DirEntryInfo {
    DirEntryInfo::new(name.to_string(), EntryKind::Directory, 4096, Timestamp::new(secs, 0))
}

fn names(state: &AppData) -> Vec<String> {
    state.entries().iter().map(|e| e.to_text()).collect()
}

fn path(segments: &[&str]) -> Vec<String> {
    segments.iter().map(|s| s.to_string()).collect()
}

fn listing_of_a_b() -> Vec<DirEntryInfo> {
    vec![file("z.txt", 10, 100), dir("sub", 50)]
}

fn listing_of_sub() -> Vec<DirEntryInfo> {
    vec![file("notes.md", 3, 70), file("index.html", 900, 60)]
}

fn listing_of_a() -> Vec<DirEntryInfo> {
    vec![dir("b", 40), file("a.log", 1, 30)]
}

fn in_a_b() -> AppData {
    AppData::new(path(&["a", "b"]), listing_of_a_b())
}

fn in_a_b_sub() -> AppData {
    let mut state = in_a_b();
    assert_eq!(state.event(AppEvent::Select(0), Some(listing_of_sub())), Ok(()));
    state
}

#[test]
fn names_run_from_first_to_last_at_the_start() {
    let state = in_a_b();
    assert_eq!(state.sorting(), Sorting::NameDown);
    assert_eq!(names(&state), vec!["sub", "z.txt"]);
    assert_eq!(state.path_list(), &path(&["a", "b"]));
    assert_eq!(state.path_len(), 2);
    assert_eq!(state.current_path(), path(&["a", "b"]));
    assert_eq!(state.selected(), 0);
}

#[test]
fn a_click_on_the_name_column_turns_the_names_round() {
    let mut state = in_a_b();
    assert_eq!(state.target(&AppEvent::SortName), Ok(None));
    assert_eq!(state.event(AppEvent::SortName, None), Ok(()));
    assert_eq!(state.sorting(), Sorting::NameUp);
    assert_eq!(names(&state), vec!["z.txt", "sub"]);
    assert_eq!(state.path_len(), 2);
}

#[test]
fn a_click_on_a_directory_descends_into_it() {
    let mut state = in_a_b();
    assert_eq!(names(&state)[0], "sub");
    assert_eq!(state.target(&AppEvent::Select(0)), Ok(Some(path(&["a", "b", "sub"]))));
    assert_eq!(state.event(AppEvent::Select(0), Some(listing_of_sub())), Ok(()));
    assert_eq!(state.path_list(), &path(&["a", "b", "sub"]));
    assert_eq!(state.path_len(), 3);
    assert_eq!(state.current_path(), path(&["a", "b", "sub"]));
    assert_eq!(names(&state), vec!["index.html", "notes.md"]);
    assert_eq!(state.selected(), 0);
    assert_eq!(state.sorting(), Sorting::NameDown);
}

#[test]
fn a_click_on_the_first_segment_goes_up_to_it() {
    let mut state = in_a_b_sub();
    assert_eq!(state.path_len(), 3);
    assert_eq!(state.target(&AppEvent::PathSelect(0)), Ok(Some(path(&["a"]))));
    assert_eq!(state.event(AppEvent::PathSelect(0), Some(listing_of_a())), Ok(()));
    assert_eq!(state.path_len(), 1);
    assert_eq!(state.current_path(), path(&["a"]));
    assert_eq!(names(&state), vec!["a.log", "b"]);
}

#[test]
fn going_up_keeps_the_segments_behind() {
    let mut state = in_a_b_sub();
    assert_eq!(state.event(AppEvent::PathSelect(0), Some(listing_of_a())), Ok(()));
    assert_eq!(state.path_list(), &path(&["a", "b", "sub"]));
    assert_eq!(state.path_len(), 1);
    // a segment behind the directory on show can still be clicked
    assert_eq!(state.target(&AppEvent::PathSelect(2)), Ok(Some(path(&["a", "b", "sub"]))));
    assert_eq!(state.event(AppEvent::PathSelect(2), Some(listing_of_sub())), Ok(()));
    assert_eq!(state.path_len(), 3);
    assert_eq!(names(&state), vec!["index.html", "notes.md"]);
}

#[test]
fn going_up_leaves_the_highlighted_row() {
    let mut state = in_a_b_sub();
    assert_eq!(state.event(AppEvent::Select(1), None), Ok(()));
    assert_eq!(state.selected(), 1);
    assert_eq!(state.event(AppEvent::PathSelect(1), Some(listing_of_a_b())), Ok(()));
    assert_eq!(state.selected(), 1);
}

#[test]
fn descending_drops_the_segments_behind() {
    let mut state = in_a_b_sub();
    assert_eq!(state.event(AppEvent::PathSelect(0), Some(listing_of_a())), Ok(()));
    assert_eq!(names(&state), vec!["a.log", "b"]);
    assert_eq!(state.event(AppEvent::Select(1), Some(listing_of_a_b())), Ok(()));
    assert_eq!(state.path_list(), &path(&["a", "b"]));
    assert_eq!(state.path_len(), 2);
    assert_eq!(state.selected(), 0);
    assert_eq!(names(&state), vec!["sub", "z.txt"]);
}

#[test]
fn a_row_that_is_not_there_is_refused() {
    let mut state = in_a_b();
    assert_eq!(state.entries().len(), 2);
    assert_eq!(state.target(&AppEvent::Select(99)), Err(NavError::IndexOutOfRange));
    assert_eq!(state.event(AppEvent::Select(99), None), Err(NavError::IndexOutOfRange));
    assert_eq!(
        state.event(AppEvent::Select(99), Some(listing_of_sub())),
        Err(NavError::IndexOutOfRange)
    );
    assert_eq!(state.select_entry(2, None), Err(NavError::IndexOutOfRange));
    assert_eq!(names(&state), vec!["sub", "z.txt"]);
    assert_eq!(state.path_list(), &path(&["a", "b"]));
    assert_eq!(state.path_len(), 2);
    assert_eq!(state.selected(), 0);
    assert_eq!(state.sorting(), Sorting::NameDown);
}

#[test]
fn a_segment_that_is_not_there_is_refused() {
    let mut state = in_a_b();
    assert_eq!(state.target(&AppEvent::PathSelect(2)), Err(NavError::IndexOutOfRange));
    assert_eq!(
        state.event(AppEvent::PathSelect(2), Some(listing_of_a())),
        Err(NavError::IndexOutOfRange)
    );
    assert_eq!(
        state.select_path_segment(usize::MAX, Some(listing_of_a())),
        Err(NavError::IndexOutOfRange)
    );
    assert_eq!(names(&state), vec!["sub", "z.txt"]);
    assert_eq!(state.path_len(), 2);
}

#[test]
fn a_directory_that_cannot_be_listed_leaves_the_state() {
    let mut state = in_a_b();
    assert_eq!(state.event(AppEvent::Select(0), None), Err(NavError::DirectoryUnreadable));
    assert_eq!(state.event(AppEvent::PathSelect(0), None), Err(NavError::DirectoryUnreadable));
    assert_eq!(state.select_entry(0, None), Err(NavError::DirectoryUnreadable));
    assert_eq!(state.select_path_segment(1, None), Err(NavError::DirectoryUnreadable));
    assert_eq!(names(&state), vec!["sub", "z.txt"]);
    assert_eq!(state.path_list(), &path(&["a", "b"]));
    assert_eq!(state.path_len(), 2);
    assert_eq!(state.selected(), 0);
    assert_eq!(state.sorting(), Sorting::NameDown);
}

#[test]
fn a_click_on_a_file_highlights_it() {
    let mut state = in_a_b();
    assert_eq!(state.target(&AppEvent::Select(1)), Ok(None));
    assert_eq!(state.event(AppEvent::Select(1), None), Ok(()));
    assert_eq!(state.selected(), 1);
    assert_eq!(state.path_list(), &path(&["a", "b"]));
    assert_eq!(state.path_len(), 2);
    assert_eq!(names(&state), vec!["sub", "z.txt"]);
}

#[test]
fn a_click_on_a_file_does_not_look_at_a_listing() {
    let mut state = in_a_b();
    assert_eq!(state.event(AppEvent::Select(1), Some(listing_of_sub())), Ok(()));
    assert_eq!(state.selected(), 1);
    assert_eq!(names(&state), vec!["sub", "z.txt"]);
}

#[test]
fn a_symlink_and_anything_else_is_highlighted_too() {
    let link = DirEntryInfo::new("l".to_string(), EntryKind::Symlink, 0, Timestamp::new(0, 0));
    let pipe = DirEntryInfo::new("p".to_string(), EntryKind::Other, 0, Timestamp::new(0, 0));
    let mut state = AppData::new(path(&["/"]), vec![link, pipe]);
    assert_eq!(state.target(&AppEvent::Select(0)), Ok(None));
    assert_eq!(state.event(AppEvent::Select(1), None), Ok(()));
    assert_eq!(state.selected(), 1);
    assert_eq!(state.event(AppEvent::Select(0), None), Ok(()));
    assert_eq!(state.selected(), 0);
    assert_eq!(state.path_len(), 1);
}

#[test]
fn every_segment_leads_to_its_own_directory() {
    let segments = path(&["/", "home", "me", "src"]);
    for index in 0..segments.len() {
        let mut state = AppData::new(segments.clone(), listing_of_a_b());
        assert_eq!(
            state.target(&AppEvent::PathSelect(index)),
            Ok(Some(segments[..index + 1].to_vec()))
        );
        assert_eq!(state.select_path_segment(index, Some(listing_of_sub())), Ok(()));
        assert_eq!(state.path_len(), index + 1);
        assert_eq!(state.current_path(), segments[..index + 1].to_vec());
        assert_eq!(state.path_list(), &segments);
        assert_eq!(names(&state), vec!["index.html", "notes.md"]);
    }
}

#[test]
fn a_new_directory_is_sorted_by_the_order_in_force() {
    let mut state = in_a_b();
    assert_eq!(state.event(AppEvent::SortSize, None), Ok(()));
    assert_eq!(state.sorting(), Sorting::SizeUp);
    assert_eq!(state.event(AppEvent::Select(1), Some(listing_of_sub())), Ok(()));
    assert_eq!(state.sorting(), Sorting::SizeUp);
    assert_eq!(names(&state), vec!["notes.md", "index.html"]);
}

#[test]
fn an_empty_directory_can_be_shown() {
    let mut state = AppData::new(path(&["/"]), Vec::new());
    assert!(state.entries().is_empty());
    assert_eq!(state.event(AppEvent::Select(0), None), Err(NavError::IndexOutOfRange));
    assert_eq!(state.event(AppEvent::SortDate, None), Ok(()));
    assert!(state.entries().is_empty());
    assert_eq!(state.sorting(), Sorting::DateUp);
}

#[test]
fn an_empty_path_has_no_segment_to_click() {
    let mut state = AppData::new(Vec::new(), listing_of_a_b());
    assert_eq!(state.path_len(), 0);
    assert_eq!(state.event(AppEvent::PathSelect(0), None), Err(NavError::IndexOutOfRange));
    assert_eq!(state.target(&AppEvent::Select(0)), Ok(Some(path(&["sub"]))));
}

#[test]
fn listing_the_directory_on_show_again_changes_no_row() {
    let mut state = in_a_b();
    let rows = state.entries().clone();
    let mut again = listing_of_a_b();
    again.reverse();
    assert_eq!(state.select_path_segment(1, Some(again)), Ok(()));
    assert!(state.entries() == &rows);
    assert_eq!(state.path_len(), 2);
    assert_eq!(state.event(AppEvent::SortName, None), Ok(()));
    let rows = state.entries().clone();
    assert_eq!(state.select_path_segment(1, Some(listing_of_a_b())), Ok(()));
    assert!(state.entries() == &rows);
}
