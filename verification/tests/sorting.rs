use file_dialog::name_order::name_before;
use file_dialog::sorting::{comes_before, sort_entries};
use file_dialog::{AppData, AppEvent, Criterion, DirEntryInfo, EntryKind, Sorting, Timestamp};

fn entry(name: &str, size: u64, secs: i64, nanos: u32) -> DirEntryInfo {
    DirEntryInfo::new(name.to_string(), EntryKind::File, size, Timestamp::new(secs, nanos))
}

fn mixed() -> Vec<DirEntryInfo> {
    vec![
        entry("pear", 20, 300, 0),
        entry("apple", 20, 100, 5),
        DirEntryInfo::new("fig".to_string(), EntryKind::Directory, 4096, Timestamp::new(100, 4)),
        entry("kiwi", 7, 200, 0),
        entry("date", 20, 50, 0),
    ]
}

fn names_of(entries: &[DirEntryInfo]) -> Vec<String> {
    entries.iter().map(|e| e.to_text()).collect()
}

const ALL: [Sorting; 6] = [
    Sorting::NameUp,
    Sorting::NameDown,
    Sorting::SizeUp,
    Sorting::SizeDown,
    Sorting::DateUp,
    Sorting::DateDown,
];

#[test]
fn name_down_runs_from_first_to_last() {
    let sorted = sort_entries(mixed(), Sorting::NameDown);
    assert_eq!(names_of(&sorted), vec!["apple", "date", "fig", "kiwi", "pear"]);
}

#[test]
fn name_up_runs_from_last_to_first() {
    let sorted = sort_entries(mixed(), Sorting::NameUp);
    assert_eq!(names_of(&sorted), vec!["pear", "kiwi", "fig", "date", "apple"]);
}

#[test]
fn size_up_keeps_equal_sizes_as_they_came() {
    let sorted = sort_entries(mixed(), Sorting::SizeUp);
    assert_eq!(names_of(&sorted), vec!["kiwi", "pear", "apple", "date", "fig"]);
}

#[test]
fn size_down_keeps_equal_sizes_as_they_came() {
    let sorted = sort_entries(mixed(), Sorting::SizeDown);
    assert_eq!(names_of(&sorted), vec!["fig", "pear", "apple", "date", "kiwi"]);
}

#[test]
fn date_up_goes_by_seconds_then_nanoseconds() {
    let sorted = sort_entries(mixed(), Sorting::DateUp);
    assert_eq!(names_of(&sorted), vec!["date", "fig", "apple", "kiwi", "pear"]);
}

#[test]
fn date_down_goes_from_newest_to_oldest() {
    let sorted = sort_entries(mixed(), Sorting::DateDown);
    assert_eq!(names_of(&sorted), vec!["pear", "kiwi", "apple", "fig", "date"]);
}

#[test]
fn dates_before_1970_come_first() {
    let given = vec![entry("new", 0, 1, 0), entry("old", 0, -1, 999_999_999), entry("older", 0, -2, 0)];
    let sorted = sort_entries(given, Sorting::DateUp);
    assert_eq!(names_of(&sorted), vec!["older", "old", "new"]);
}

#[test]
fn a_directory_is_placed_by_the_size_of_its_listing() {
    let given = vec![
        entry("big", 5000, 0, 0),
        DirEntryInfo::new("d".to_string(), EntryKind::Directory, 4096, Timestamp::new(0, 0)),
        entry("small", 1, 0, 0),
    ];
    let sorted = sort_entries(given, Sorting::SizeUp);
    assert_eq!(names_of(&sorted), vec!["small", "d", "big"]);
}

#[test]
fn sorting_keeps_every_entry() {
    for mode in ALL {
        let sorted = sort_entries(mixed(), mode);
        assert_eq!(sorted.len(), 5);
        for e in mixed() {
            assert_eq!(sorted.iter().filter(|s| **s == e).count(), 1);
        }
    }
}

#[test]
fn sorting_leaves_no_pair_out_of_order() {
    for mode in ALL {
        let sorted = sort_entries(mixed(), mode);
        for j in 0..sorted.len() {
            for i in 0..j {
                assert!(!comes_before(&sorted[j], &sorted[i], mode));
            }
        }
    }
}

#[test]
fn sorting_the_same_listing_twice_gives_the_same_rows() {
    for mode in ALL {
        let once = sort_entries(mixed(), mode);
        let again = sort_entries(mixed(), mode);
        assert!(once == again);
    }
}

#[test]
fn sorting_what_is_sorted_changes_nothing() {
    for mode in ALL {
        let once = sort_entries(mixed(), mode);
        let twice = sort_entries(once.clone(), mode);
        assert!(once == twice);
    }
}

#[test]
fn sorting_nothing_gives_nothing() {
    for mode in ALL {
        assert!(sort_entries(Vec::new(), mode).is_empty());
    }
}

#[test]
fn sorting_one_entry_gives_it_back() {
    for mode in ALL {
        let sorted = sort_entries(vec![entry("only", 1, 1, 1)], mode);
        assert_eq!(names_of(&sorted), vec!["only"]);
    }
}

#[test]
fn a_long_listing_in_reverse_comes_out_in_order() {
    let given: Vec<DirEntryInfo> =
        (0..300u64).rev().map(|i| entry(&format!("f{:04}", i), i / 3, 0, 0)).collect();
    let by_name = sort_entries(given.clone(), Sorting::NameDown);
    for (i, e) in by_name.iter().enumerate() {
        assert_eq!(e.to_text(), format!("f{:04}", i));
    }
    let by_size = sort_entries(given, Sorting::SizeUp);
    for (i, e) in by_size.iter().enumerate() {
        // three entries share each size and keep the order they came in
        let group = i as u64 / 3;
        let within = 2 - (i as u64 % 3);
        assert_eq!(e.to_text(), format!("f{:04}", group * 3 + within));
    }
}

#[test]
fn names_are_ordered_by_code_point() {
    assert!(name_before("a", "b"));
    assert!(!name_before("b", "a"));
    assert!(!name_before("a", "a"));
    assert!(name_before("", "a"));
    assert!(!name_before("a", ""));
    assert!(!name_before("", ""));
    assert!(name_before("a", "ab"));
    assert!(!name_before("ab", "a"));
    assert!(name_before("Zebra", "apple"));
    assert!(name_before("file10", "file9"));
    assert!(name_before("z", "é"));
    assert!(name_before("é", "日本"));
    assert!(name_before("日本", "😀"));
    assert!(!name_before("😀", "日本"));
}

#[test]
fn the_order_of_two_entries_follows_the_mode() {
    let a = entry("a", 2, 9, 0);
    let b = entry("b", 1, 9, 1);
    assert!(comes_before(&a, &b, Sorting::NameDown));
    assert!(comes_before(&b, &a, Sorting::NameUp));
    assert!(comes_before(&b, &a, Sorting::SizeUp));
    assert!(comes_before(&a, &b, Sorting::SizeDown));
    assert!(comes_before(&a, &b, Sorting::DateUp));
    assert!(comes_before(&b, &a, Sorting::DateDown));
    for mode in ALL {
        assert!(!comes_before(&a, &a, mode));
        assert!(!(comes_before(&a, &b, mode) && comes_before(&b, &a, mode)));
    }
}

#[test]
fn a_click_on_the_active_column_turns_it_round() {
    assert_eq!(Sorting::NameUp.toggle(Criterion::Name), Sorting::NameDown);
    assert_eq!(Sorting::NameDown.toggle(Criterion::Name), Sorting::NameUp);
    assert_eq!(Sorting::SizeUp.toggle(Criterion::Size), Sorting::SizeDown);
    assert_eq!(Sorting::SizeDown.toggle(Criterion::Size), Sorting::SizeUp);
    assert_eq!(Sorting::DateUp.toggle(Criterion::Date), Sorting::DateDown);
    assert_eq!(Sorting::DateDown.toggle(Criterion::Date), Sorting::DateUp);
}

#[test]
fn a_click_on_another_column_starts_with_the_arrow_up() {
    for mode in [Sorting::SizeUp, Sorting::SizeDown, Sorting::DateUp, Sorting::DateDown] {
        assert_eq!(mode.toggle(Criterion::Name), Sorting::NameUp);
    }
    for mode in [Sorting::NameUp, Sorting::NameDown, Sorting::DateUp, Sorting::DateDown] {
        assert_eq!(mode.toggle(Criterion::Size), Sorting::SizeUp);
    }
    for mode in [Sorting::NameUp, Sorting::NameDown, Sorting::SizeUp, Sorting::SizeDown] {
        assert_eq!(mode.toggle(Criterion::Date), Sorting::DateUp);
    }
}

#[test]
fn every_mode_names_its_column() {
    assert_eq!(Sorting::NameUp.column(), Criterion::Name);
    assert_eq!(Sorting::NameDown.column(), Criterion::Name);
    assert_eq!(Sorting::SizeUp.column(), Criterion::Size);
    assert_eq!(Sorting::SizeDown.column(), Criterion::Size);
    assert_eq!(Sorting::DateUp.column(), Criterion::Date);
    assert_eq!(Sorting::DateDown.column(), Criterion::Date);
    for mode in ALL {
        for column in [Criterion::Name, Criterion::Size, Criterion::Date] {
            assert_eq!(mode.toggle(column).column(), column);
        }
    }
}

#[test]
fn two_modes_are_the_same_when_equal() {
    for a in ALL {
        for b in ALL {
            assert_eq!(a.same(&b), a == b);
        }
    }
}

#[test]
fn two_clicks_on_the_active_column_bring_the_rows_back() {
    for column in [AppEvent::SortName, AppEvent::SortSize, AppEvent::SortDate] {
        let mut state = AppData::new(vec!["/".to_string()], mixed());
        // the first click makes the column the active one
        assert_eq!(state.event(column, None), Ok(()));
        let mode = state.sorting();
        let rows = state.entries().clone();
        assert_eq!(state.event(column, None), Ok(()));
        assert_ne!(state.sorting(), mode);
        assert_eq!(state.event(column, None), Ok(()));
        assert_eq!(state.sorting(), mode);
        assert!(state.entries() == &rows);
    }
}

#[test]
fn two_clicks_on_the_name_column_bring_the_first_rows_back() {
    let mut state = AppData::new(vec!["/".to_string()], mixed());
    let rows = state.entries().clone();
    assert_eq!(state.event(AppEvent::SortName, None), Ok(()));
    assert_eq!(state.event(AppEvent::SortName, None), Ok(()));
    assert_eq!(state.sorting(), Sorting::NameDown);
    assert!(state.entries() == &rows);
}

#[test]
fn two_clicks_on_another_column_do_not_bring_the_rows_back() {
    let mut state = AppData::new(vec!["/".to_string()], mixed());
    let rows = state.entries().clone();
    state.toggle_sort(Criterion::Size);
    state.toggle_sort(Criterion::Size);
    assert_eq!(state.sorting(), Sorting::SizeDown);
    assert!(state.entries() != &rows);
}

#[test]
fn a_new_column_sorts_the_rows_as_they_stand() {
    let mut state = AppData::new(vec!["/".to_string()], mixed());
    assert_eq!(names_of(state.entries()), vec!["apple", "date", "fig", "kiwi", "pear"]);
    state.toggle_sort(Criterion::Size);
    assert_eq!(state.sorting(), Sorting::SizeUp);
    // equal sizes keep the order the names had put them in
    assert_eq!(names_of(state.entries()), vec!["kiwi", "apple", "date", "pear", "fig"]);
    state.toggle_sort(Criterion::Size);
    assert_eq!(names_of(state.entries()), vec!["fig", "apple", "date", "pear", "kiwi"]);
    state.toggle_sort(Criterion::Date);
    assert_eq!(state.sorting(), Sorting::DateUp);
    assert_eq!(names_of(state.entries()), vec!["date", "fig", "apple", "kiwi", "pear"]);
}

#[test]
fn sorting_does_not_touch_path_or_highlight() {
    let mut state = AppData::new(vec!["/".to_string(), "x".to_string()], mixed());
    assert_eq!(state.event(AppEvent::Select(3), None), Ok(()));
    assert_eq!(state.event(AppEvent::SortDate, Some(mixed())), Ok(()));
    assert_eq!(state.selected(), 3);
    assert_eq!(state.path_len(), 2);
    assert_eq!(state.entries().len(), 5);
}

#[test]
fn a_sort_by_name_forgets_the_order_of_the_listing() {
    let listed = mixed();
    let mut otherwise = mixed();
    otherwise.reverse();
    otherwise.swap(1, 3);
    for mode in [Sorting::NameDown, Sorting::NameUp] {
        assert!(sort_entries(listed.clone(), mode) == sort_entries(otherwise.clone(), mode));
    }
    // sizes tie, so a sort by size does not
    assert!(
        sort_entries(listed, Sorting::SizeUp) != sort_entries(otherwise, Sorting::SizeUp)
    );
}
