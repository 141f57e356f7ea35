//! The state behind a small file-browser dialog: the entries of one directory,
//! the order they are shown in, and the moves between directories.
//!
//! Nothing here touches the file system. Whoever drives the dialog lists a
//! directory and hands the listing in; the library keeps the path, sorts the
//! entries and says which directory has to be listed next.
//!
//! - [`entry`]: one child of a directory.
//! - [`name_order`]: the order of names.
//! - [`sorting`]: the six orders of a listing and the stable sort;
//!   [`sorting_laws`]: what holds of them.
//! - [`navigation`]: the state and its moves; [`navigation_laws`]: what holds
//!   of every move.
//! - [`labels`]: what a row shows of its entry.
//! - [`file_data`]: the text box.

pub mod entry;
pub mod file_data;
pub mod labels;
mod merge;
pub mod name_order;
pub mod navigation;
pub mod navigation_laws;
pub mod sorting;
pub mod sorting_laws;

pub use entry::{DirEntryInfo, EntryKind, EntryView, Timestamp};
pub use file_data::{FileData, FileEvent};
pub use labels::LocalTime;
pub use navigation::{AppData, AppDataView, AppEvent, NavError};
pub use sorting::{Criterion, Sorting};
