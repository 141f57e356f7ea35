//! One child of a directory, as the dialog sees it.

use vstd::prelude::*;

verus! {

/// What kind of file-system object an entry is.
#[derive(Clone, Copy, Debug, PartialEq, Eq, Structural)]
pub enum EntryKind {
    File,
    Directory,
    Symlink,
    Other,
}

/// A point in time: whole seconds since 1970-01-01 00:00:00 UTC (negative
/// before it) and the nanoseconds past that second.
#[derive(Clone, Copy, Debug, PartialEq, Eq, Structural)]
pub struct Timestamp {
    pub secs: i64,
    pub nanos: u32,
}

impl Timestamp {
    /// Whether `self` is strictly earlier than `other`: seconds decide,
    /// nanoseconds break a tie.
    pub open spec fn earlier(self, other: Timestamp) -> bool {
        self.secs < other.secs || (self.secs == other.secs && self.nanos < other.nanos)
    }

    pub fn new(secs: i64, nanos: u32) -> (t: Timestamp)
        ensures
            t.secs == secs,
            t.nanos == nanos,
    {
        Timestamp { secs, nanos }
    }

    /// Executable form of [`Timestamp::earlier`].
    pub fn is_earlier(&self, other: &Timestamp) -> (r: bool)
        ensures
            r == self.earlier(*other),
    {
        self.secs < other.secs || (self.secs == other.secs && self.nanos < other.nanos)
    }
}

/// The mathematical content of a [`DirEntryInfo`].
pub struct EntryView {
    pub name: Seq<char>,
    pub kind: EntryKind,
    pub size: u64,
    pub modified: Timestamp,
}

/// One child of a directory: its base name, its kind, its size in bytes and
/// the time it was last modified. An entry never changes once it is built; a
/// new listing replaces the old entries wholesale.
#[derive(Debug)]
pub struct DirEntryInfo {
    name: String,
    kind: EntryKind,
    size: u64,
    modified: Timestamp,
}

impl View for DirEntryInfo {
    type V = EntryView;

    closed spec fn view(&self) -> EntryView {
        EntryView { name: self.name@, kind: self.kind, size: self.size, modified: self.modified }
    }
}

impl DeepView for DirEntryInfo {
    type V = EntryView;

    open spec fn deep_view(&self) -> EntryView {
        self@
    }
}

impl Clone for DirEntryInfo {
    fn clone(&self) -> (r: Self)
        ensures
            r@ == self@,
    {
        DirEntryInfo {
            name: self.name.clone(),
            kind: self.kind,
            size: self.size,
            modified: self.modified,
        }
    }
}

impl PartialEq for DirEntryInfo {
    fn eq(&self, other: &Self) -> (r: bool) {
        self.name == other.name && self.kind == other.kind && self.size == other.size
            && self.modified == other.modified
    }
}

impl vstd::std_specs::cmp::PartialEqSpecImpl for DirEntryInfo {
    open spec fn obeys_eq_spec() -> bool {
        true
    }

    open spec fn eq_spec(&self, other: &Self) -> bool {
        self@ == other@
    }
}

impl Eq for DirEntryInfo {

}

impl DirEntryInfo {
    pub fn new(name: String, kind: EntryKind, size: u64, modified: Timestamp) -> (e: Self)
        ensures
            e@ == (EntryView { name: name@, kind, size, modified }),
    {
        DirEntryInfo { name, kind, size, modified }
    }

    /// The base name, without any directory in front of it.
    pub fn name(&self) -> (r: &String)
        ensures
            r@ == self@.name,
    {
        &self.name
    }

    pub fn kind(&self) -> (r: EntryKind)
        ensures
            r == self@.kind,
    {
        self.kind
    }

    /// The size in bytes as the listing gave it, whatever the kind.
    pub fn size(&self) -> (r: u64)
        ensures
            r == self@.size,
    {
        self.size
    }

    pub fn modified(&self) -> (r: Timestamp)
        ensures
            r == self@.modified,
    {
        self.modified
    }

    pub fn is_dir(&self) -> (r: bool)
        ensures
            r == (self@.kind == EntryKind::Directory),
    {
        self.kind == EntryKind::Directory
    }

    pub fn is_file(&self) -> (r: bool)
        ensures
            r == (self@.kind == EntryKind::File),
    {
        self.kind == EntryKind::File
    }

    pub fn is_symlink(&self) -> (r: bool)
        ensures
            r == (self@.kind == EntryKind::Symlink),
    {
        self.kind == EntryKind::Symlink
    }

    /// The entry as text: its name.
    pub fn to_text(&self) -> (r: String)
        ensures
            r@ == self@.name,
    {
        self.name.clone()
    }

    /// Two entries stand for the same row when they carry the same name:
    /// within one listing a name occurs once.
    pub fn same(&self, other: &Self) -> (r: bool)
        ensures
            r == (self@.name == other@.name),
    {
        self.name == other.name
    }
}

} // verus!
