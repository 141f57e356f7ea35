//! What a row of the dialog shows of its entry: the name, the size and the
//! date of the last change.

use vstd::prelude::*;
use vstd::string::StringExecFns;
use std::fmt::Write;
use bytesize::ByteSize;
use chrono::{DateTime, Datelike, FixedOffset};
use crate::entry::{DirEntryInfo, EntryKind, EntryView, Timestamp};

verus! {

/// An instant as a clock somewhere shows it: the instant itself and, in
/// seconds east of UTC, the offset that the clock's zone has at that instant.
#[derive(Clone, Copy, Debug, PartialEq, Eq, Structural)]
pub struct LocalTime {
    pub at: Timestamp,
    pub offset: i32,
}

/// The text that `bytesize` shows for a number of bytes.
pub uninterp spec fn byte_size_text(bytes: u64) -> Seq<char>;

/// The day, counted from 1 January of the year 1, on which an instant falls
/// for a clock with the given offset; `None` where `chrono` has no such
/// offset or cannot hold the instant.
pub uninterp spec fn local_day(secs: i64, nanos: u32, offset: i32) -> Option<i32>;

/// The text that `chrono` writes for an instant, as a clock with the given
/// offset shows it, under a `strftime` pattern; `None` where `chrono` has no
/// such offset, cannot hold the instant or does not take the pattern.
pub uninterp spec fn local_text(secs: i64, nanos: u32, offset: i32, pattern: Seq<char>) -> Option<
    Seq<char>,
>;

/// `bytesize::ByteSize::b` and the `Display` of what it returns. Nothing is
/// claimed of the text but that it depends on the number alone.
#[verifier::external_body]
fn format_bytes(bytes: u64) -> (text: String)
    ensures
        text@ == byte_size_text(bytes),
{
    format!("{}", ByteSize::b(bytes))
}

/// `chrono::DateTime::from_timestamp`, then `NaiveDateTime::checked_add_offset`
/// with what `chrono::FixedOffset::east_opt` gives, then
/// `Datelike::num_days_from_ce` of the date reached. Nothing is claimed of
/// the number but that it depends on the three arguments alone.
#[verifier::external_body]
fn local_day_number(secs: i64, nanos: u32, offset: i32) -> (day: Option<i32>)
    ensures
        day == local_day(secs, nanos, offset),
{
    let zone = FixedOffset::east_opt(offset)?;
    let utc = DateTime::from_timestamp(secs, nanos)?.naive_utc();
    Some(utc.checked_add_offset(zone)?.date().num_days_from_ce())
}

/// `chrono::DateTime::format` on `DateTime::from_timestamp` seen through
/// `FixedOffset::east_opt`. Nothing is claimed of the text but that it
/// depends on the four arguments alone.
#[verifier::external_body]
fn format_local(secs: i64, nanos: u32, offset: i32, pattern: &str) -> (text: Option<String>)
    ensures
        text.deep_view() == local_text(secs, nanos, offset, pattern@),
{
    let zone = FixedOffset::east_opt(offset)?;
    let at = DateTime::from_timestamp(secs, nanos)?.with_timezone(&zone);
    let mut text = String::new();
    write!(text, "{}", at.format(pattern)).ok()?;
    Some(text)
}

/// The name as the row shows it: that of a symbolic link ends in `@`.
pub open spec fn shown_name(entry: EntryView) -> Seq<char> {
    if entry.kind == EntryKind::Symlink {
        entry.name.push('@')
    } else {
        entry.name
    }
}

/// The size as the row shows it: a file has its size written out, anything
/// else has none.
pub open spec fn shown_size(entry: EntryView) -> Seq<char> {
    if entry.kind == EntryKind::File {
        byte_size_text(entry.size)
    } else {
        Seq::empty()
    }
}

/// The date as the row shows it: the time of day where the change fell on
/// the day `today`, the date where it fell on another day, and nothing where
/// one of the two days is not known.
pub open spec fn shown_date(
    today: Option<i32>,
    day: Option<i32>,
    clock: Option<Seq<char>>,
    date: Option<Seq<char>>,
) -> Option<Seq<char>> {
    if today is Some && day is Some {
        if today == day {
            clock
        } else {
            date
        }
    } else {
        None
    }
}

/// The name of `entry` as its row shows it.
pub fn display_name(entry: &DirEntryInfo) -> (text: String)
    ensures
        text@ == shown_name(entry@),
{
    let mut text = entry.name().clone();
    if entry.is_symlink() {
        proof {
            reveal_strlit("@");
        }
        text.append("@");
        assert(text@ =~= entry@.name.push('@'));
    }
    text
}

/// The size of `entry` as its row shows it.
pub fn size_label(entry: &DirEntryInfo) -> (text: String)
    ensures
        text@ == shown_size(entry@),
{
    if entry.is_file() {
        format_bytes(entry.size())
    } else {
        String::new()
    }
}

/// Picks what the row shows of a change, given the day it is shown on, the
/// day of the change and the two ways of writing the change.
pub fn choose_date_label(
    today: Option<i32>,
    day: Option<i32>,
    clock: Option<String>,
    date: Option<String>,
) -> (text: Option<String>)
    ensures
        text.deep_view() == shown_date(today, day, clock.deep_view(), date.deep_view()),
{
    match (today, day) {
        (Some(t), Some(d)) => if t == d {
            clock
        } else {
            date
        },
        _ => None,
    }
}

/// What the row shows of a change made at `modified` when it is looked at
/// at `now`: the time of day (`%T`) of a change made on that very day, the
/// date (`%d/%m/%Y`) of any other; `None` where `chrono` cannot tell the day
/// of one of the two.
pub fn modified_label(now: LocalTime, modified: LocalTime) -> (text: Option<String>)
    ensures
        text.deep_view() == shown_date(
            local_day(now.at.secs, now.at.nanos, now.offset),
            local_day(modified.at.secs, modified.at.nanos, modified.offset),
            local_text(modified.at.secs, modified.at.nanos, modified.offset, "%T"@),
            local_text(modified.at.secs, modified.at.nanos, modified.offset, "%d/%m/%Y"@),
        ),
{
    let today = local_day_number(now.at.secs, now.at.nanos, now.offset);
    let day = local_day_number(modified.at.secs, modified.at.nanos, modified.offset);
    let clock = format_local(modified.at.secs, modified.at.nanos, modified.offset, "%T");
    let date = format_local(modified.at.secs, modified.at.nanos, modified.offset, "%d/%m/%Y");
    choose_date_label(today, day, clock, date)
}

} // verus!
