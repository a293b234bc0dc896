//! Dated notes: the file name of the note for a given day.

use vstd::prelude::*;
use crate::text::{padded, push_padded};
use chrono::Datelike;

verus! {

/// A day of the proleptic Gregorian calendar.
#[derive(PartialEq, Eq, Structural, Clone, Copy, Debug)]
pub struct Date {
    pub year: i32,
    /// 1 to 12.
    pub month: u32,
    /// 1 to 31.
    pub day: u32,
}

/// The text of a year: four digits or more, with a sign before the years
/// before 0 and after 9999.
pub open spec fn year_text(y: int) -> Seq<char> {
    if 0 <= y <= 9999 {
        padded(y as nat, 4)
    } else if y > 9999 {
        seq!['+'] + padded(y as nat, 4)
    } else {
        seq!['-'] + padded((-y) as nat, 4)
    }
}

/// The text of a day as year, month and day: `2024-03-07`.
pub open spec fn date_text(d: Date) -> Seq<char> {
    year_text(d.year as int) + seq!['-'] + padded(d.month as nat, 2) + seq!['-'] + padded(
        d.day as nat,
        2,
    )
}

/// The file name of the note of a day: its text and `.md`.
pub open spec fn note_name(d: Date) -> Seq<char> {
    date_text(d) + seq!['.', 'm', 'd']
}

/// Relies on chrono's `Local::now`, `DateTime::date_naive`,
/// `TimeDelta::try_days` and `NaiveDate::checked_add_signed`: the local date
/// today, moved by `days` days, if chrono can represent it. Its month and day
/// are within their ranges (`Datelike::month`, `Datelike::day`).
#[verifier::external_body]
fn local_date_after(days: i64) -> (r: Option<Date>)
    ensures
        r matches Some(d) ==> 1 <= d.month <= 12 && 1 <= d.day <= 31,
{
    let today = chrono::Local::now().date_naive();
    let d = today.checked_add_signed(chrono::TimeDelta::try_days(days)?)?;
    Some(Date { year: d.year(), month: d.month(), day: d.day() })
}

/// The text of `date` (see [`date_text`]).
pub fn format_date(date: &Date) -> (r: String)
    ensures
        r@ == date_text(*date),
{
    let mut out = String::new();
    if date.year < 0 {
        out.push('-');
        push_padded(&mut out, (0 - (date.year as i64)) as u32, 4);
    } else {
        if date.year > 9999 {
            out.push('+');
        }
        push_padded(&mut out, date.year as u32, 4);
    }
    out.push('-');
    push_padded(&mut out, date.month, 2);
    out.push('-');
    push_padded(&mut out, date.day, 2);
    assert(out@ =~= date_text(*date));
    out
}

/// The file name of the note of `date` (see [`note_name`]).
pub fn note_file_name(date: &Date) -> (r: String)
    ensures
        r@ == note_name(*date),
{
    let mut out = format_date(date);
    out.push('.');
    out.push('m');
    out.push('d');
    assert(out@ =~= note_name(*date));
    out
}

/// The file name of the note dated `offset` days from today (back, when
/// negative), or `None` when that day is out of the calendar's range.
pub fn relative_note_name(offset: i64) -> (r: Option<String>)
    ensures
        r matches Some(s) ==> exists|d: Date| 1 <= d.month <= 12 && 1 <= d.day <= 31 && s@ == note_name(d),
{
    match local_date_after(offset) {
        Some(d) => Some(note_file_name(&d)),
        None => None,
    }
}

} // verus!
