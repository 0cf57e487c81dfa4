//! One record line of a log:
//!
//! ```text
//! <station> <minutes> <seconds> <author>:<title>
//! ```
//!
//! The three fields are decimal numbers from 0 to 255, each ended by exactly
//! one space.  The author is what stands before the first colon of the rest,
//! and the title what stands after it, without whitespace at its ends.

use crate::clock::Time;
use crate::record::{is_station, Entry, EntryView, ParseErrorKind, RADIO_COUNT};
use crate::text::{
    chars_of, copy_range, cut, decimal_value, find_from, parse_decimal_chars, string_of, trim,
    trim_chars,
};
use vstd::prelude::*;

verus! {

/// The largest number that a field of a record may hold.
pub const FIELD_MAX: u64 = 255;

/// The pieces of a record line, as text.
pub struct Fields {
    pub station: Vec<char>,
    pub minutes: Vec<char>,
    pub seconds: Vec<char>,
    pub author: Vec<char>,
    /// What stands after the first colon, as it was written.
    pub title: Vec<char>,
}

/// [`Fields`] as sequences of characters.
pub struct FieldsView {
    pub station: Seq<char>,
    pub minutes: Seq<char>,
    pub seconds: Seq<char>,
    pub author: Seq<char>,
    pub title: Seq<char>,
}

impl View for Fields {
    type V = FieldsView;

    open spec fn view(&self) -> FieldsView {
        FieldsView {
            station: self.station@,
            minutes: self.minutes@,
            seconds: self.seconds@,
            author: self.author@,
            title: self.title@,
        }
    }
}

/// The pieces of a record line: three fields, each ended by a space, then
/// the author up to the first colon, then the title.
pub open spec fn fields_of_line(line: Seq<char>) -> Result<FieldsView, ParseErrorKind> {
    match cut(line, ' ') {
        None => Err(ParseErrorKind::MissingField),
        Some((station, after_station)) => match cut(after_station, ' ') {
            None => Err(ParseErrorKind::MissingField),
            Some((minutes, after_minutes)) => match cut(after_minutes, ' ') {
                None => Err(ParseErrorKind::MissingField),
                Some((seconds, music)) => match cut(music, ':') {
                    None => Err(ParseErrorKind::MissingColon),
                    Some((author, title)) => Ok(
                        FieldsView { station, minutes, seconds, author, title },
                    ),
                },
            },
        },
    }
}

/// The entry that the pieces of a line stand for.  The three fields have to
/// be numbers, and the station one of the stations.  The title loses the
/// whitespace at its ends.
pub open spec fn entry_of_fields(fields: FieldsView) -> Result<EntryView, ParseErrorKind> {
    let station = decimal_value(fields.station, FIELD_MAX as nat);
    let minutes = decimal_value(fields.minutes, FIELD_MAX as nat);
    let seconds = decimal_value(fields.seconds, FIELD_MAX as nat);
    if station is None || minutes is None || seconds is None {
        Err(ParseErrorKind::NotANumber)
    } else if !(1 <= station->0 <= RADIO_COUNT) {
        Err(ParseErrorKind::StationOutOfRange)
    } else {
        Ok(
            EntryView {
                radio_id: station->0 as u8,
                dur_time: Time { hour: 0, min: minutes->0 as u8, sec: seconds->0 as u8 },
                author: fields.author,
                title: trim(fields.title),
            },
        )
    }
}

/// What a record line says, or why it is no record line.  The definition is
/// opaque; `reveal` it to go by the pieces of a given line.
#[verifier::opaque]
pub open spec fn entry_of_line(line: Seq<char>) -> Result<EntryView, ParseErrorKind> {
    match fields_of_line(line) {
        Ok(fields) => entry_of_fields(fields),
        Err(kind) => Err(kind),
    }
}

/// The result of cutting a line into pieces, with the pieces by their view.
pub open spec fn fields_result_view(r: Result<Fields, ParseErrorKind>) -> Result<
    FieldsView,
    ParseErrorKind,
> {
    match r {
        Ok(fields) => Ok(fields@),
        Err(kind) => Err(kind),
    }
}

/// The result of reading a line, with the entry by its view.
pub open spec fn entry_result_view(r: Result<Entry, ParseErrorKind>) -> Result<
    EntryView,
    ParseErrorKind,
> {
    match r {
        Ok(entry) => Ok(entry@),
        Err(kind) => Err(kind),
    }
}

/// Cuts what stands in `v` from index `from` on at the first `c`, and gives
/// the index of that `c`.
fn cut_from(v: &Vec<char>, from: usize, c: char) -> (r: Option<usize>)
    requires
        from <= v.len(),
    ensures
        match r {
            Some(p) => from <= p < v.len() && cut(v@.skip(from as int), c) == Some(
                (v@.subrange(from as int, p as int), v@.skip(p + 1)),
            ),
            None => cut(v@.skip(from as int), c) is None,
        },
{
    let p = find_from(v, from, c);
    if p < v.len() {
        proof {
            let tail = v@.skip(from as int);
            assert(tail.take(p - from) =~= v@.subrange(from as int, p as int));
            assert(tail.skip(p - from + 1) =~= v@.skip(p + 1));
        }
        Some(p)
    } else {
        None
    }
}

/// Cuts a record line into its pieces.
pub fn tokenize(v: &Vec<char>) -> (r: Result<Fields, ParseErrorKind>)
    ensures
        fields_result_view(r) == fields_of_line(v@),
{
    proof {
        assert(v@.skip(0) =~= v@);
    }
    let first = match cut_from(v, 0, ' ') {
        Some(p) => p,
        None => {
            return Err(ParseErrorKind::MissingField);
        },
    };
    let second = match cut_from(v, first + 1, ' ') {
        Some(p) => p,
        None => {
            return Err(ParseErrorKind::MissingField);
        },
    };
    let third = match cut_from(v, second + 1, ' ') {
        Some(p) => p,
        None => {
            return Err(ParseErrorKind::MissingField);
        },
    };
    let colon = match cut_from(v, third + 1, ':') {
        Some(p) => p,
        None => {
            return Err(ParseErrorKind::MissingColon);
        },
    };
    proof {
        assert(v@.subrange(colon + 1, v.len() as int) =~= v@.skip(colon + 1));
    }
    Ok(
        Fields {
            station: copy_range(v, 0, first),
            minutes: copy_range(v, first + 1, second),
            seconds: copy_range(v, second + 1, third),
            author: copy_range(v, third + 1, colon),
            title: copy_range(v, colon + 1, v.len()),
        },
    )
}

/// Reads the pieces of a record line.
pub fn entry_from_fields(fields: &Fields) -> (r: Result<Entry, ParseErrorKind>)
    ensures
        entry_result_view(r) == entry_of_fields(fields@),
{
    let station = parse_decimal_chars(&fields.station, FIELD_MAX);
    let minutes = parse_decimal_chars(&fields.minutes, FIELD_MAX);
    let seconds = parse_decimal_chars(&fields.seconds, FIELD_MAX);
    match (station, minutes, seconds) {
        (Some(station), Some(minutes), Some(seconds)) => {
            if station < 1 || station > RADIO_COUNT as u64 {
                return Err(ParseErrorKind::StationOutOfRange);
            }
            let title = trim_chars(&fields.title);
            Ok(
                Entry {
                    radio_id: station as u8,
                    dur_time: Time { hour: 0, min: minutes as u8, sec: seconds as u8 },
                    author: string_of(&fields.author),
                    title: string_of(&title),
                },
            )
        },
        _ => Err(ParseErrorKind::NotANumber),
    }
}

/// Reads one record line, given as characters.
pub fn parse_line_chars(v: &Vec<char>) -> (r: Result<Entry, ParseErrorKind>)
    ensures
        entry_result_view(r) == entry_of_line(v@),
{
    reveal(entry_of_line);
    match tokenize(v) {
        Ok(fields) => entry_from_fields(&fields),
        Err(kind) => Err(kind),
    }
}

/// A record line names one of the stations.
pub proof fn lemma_entry_is_on_station(line: Seq<char>)
    ensures
        entry_of_line(line) matches Ok(entry) ==> is_station(entry.radio_id),
{
    reveal(entry_of_line);
}

/// Reads one record line.
pub fn parse_line(line: &str) -> (r: Result<Entry, ParseErrorKind>)
    ensures
        entry_result_view(r) == entry_of_line(line@),
{
    let chars = chars_of(line);
    parse_line_chars(&chars)
}

} // verus!
