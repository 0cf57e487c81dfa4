//! The records of a broadcast log.

use crate::clock::Time;
use vstd::prelude::*;

verus! {

/// The number of stations.  Stations are numbered from 1.
pub const RADIO_COUNT: usize = 3;

/// Whether `radio_id` is the number of a station.
pub open spec fn is_station(radio_id: u8) -> bool {
    1 <= radio_id <= RADIO_COUNT
}

/// What one line of a log says: which station played what, and for how long.
#[derive(Clone, PartialEq, Eq, Debug)]
pub struct Entry {
    pub radio_id: u8,
    pub dur_time: Time,
    pub author: String,
    pub title: String,
}

/// An [`Entry`] with its texts as sequences of characters.
pub struct EntryView {
    pub radio_id: u8,
    pub dur_time: Time,
    pub author: Seq<char>,
    pub title: Seq<char>,
}

impl View for Entry {
    type V = EntryView;

    open spec fn view(&self) -> EntryView {
        EntryView {
            radio_id: self.radio_id,
            dur_time: self.dur_time,
            author: self.author@,
            title: self.title@,
        }
    }
}

/// One broadcast of the schedule: an entry of the log together with the time
/// at which it started, counted from the start of its station's programme.
#[derive(Clone, PartialEq, Eq, Debug)]
pub struct Broadcast {
    pub radio_id: u8,
    pub start_time: Time,
    pub dur_time: Time,
    pub author: String,
    pub title: String,
}

/// A [`Broadcast`] with its texts as sequences of characters.
pub struct BroadcastView {
    pub radio_id: u8,
    pub start_time: Time,
    pub dur_time: Time,
    pub author: Seq<char>,
    pub title: Seq<char>,
}

impl View for Broadcast {
    type V = BroadcastView;

    open spec fn view(&self) -> BroadcastView {
        BroadcastView {
            radio_id: self.radio_id,
            start_time: self.start_time,
            dur_time: self.dur_time,
            author: self.author@,
            title: self.title@,
        }
    }
}

/// The views of a sequence of broadcasts.
pub open spec fn views(broadcasts: Seq<Broadcast>) -> Seq<BroadcastView> {
    broadcasts.map_values(|b: Broadcast| b@)
}

/// Every broadcast of the sequence is on one of the stations.
pub open spec fn on_stations(broadcasts: Seq<BroadcastView>) -> bool {
    forall|i: int| 0 <= i < broadcasts.len() ==> is_station(#[trigger] broadcasts[i].radio_id)
}

/// Why a log could not be read.
#[derive(Copy, Clone, PartialEq, Eq, Structural, Debug)]
pub enum ParseErrorKind {
    /// The first line is no number of records.
    BadRecordCount,
    /// The line has fewer than three fields, each ended by a space.
    MissingField,
    /// The text after the three fields holds no colon.
    MissingColon,
    /// The station, the minutes or the seconds are no number from 0 to 255.
    NotANumber,
    /// The station is none of the stations.
    StationOutOfRange,
    /// The station's programme has become longer than a `Time` can say.
    ClockOverflow,
}

/// A failure to read a log, with the line on which it occurred.  Lines are
/// counted from 1, after whitespace was removed around the text as a whole.
#[derive(Copy, Clone, PartialEq, Eq, Structural, Debug)]
pub struct ParseError {
    pub line: usize,
    pub kind: ParseErrorKind,
}

} // verus!
