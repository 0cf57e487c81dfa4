//! Reading a log.
//!
//! A log is a text.  Whitespace around it is dropped, and what is left is
//! cut into lines at each line feed.  The first line holds the number of
//! records; every further line is one record.

use crate::clock::Time;
use crate::line::{entry_of_line, lemma_entry_is_on_station, parse_line_chars};
use crate::record::{
    is_station, on_stations, views, Broadcast, BroadcastView, EntryView, ParseError,
    ParseErrorKind, RADIO_COUNT,
};
use crate::schedule::{
    broadcast_result_view, clocks_after, elapsed, lemma_clocks_move_on, lemma_elapsed_grows,
    place, placed, schedule_of, scheduled, start_clocks,
};
use crate::text::{
    chars_of, decimal_value, parse_decimal_chars, split, split_chars, texts, trim, trim_chars,
};
use vstd::prelude::*;

verus! {

/// The entry of a line; for a line that is no record line, an entry on no
/// station.
pub open spec fn entry_or_blank(line: Seq<char>) -> EntryView {
    match entry_of_line(line) {
        Ok(entry) => entry,
        Err(_) => EntryView {
            radio_id: 0,
            dur_time: Time { hour: 0, min: 0, sec: 0 },
            author: Seq::empty(),
            title: Seq::empty(),
        },
    }
}

/// The entries of a sequence of record lines.
pub open spec fn entries_of(lines: Seq<Seq<char>>) -> Seq<EntryView> {
    lines.map_values(|line: Seq<char>| entry_or_blank(line))
}

/// Why reading stops at record line `k`, if it does: the line is no record
/// line, or with it the station's clock has become too large.
pub open spec fn failure_at(lines: Seq<Seq<char>>, k: int) -> Option<ParseErrorKind> {
    match entry_of_line(lines[k]) {
        Err(kind) => Some(kind),
        Ok(entry) => if Time::representable(elapsed(entries_of(lines), entry.radio_id, k + 1)) {
            None
        } else {
            Some(ParseErrorKind::ClockOverflow)
        },
    }
}

/// The first record line from `from` on at which reading stops, or the
/// number of lines.
pub open spec fn first_failure(lines: Seq<Seq<char>>, from: int) -> int
    decreases lines.len() - from,
{
    if from < 0 || from >= lines.len() {
        lines.len() as int
    } else if failure_at(lines, from) is Some {
        from
    } else {
        first_failure(lines, from + 1)
    }
}

/// The schedule that a sequence of record lines stands for, or the first
/// failure met in reading them.  The first record line is line 2 of the log.
pub open spec fn schedule_of_records(records: Seq<Seq<char>>) -> Result<
    Seq<BroadcastView>,
    ParseError,
> {
    let stop = first_failure(records, 0);
    if stop < records.len() {
        Err(ParseError { line: (stop + 2) as usize, kind: failure_at(records, stop)->0 })
    } else {
        Ok(schedule_of(entries_of(records)))
    }
}

/// The schedule that a log stands for, or the first failure met in reading
/// it.  The number on the first line has to be a number; the records are the
/// lines that follow, however many the number says.
pub open spec fn schedule_of_text(input: Seq<char>) -> Result<Seq<BroadcastView>, ParseError> {
    let lines = split(trim(input), '\n');
    if decimal_value(trim(lines[0]), usize::MAX as nat) is None {
        Err(ParseError { line: 1, kind: ParseErrorKind::BadRecordCount })
    } else {
        schedule_of_records(lines.skip(1))
    }
}

/// The result of reading a log, with the broadcasts by their views.
pub open spec fn schedule_result_view(r: Result<Vec<Broadcast>, ParseError>) -> Result<
    Seq<BroadcastView>,
    ParseError,
> {
    match r {
        Ok(broadcasts) => Ok(views(broadcasts@)),
        Err(e) => Err(e),
    }
}

/// Where no line from `from` up to `k` stops the reading, and line `k` does
/// or is the end, `k` is the first failure.
proof fn lemma_first_failure(lines: Seq<Seq<char>>, from: int, k: int)
    requires
        0 <= from <= k <= lines.len(),
        forall|j: int| from <= j < k ==> failure_at(lines, j) is None,
        k < lines.len() ==> failure_at(lines, k) is Some,
    ensures
        first_failure(lines, from) == k,
    decreases k - from,
{
    if from < k {
        lemma_first_failure(lines, from + 1, k);
    }
}

/// The clocks before anything was played.
spec fn zero_clocks() -> Seq<Time> {
    Seq::new(RADIO_COUNT as nat, |s: int| Time { hour: 0, min: 0, sec: 0 })
}

/// The broadcast that a record line gives with clocks that stand at
/// `clocks`.
spec fn read_line_at(clocks: Seq<Time>, line: Seq<char>) -> Result<BroadcastView, ParseErrorKind> {
    match entry_of_line(line) {
        Ok(entry) => placed(clocks, entry),
        Err(kind) => Err(kind),
    }
}

/// The clocks and the broadcasts after the first `n` record lines, as the
/// reading goes line by line; or the failure at which the reading stopped.
spec fn read_upto(lines: Seq<Seq<char>>, n: int) -> Result<
    (Seq<Time>, Seq<BroadcastView>),
    ParseError,
>
    decreases n,
{
    if n <= 0 {
        Ok((zero_clocks(), Seq::empty()))
    } else {
        match read_upto(lines, n - 1) {
            Err(e) => Err(e),
            Ok((clocks, done)) => match read_line_at(clocks, lines[n - 1]) {
                Err(kind) => Err(ParseError { line: (n + 1) as usize, kind }),
                Ok(b) => Ok(
                    (
                        clocks.update(
                            b.radio_id - 1,
                            clocks[b.radio_id - 1].spec_add(b.dur_time),
                        ),
                        done.push(b),
                    ),
                ),
            },
        }
    }
}

/// What the reading has come to after the first `n` record lines is what
/// [`schedule_of_records`] says of them.
spec fn read_as_said(lines: Seq<Seq<char>>, n: int) -> bool {
    match read_upto(lines, n) {
        Ok((clocks, done)) => {
            &&& forall|j: int| 0 <= j < n ==> failure_at(lines, j) is None
            &&& done == schedule_of(entries_of(lines)).take(n)
            &&& clocks_after(clocks, entries_of(lines), n)
        },
        Err(e) => exists|k: int|
            {
                &&& 0 <= k < n
                &&& first_failure(lines, 0) == k
                &&& #[trigger] failure_at(lines, k) == Some(e.kind)
                &&& e.line == (k + 2) as usize
            },
    }
}

/// One more record line read keeps [`read_as_said`].
proof fn lemma_read_step(lines: Seq<Seq<char>>, n: int)
    requires
        0 < n <= lines.len(),
        read_as_said(lines, n - 1),
    ensures
        read_as_said(lines, n),
{
    let entries = entries_of(lines);
    let k = n - 1;
    match read_upto(lines, k) {
        Err(e) => {
            let at = choose|at: int|
                {
                    &&& 0 <= at < k
                    &&& first_failure(lines, 0) == at
                    &&& #[trigger] failure_at(lines, at) == Some(e.kind)
                    &&& e.line == (at + 2) as usize
                };
            assert(failure_at(lines, at) == Some(e.kind));
        },
        Ok((clocks, done)) => {
            match entry_of_line(lines[k]) {
                Err(kind) => {
                    lemma_first_failure(lines, 0, k);
                    assert(failure_at(lines, k) == Some(kind));
                },
                Ok(entry) => {
                    assert(entries[k] == entry);
                    lemma_entry_is_on_station(lines[k]);
                    lemma_clocks_move_on(clocks, entries, k);
                    if Time::representable(elapsed(entries, entry.radio_id, k + 1)) {
                        let b = scheduled(entries, k);
                        assert(read_line_at(clocks, lines[k]) == Ok::<
                            BroadcastView,
                            ParseErrorKind,
                        >(b));
                        assert(failure_at(lines, k) is None);
                        assert(done.push(b) =~= schedule_of(entries).take(n));
                    } else {
                        lemma_first_failure(lines, 0, k);
                        assert(failure_at(lines, k) == Some(ParseErrorKind::ClockOverflow));
                    }
                },
            }
        },
    }
}

/// What the reading has come to after any number of record lines is what
/// [`schedule_of_records`] says of them.
proof fn lemma_read_as_said(lines: Seq<Seq<char>>, n: int)
    requires
        0 <= n <= lines.len(),
    ensures
        read_as_said(lines, n),
    decreases n,
{
    if n == 0 {
        assert(schedule_of(entries_of(lines)).take(0) =~= Seq::<BroadcastView>::empty());
        Time::lemma_from_sec_undoes_to_sec(Time { hour: 0, min: 0, sec: 0 });
    } else {
        lemma_read_as_said(lines, n - 1);
        lemma_read_step(lines, n);
    }
}

/// Once the reading has stopped, further lines change nothing.
proof fn lemma_read_stays_stopped(lines: Seq<Seq<char>>, m: int, n: int)
    requires
        0 <= m <= n,
        read_upto(lines, m) is Err,
    ensures
        read_upto(lines, n) == read_upto(lines, m),
    decreases n - m,
{
    if m < n {
        lemma_read_stays_stopped(lines, m, n - 1);
    }
}

/// The reading of all record lines gives what [`schedule_of_records`] says.
proof fn lemma_read_all(lines: Seq<Seq<char>>)
    ensures
        schedule_of_records(lines) == match read_upto(lines, lines.len() as int) {
            Ok((_, done)) => Ok::<Seq<BroadcastView>, ParseError>(done),
            Err(e) => Err(e),
        },
{
    let n = lines.len() as int;
    lemma_read_as_said(lines, n);
    match read_upto(lines, n) {
        Ok((clocks, done)) => {
            lemma_first_failure(lines, 0, n);
            assert(schedule_of(entries_of(lines)).take(n) =~= schedule_of(entries_of(lines)));
        },
        Err(e) => {},
    }
}

/// Reads the record lines of a log, which are all lines but the first, and
/// rebuilds the schedule.
fn read_records(lines: &Vec<Vec<char>>) -> (r: Result<Vec<Broadcast>, ParseError>)
    requires
        lines.len() >= 1,
    ensures
        schedule_result_view(r) == schedule_of_records(texts(lines@).skip(1)),
{
    let ghost records = texts(lines@).skip(1);
    let mut clocks = start_clocks();
    let mut broadcasts: Vec<Broadcast> = Vec::new();
    let mut i: usize = 1;
    proof {
        assert(clocks@ =~= zero_clocks());
        assert(views(broadcasts@) =~= Seq::<BroadcastView>::empty());
    }
    while i < lines.len()
        invariant
            1 <= i <= lines.len(),
            records == texts(lines@).skip(1),
            read_upto(records, i - 1) == Ok::<(Seq<Time>, Seq<BroadcastView>), ParseError>(
                (clocks@, views(broadcasts@)),
            ),
        decreases lines.len() - i,
    {
        assert(records[i - 1] == lines@[i as int]@);
        let ghost done = views(broadcasts@);
        let ghost before = clocks@;
        let read = match parse_line_chars(&lines[i]) {
            Ok(entry) => place(&mut clocks, entry),
            Err(kind) => Err(kind),
        };
        assert(broadcast_result_view(read) == read_line_at(before, records[i - 1]));
        match read {
            Ok(b) => {
                broadcasts.push(b);
                proof {
                    assert(views(broadcasts@) =~= done.push(b@));
                }
            },
            Err(kind) => {
                proof {
                    lemma_read_stays_stopped(records, i as int, records.len() as int);
                    lemma_read_all(records);
                }
                return Err(ParseError { line: i + 1, kind });
            },
        }
        i += 1;
    }
    proof {
        lemma_read_all(records);
    }
    Ok(broadcasts)
}

/// Every broadcast of a schedule that was read from a log is on one of the
/// stations, and starts as many seconds in as the broadcasts before it on
/// its station lasted together.
pub proof fn lemma_schedule_of_text(input: Seq<char>, i: int)
    requires
        schedule_of_text(input) is Ok,
        0 <= i < schedule_of_text(input)->Ok_0.len(),
    ensures
        ({
            let records = split(trim(input), '\n').skip(1);
            let entries = entries_of(records);
            let broadcast = schedule_of_text(input)->Ok_0[i];
            &&& schedule_of_text(input)->Ok_0.len() == records.len()
            &&& entry_of_line(records[i]) is Ok
            &&& is_station(broadcast.radio_id)
            &&& broadcast.start_time.total_sec() == elapsed(entries, broadcast.radio_id, i)
        }),
{
    let records = split(trim(input), '\n').skip(1);
    let entries = entries_of(records);
    lemma_no_failure_before_first(records, 0, i);
    lemma_entry_is_on_station(records[i]);
    lemma_elapsed_grows(entries, entries[i].radio_id, i, i + 1);
    Time::lemma_to_sec_undoes_from_sec(elapsed(entries, entries[i].radio_id, i));
}

/// No line before the first failure stops the reading.
proof fn lemma_no_failure_before_first(lines: Seq<Seq<char>>, from: int, k: int)
    requires
        0 <= from <= k < first_failure(lines, from),
    ensures
        k < lines.len(),
        failure_at(lines, k) is None,
    decreases k - from,
{
    if from < k {
        lemma_no_failure_before_first(lines, from + 1, k);
    }
}

/// Reads a log and rebuilds the schedule: each broadcast starts when all
/// that its station played before it is over.
pub fn parse_schedule(input: &str) -> (r: Result<Vec<Broadcast>, ParseError>)
    ensures
        schedule_result_view(r) == schedule_of_text(input@),
        r matches Ok(broadcasts) ==> on_stations(views(broadcasts@)),
{
    proof {
        if schedule_of_text(input@) is Ok {
            assert forall|i: int| 0 <= i < schedule_of_text(input@)->Ok_0.len() implies is_station(
                #[trigger] schedule_of_text(input@)->Ok_0[i].radio_id,
            ) by {
                lemma_schedule_of_text(input@, i);
            }
        }
    }
    let chars = chars_of(input);
    let body = trim_chars(&chars);
    let lines = split_chars(&body, '\n');
    assert(lines.len() >= 1);
    let count_text = trim_chars(&lines[0]);
    if parse_decimal_chars(&count_text, usize::MAX as u64).is_none() {
        return Err(ParseError { line: 1, kind: ParseErrorKind::BadRecordCount });
    }
    read_records(&lines)
}

} // verus!
