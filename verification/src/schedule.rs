//! Rebuilding the schedule: every station has a running clock; an entry
//! starts where the clock of its station stands, and moves that clock on by
//! its duration.

use crate::clock::Time;
use crate::record::{
    is_station, Broadcast, BroadcastView, Entry, EntryView, ParseErrorKind, RADIO_COUNT,
};
use vstd::prelude::*;

verus! {

/// The seconds for which station `radio_id` has been on the air after the
/// first `n` entries: the sum of the durations of those among them that are
/// on that station.
pub open spec fn elapsed(entries: Seq<EntryView>, radio_id: u8, n: int) -> nat
    decreases n,
{
    if n <= 0 {
        0
    } else if entries[n - 1].radio_id == radio_id {
        elapsed(entries, radio_id, n - 1) + entries[n - 1].dur_time.total_sec()
    } else {
        elapsed(entries, radio_id, n - 1)
    }
}

/// Entry `i` as a broadcast: it starts when all that its station played
/// before it is over.
pub open spec fn scheduled(entries: Seq<EntryView>, i: int) -> BroadcastView {
    BroadcastView {
        radio_id: entries[i].radio_id,
        start_time: Time::spec_from_sec(elapsed(entries, entries[i].radio_id, i)),
        dur_time: entries[i].dur_time,
        author: entries[i].author,
        title: entries[i].title,
    }
}

/// The schedule that a sequence of entries stands for.
pub open spec fn schedule_of(entries: Seq<EntryView>) -> Seq<BroadcastView> {
    Seq::new(entries.len(), |i: int| scheduled(entries, i))
}

/// A station that has played nothing so far has been on the air for no
/// time.
pub proof fn lemma_nothing_elapsed(entries: Seq<EntryView>, radio_id: u8, n: int)
    requires
        0 <= n <= entries.len(),
        forall|j: int| 0 <= j < n ==> (#[trigger] entries[j]).radio_id != radio_id,
    ensures
        elapsed(entries, radio_id, n) == 0,
    decreases n,
{
    if n > 0 {
        lemma_nothing_elapsed(entries, radio_id, n - 1);
    }
}

/// The time on the air does not go down as more entries are counted.
pub proof fn lemma_elapsed_grows(entries: Seq<EntryView>, radio_id: u8, m: int, n: int)
    requires
        m <= n,
    ensures
        elapsed(entries, radio_id, m) <= elapsed(entries, radio_id, n),
    decreases n - m,
{
    if m < n {
        lemma_elapsed_grows(entries, radio_id, m, n - 1);
    }
}

/// The first broadcast of a station starts at zero.
pub proof fn lemma_first_on_station_starts_at_zero(entries: Seq<EntryView>, i: int)
    requires
        0 <= i < entries.len(),
        forall|j: int| 0 <= j < i ==> (#[trigger] entries[j]).radio_id != entries[i].radio_id,
    ensures
        schedule_of(entries)[i].start_time == (Time { hour: 0, min: 0, sec: 0 }),
{
    lemma_nothing_elapsed(entries, entries[i].radio_id, i);
    Time::lemma_from_sec_undoes_to_sec(Time { hour: 0, min: 0, sec: 0 });
}

/// A broadcast whose start fits a `Time` starts as many seconds in as the
/// broadcasts before it on its station lasted together.
pub proof fn lemma_start_is_sum_of_earlier(entries: Seq<EntryView>, i: int)
    requires
        0 <= i < entries.len(),
        Time::representable(elapsed(entries, entries[i].radio_id, i)),
    ensures
        schedule_of(entries)[i].start_time.total_sec() == elapsed(
            entries,
            entries[i].radio_id,
            i,
        ),
{
    Time::lemma_to_sec_undoes_from_sec(elapsed(entries, entries[i].radio_id, i));
}

/// A broadcast starts when the one before it on its station ends.
pub proof fn lemma_starts_where_previous_ends(entries: Seq<EntryView>, i: int, j: int)
    requires
        0 <= i < j < entries.len(),
        entries[i].radio_id == entries[j].radio_id,
        forall|m: int| i < m < j ==> (#[trigger] entries[m]).radio_id != entries[j].radio_id,
        Time::representable(elapsed(entries, entries[j].radio_id, j)),
    ensures
        schedule_of(entries)[j].start_time == schedule_of(entries)[i].start_time.spec_add(
            entries[i].dur_time,
        ),
{
    let station = entries[j].radio_id;
    lemma_same_elapsed(entries, station, i + 1, j);
    lemma_elapsed_grows(entries, station, i, j);
    Time::lemma_to_sec_undoes_from_sec(elapsed(entries, station, i));
}

/// Entries of other stations do not move a station's time on the air.
proof fn lemma_same_elapsed(entries: Seq<EntryView>, radio_id: u8, m: int, n: int)
    requires
        0 <= m <= n <= entries.len(),
        forall|j: int| m <= j < n ==> (#[trigger] entries[j]).radio_id != radio_id,
    ensures
        elapsed(entries, radio_id, n) == elapsed(entries, radio_id, m),
    decreases n - m,
{
    if m < n {
        lemma_same_elapsed(entries, radio_id, m, n - 1);
    }
}

/// The running clocks of the stations after the first `n` entries.
pub open spec fn clocks_after(clocks: Seq<Time>, entries: Seq<EntryView>, n: int) -> bool {
    &&& clocks.len() == RADIO_COUNT
    &&& forall|station: u8|
        is_station(station) ==> {
            &&& Time::representable(#[trigger] elapsed(entries, station, n))
            &&& clocks[station - 1] == Time::spec_from_sec(elapsed(entries, station, n))
        }
}

/// The running clocks of the stations before anything was played.
pub fn start_clocks() -> (clocks: [Time; RADIO_COUNT])
    ensures
        forall|s: int| 0 <= s < RADIO_COUNT ==> clocks@[s] == (Time { hour: 0, min: 0, sec: 0 }),
{
    [Time { hour: 0, min: 0, sec: 0 }; RADIO_COUNT]
}

/// What [`place`] gives for an entry, with clocks that stand at `clocks`.
pub open spec fn placed(clocks: Seq<Time>, entry: EntryView) -> Result<
    BroadcastView,
    ParseErrorKind,
> {
    if !is_station(entry.radio_id) {
        Err(ParseErrorKind::StationOutOfRange)
    } else if !Time::representable(
        clocks[entry.radio_id - 1].total_sec() + entry.dur_time.total_sec(),
    ) {
        Err(ParseErrorKind::ClockOverflow)
    } else {
        Ok(
            BroadcastView {
                radio_id: entry.radio_id,
                start_time: clocks[entry.radio_id - 1],
                dur_time: entry.dur_time,
                author: entry.author,
                title: entry.title,
            },
        )
    }
}

/// The result of placing an entry, with the broadcast by its view.
pub open spec fn broadcast_result_view(r: Result<Broadcast, ParseErrorKind>) -> Result<
    BroadcastView,
    ParseErrorKind,
> {
    match r {
        Ok(b) => Ok(b@),
        Err(kind) => Err(kind),
    }
}

/// Puts `entry` on the schedule: it starts at its station's running clock,
/// which is then moved on by its duration.  Where the station is none of
/// the stations, or the new clock does not fit a `Time`, the entry is
/// refused and the clocks stay as they were.
pub fn place(clocks: &mut [Time; RADIO_COUNT], entry: Entry) -> (r: Result<
    Broadcast,
    ParseErrorKind,
>)
    ensures
        broadcast_result_view(r) == placed(old(clocks)@, entry@),
        r is Err ==> final(clocks)@ == old(clocks)@,
        r is Ok ==> final(clocks)@ == old(clocks)@.update(
            entry.radio_id - 1,
            old(clocks)@[entry.radio_id - 1].spec_add(entry.dur_time),
        ),
{
    if entry.radio_id < 1 || entry.radio_id as usize > RADIO_COUNT {
        return Err(ParseErrorKind::StationOutOfRange);
    }
    let index = (entry.radio_id - 1) as usize;
    let start_time = clocks[index];
    match start_time.checked_add(entry.dur_time) {
        Err(_) => Err(ParseErrorKind::ClockOverflow),
        Ok(next) => {
            clocks[index] = next;
            Ok(
                Broadcast {
                    radio_id: entry.radio_id,
                    start_time,
                    dur_time: entry.dur_time,
                    author: entry.author,
                    title: entry.title,
                },
            )
        },
    }
}

/// What placing entry `k` does to clocks that stand where the first `k`
/// entries left them.
pub proof fn lemma_clocks_move_on(before: Seq<Time>, entries: Seq<EntryView>, k: int)
    requires
        0 <= k < entries.len(),
        is_station(entries[k].radio_id),
        clocks_after(before, entries, k),
    ensures
        ({
            let station = entries[k].radio_id;
            let at = before[station - 1];
            let sum = at.total_sec() + entries[k].dur_time.total_sec();
            &&& at == Time::spec_from_sec(elapsed(entries, station, k))
            &&& sum == elapsed(entries, station, k + 1)
            &&& Time::representable(sum) ==> clocks_after(
                before.update(station - 1, at.spec_add(entries[k].dur_time)),
                entries,
                k + 1,
            )
        }),
{
    let station = entries[k].radio_id;
    let at = before[station - 1];
    let sum = at.total_sec() + entries[k].dur_time.total_sec();
    Time::lemma_to_sec_undoes_from_sec(elapsed(entries, station, k));
    if Time::representable(sum) {
        let after = before.update(station - 1, at.spec_add(entries[k].dur_time));
        assert forall|other: u8| is_station(other) implies {
            &&& Time::representable(#[trigger] elapsed(entries, other, k + 1))
            &&& after[other - 1] == Time::spec_from_sec(elapsed(entries, other, k + 1))
        } by {
            assert(before[other - 1] == Time::spec_from_sec(elapsed(entries, other, k)));
        }
    }
}

} // verus!
