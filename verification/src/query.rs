//! Questions asked of a schedule.  Each of them reads the broadcasts in
//! their order in the log and changes nothing.

use crate::clock::{ClockError, Time, MAX_SEC};
use crate::matcher::{does_match, fuzzy_match};
use crate::record::{is_station, on_stations, views, Broadcast, BroadcastView, RADIO_COUNT};
use crate::text::{chars_of, string_views, text_equals};
use vstd::prelude::*;

verus! {

// ---------------------------------------------------------------------
// Broadcasts per station
// ---------------------------------------------------------------------
/// The number of broadcasts on station `radio_id`.
pub open spec fn count_on(broadcasts: Seq<BroadcastView>, radio_id: u8) -> nat
    decreases broadcasts.len(),
{
    if broadcasts.len() == 0 {
        0
    } else if broadcasts.last().radio_id == radio_id {
        count_on(broadcasts.drop_last(), radio_id) + 1
    } else {
        count_on(broadcasts.drop_last(), radio_id)
    }
}

/// No more broadcasts are on a station than there are broadcasts.
proof fn lemma_count_at_most_length(broadcasts: Seq<BroadcastView>, radio_id: u8)
    ensures
        count_on(broadcasts, radio_id) <= broadcasts.len(),
    decreases broadcasts.len(),
{
    if broadcasts.len() > 0 {
        lemma_count_at_most_length(broadcasts.drop_last(), radio_id);
    }
}

/// Counts the broadcasts of each station.  The count of station `s` stands
/// at index `s - 1`.  A broadcast on none of the stations is not counted.
pub fn count_per_radio(broadcasts: &Vec<Broadcast>) -> (counts: [usize; RADIO_COUNT])
    ensures
        forall|station: u8|
            is_station(station) ==> counts@[station - 1] == #[trigger] count_on(
                views(broadcasts@),
                station,
            ),
        on_stations(views(broadcasts@)) ==> counts@[0] + counts@[1] + counts@[2]
            == broadcasts.len(),
{
    let ghost all = views(broadcasts@);
    let mut counts: [usize; RADIO_COUNT] = [0; RADIO_COUNT];
    let mut i: usize = 0;
    while i < broadcasts.len()
        invariant
            i <= broadcasts.len(),
            all == views(broadcasts@),
            forall|station: u8|
                is_station(station) ==> counts@[station - 1] == #[trigger] count_on(
                    all.take(i as int),
                    station,
                ),
        decreases broadcasts.len() - i,
    {
        let radio_id = broadcasts[i].radio_id;
        let ghost counted = counts@;
        proof {
            assert(all.take(i + 1).drop_last() =~= all.take(i as int));
            assert(all.take(i + 1).last().radio_id == radio_id);
            lemma_count_at_most_length(all.take(i as int), radio_id);
        }
        if 1 <= radio_id && radio_id as usize <= RADIO_COUNT {
            let index = (radio_id - 1) as usize;
            assert(counts@[index as int] == count_on(all.take(i as int), radio_id));
            counts[index] = counts[index] + 1;
        }
        proof {
            assert forall|station: u8| is_station(station) implies counts@[station - 1]
                == #[trigger] count_on(all.take(i + 1), station) by {
                assert(counted[station - 1] == count_on(all.take(i as int), station));
            }
        }
        i += 1;
    }
    proof {
        assert(all.take(broadcasts.len() as int) =~= all);
        if on_stations(all) {
            lemma_counts_add_up(all);
            assert(counts@[0] == count_on(all, 1u8));
            assert(counts@[1] == count_on(all, 2u8));
            assert(counts@[2] == count_on(all, 3u8));
        }
    }
    counts
}

/// Where every broadcast is on one of the stations, the counts of the
/// stations add up to the number of broadcasts.
pub proof fn lemma_counts_add_up(broadcasts: Seq<BroadcastView>)
    requires
        on_stations(broadcasts),
    ensures
        count_on(broadcasts, 1) + count_on(broadcasts, 2) + count_on(broadcasts, 3)
            == broadcasts.len(),
    decreases broadcasts.len(),
{
    if broadcasts.len() > 0 {
        let front = broadcasts.drop_last();
        assert(is_station(broadcasts.last().radio_id));
        assert forall|i: int| 0 <= i < front.len() implies is_station(
            #[trigger] front[i].radio_id,
        ) by {
            assert(front[i] == broadcasts[i]);
        }
        lemma_counts_add_up(front);
    }
}

// ---------------------------------------------------------------------
// The time that an author spans on a station
// ---------------------------------------------------------------------
/// The broadcast is on station `radio_id` and by `author`.
pub open spec fn is_by(b: BroadcastView, radio_id: u8, author: Seq<char>) -> bool {
    b.radio_id == radio_id && b.author == author
}

/// No broadcast is on station `radio_id` and by `author`.
pub open spec fn none_by(broadcasts: Seq<BroadcastView>, radio_id: u8, author: Seq<char>) -> bool {
    forall|j: int| 0 <= j < broadcasts.len() ==> !is_by(#[trigger] broadcasts[j], radio_id, author)
}

/// Broadcast `i` is the first on station `radio_id` and by `author`.
pub open spec fn is_first_by(
    broadcasts: Seq<BroadcastView>,
    radio_id: u8,
    author: Seq<char>,
    i: int,
) -> bool {
    &&& 0 <= i < broadcasts.len()
    &&& is_by(broadcasts[i], radio_id, author)
    &&& forall|j: int| 0 <= j < i ==> !is_by(#[trigger] broadcasts[j], radio_id, author)
}

/// Broadcast `i` is the last on station `radio_id` and by `author`.
pub open spec fn is_last_by(
    broadcasts: Seq<BroadcastView>,
    radio_id: u8,
    author: Seq<char>,
    i: int,
) -> bool {
    &&& 0 <= i < broadcasts.len()
    &&& is_by(broadcasts[i], radio_id, author)
    &&& forall|j: int|
        i < j < broadcasts.len() ==> !is_by(#[trigger] broadcasts[j], radio_id, author)
}

/// The time from the start of `first` to the end of `last`.  There is none
/// where `last` ends before `first` starts, and none where it is more than
/// a `Time` can say.
pub open spec fn span_between(first: BroadcastView, last: BroadcastView) -> Result<
    Time,
    ClockError,
> {
    let end = last.start_time.total_sec() + last.dur_time.total_sec();
    let start = first.start_time.total_sec();
    if end < start {
        Err(ClockError::Underflow)
    } else if !Time::representable((end - start) as nat) {
        Err(ClockError::Overflow)
    } else {
        Ok(Time::spec_from_sec((end - start) as nat))
    }
}

/// Where the end of `last` fits a `Time` and is not before the start of
/// `first`, the time between them is that end less that start.
pub proof fn lemma_span_is_end_less_start(first: BroadcastView, last: BroadcastView)
    requires
        Time::representable(last.start_time.total_sec() + last.dur_time.total_sec()),
        first.start_time.total_sec() <= last.start_time.total_sec() + last.dur_time.total_sec(),
    ensures
        span_between(first, last) == Ok::<Time, ClockError>(
            last.start_time.spec_add(last.dur_time).spec_sub(first.start_time),
        ),
{
    Time::lemma_to_sec_undoes_from_sec(last.start_time.total_sec() + last.dur_time.total_sec());
}

/// The time from the start of `first` to the end of `last`.
pub fn time_span(first: &Broadcast, last: &Broadcast) -> (r: Result<Time, ClockError>)
    ensures
        r == span_between(first@, last@),
{
    let end = last.start_time.to_sec() + last.dur_time.to_sec();
    let start = first.start_time.to_sec();
    if end < start {
        Err(ClockError::Underflow)
    } else if end - start > MAX_SEC {
        Err(ClockError::Overflow)
    } else {
        Ok(Time::from_sec(end - start))
    }
}

/// The time from the start of the first broadcast by `author` on station
/// `radio_id` to the end of the last one.  `None` where the station has no
/// broadcast by that author.  The author's name has to be the same letter
/// for letter.
pub fn author_time_span(broadcasts: &Vec<Broadcast>, radio_id: u8, author: &str) -> (r: Option<
    Result<Time, ClockError>,
>)
    ensures
        r is None <==> none_by(views(broadcasts@), radio_id, author@),
        forall|first: int, last: int|
            #![trigger
                is_first_by(views(broadcasts@), radio_id, author@, first),
                is_last_by(views(broadcasts@), radio_id, author@, last)
            ]
            is_first_by(views(broadcasts@), radio_id, author@, first) && is_last_by(
                views(broadcasts@),
                radio_id,
                author@,
                last,
            ) ==> r == Some(span_between(views(broadcasts@)[first], views(broadcasts@)[last])),
{
    let ghost all = views(broadcasts@);
    let wanted = chars_of(author);
    let mut first: Option<usize> = None;
    let mut last: Option<usize> = None;
    let mut i: usize = 0;
    while i < broadcasts.len()
        invariant
            i <= broadcasts.len(),
            all == views(broadcasts@),
            wanted@ == author@,
            first is None <==> last is None,
            first is None ==> forall|j: int|
                0 <= j < i ==> !is_by(#[trigger] all[j], radio_id, author@),
            first matches Some(f) ==> f < i && is_first_by(all, radio_id, author@, f as int),
            last matches Some(l) ==> {
                &&& l < i
                &&& is_by(all[l as int], radio_id, author@)
                &&& forall|j: int| l < j < i ==> !is_by(#[trigger] all[j], radio_id, author@)
            },
        decreases broadcasts.len() - i,
    {
        let b = &broadcasts[i];
        assert(all[i as int] == b@);
        if b.radio_id == radio_id && text_equals(b.author.as_str(), &wanted) {
            if first.is_none() {
                first = Some(i);
            }
            last = Some(i);
        }
        i += 1;
    }
    match (first, last) {
        (Some(f), Some(l)) => {
            let r = Some(time_span(&broadcasts[f], &broadcasts[l]));
            proof {
                assert(all[f as int] == broadcasts@[f as int]@);
                assert(all[l as int] == broadcasts@[l as int]@);
                assert(is_last_by(all, radio_id, author@, l as int));
                assert(is_by(all[f as int], radio_id, author@));
                assert forall|first: int, last: int|
                    is_first_by(all, radio_id, author@, first) && is_last_by(
                        all,
                        radio_id,
                        author@,
                        last,
                    ) implies first == f && last == l by {
                    assert(is_by(all[first], radio_id, author@));
                    assert(is_by(all[last], radio_id, author@));
                    assert(is_by(all[f as int], radio_id, author@));
                    assert(is_by(all[l as int], radio_id, author@));
                }
            }
            r
        },
        _ => {
            proof {
                assert forall|first: int| !is_first_by(all, radio_id, author@, first) by {
                    if 0 <= first < all.len() {
                        assert(!is_by(all[first], radio_id, author@));
                    }
                }
            }
            None
        },
    }
}

// ---------------------------------------------------------------------
// What the other stations played when a title came on
// ---------------------------------------------------------------------
/// The broadcast is of `title` by `author`.
pub open spec fn is_titled(b: BroadcastView, author: Seq<char>, title: Seq<char>) -> bool {
    b.author == author && b.title == title
}

/// `which` is the last broadcast on `station` among those up to and
/// including place `at`, or `None` where there is none on that station.
pub open spec fn is_current(
    broadcasts: Seq<BroadcastView>,
    station: u8,
    at: int,
    which: Option<usize>,
) -> bool {
    match which {
        Some(i) => {
            &&& i <= at
            &&& broadcasts[i as int].radio_id == station
            &&& forall|j: int| i < j <= at ==> (#[trigger] broadcasts[j]).radio_id != station
        },
        None => forall|j: int| 0 <= j <= at ==> (#[trigger] broadcasts[j]).radio_id != station,
    }
}

/// Where a title was found, and what each station was playing then.
#[derive(Copy, Clone, PartialEq, Eq, Debug)]
pub struct Neighbors {
    /// The place of the broadcast that was looked for.
    pub position: usize,
    /// For each station, at index `station - 1`, the place of what it was
    /// playing; for the station of the broadcast looked for, that broadcast.
    pub current: [Option<usize>; RADIO_COUNT],
}

/// `n` is the answer for the first broadcast of `title` by `author`.
pub open spec fn is_neighbors(
    broadcasts: Seq<BroadcastView>,
    author: Seq<char>,
    title: Seq<char>,
    n: Neighbors,
) -> bool {
    &&& n.position < broadcasts.len()
    &&& is_titled(broadcasts[n.position as int], author, title)
    &&& forall|j: int| 0 <= j < n.position ==> !is_titled(#[trigger] broadcasts[j], author, title)
    &&& forall|s: int|
        0 <= s < RADIO_COUNT ==> is_current(
            broadcasts,
            (s + 1) as u8,
            n.position as int,
            #[trigger] n.current@[s],
        )
}

/// Finds the first broadcast of `title` by `author`, both the same letter
/// for letter, and tells what each station was playing at that point of
/// the log: its last broadcast up to there.  `None` where the title does
/// not occur.  Later occurrences are not looked at.
pub fn neighbors_of_title(broadcasts: &Vec<Broadcast>, author: &str, title: &str) -> (r: Option<
    Neighbors,
>)
    ensures
        match r {
            Some(n) => is_neighbors(views(broadcasts@), author@, title@, n),
            None => forall|j: int|
                0 <= j < broadcasts.len() ==> !is_titled(
                    #[trigger] views(broadcasts@)[j],
                    author@,
                    title@,
                ),
        },
{
    let ghost all = views(broadcasts@);
    let wanted_author = chars_of(author);
    let wanted_title = chars_of(title);
    let mut current: [Option<usize>; RADIO_COUNT] = [None; RADIO_COUNT];
    let mut i: usize = 0;
    while i < broadcasts.len()
        invariant
            i <= broadcasts.len(),
            all == views(broadcasts@),
            wanted_author@ == author@,
            wanted_title@ == title@,
            forall|j: int| 0 <= j < i ==> !is_titled(#[trigger] all[j], author@, title@),
            forall|s: int|
                0 <= s < RADIO_COUNT ==> is_current(all, (s + 1) as u8, i - 1, #[trigger] current@[s]),
        decreases broadcasts.len() - i,
    {
        let b = &broadcasts[i];
        assert(all[i as int] == b@);
        let ghost before = current@;
        if 1 <= b.radio_id && b.radio_id as usize <= RADIO_COUNT {
            current[(b.radio_id - 1) as usize] = Some(i);
        }
        proof {
            assert forall|s: int| 0 <= s < RADIO_COUNT implies is_current(
                all,
                (s + 1) as u8,
                i as int,
                #[trigger] current@[s],
            ) by {
                assert(is_current(all, (s + 1) as u8, i - 1, before[s]));
            }
        }
        if text_equals(b.author.as_str(), &wanted_author) && text_equals(
            b.title.as_str(),
            &wanted_title,
        ) {
            return Some(Neighbors { position: i, current });
        }
        i += 1;
    }
    None
}

// ---------------------------------------------------------------------
// Fuzzy search
// ---------------------------------------------------------------------
/// How a broadcast is listed: author, colon, title.
pub open spec fn listing(b: BroadcastView) -> Seq<char> {
    b.author + seq![':'] + b.title
}

/// The broadcast's author and title, written one after the other, match the
/// search term.
pub open spec fn is_hit(b: BroadcastView, term: Seq<char>) -> bool {
    fuzzy_match(b.author + b.title, term)
}

/// The listings of the broadcasts that match the search term, in the order
/// of the log.
pub open spec fn search_hits(broadcasts: Seq<BroadcastView>, term: Seq<char>) -> Seq<Seq<char>> {
    broadcasts.filter(|b: BroadcastView| is_hit(b, term)).map_values(
        |b: BroadcastView| listing(b),
    )
}

/// The lines of a search result: the search term, then the hits.
pub open spec fn search_lines(broadcasts: Seq<BroadcastView>, term: Seq<char>) -> Seq<Seq<char>> {
    seq![term] + search_hits(broadcasts, term)
}

/// The line that lists a broadcast.
pub fn listing_of(b: &Broadcast) -> (line: String)
    ensures
        line@ == listing(b@),
{
    let mut line = b.author.clone();
    line.push(':');
    line.append(b.title.as_str());
    line
}

/// Searches the schedule for `term`.  The first line of the result is the
/// term itself; after it comes one line for each broadcast that matches, in
/// the order of the log.  The first line is there also where nothing
/// matches.
pub fn fuzzy_search(broadcasts: &Vec<Broadcast>, term: &str) -> (lines: Vec<String>)
    ensures
        string_views(lines@) == search_lines(views(broadcasts@), term@),
        term@.len() == 0 ==> string_views(lines@) == seq![term@] + views(broadcasts@).map_values(
            |b: BroadcastView| listing(b),
        ),
{
    let ghost all = views(broadcasts@);
    let ghost hit = |b: BroadcastView| is_hit(b, term@);
    let ghost list = |b: BroadcastView| listing(b);
    let mut lines: Vec<String> = Vec::new();
    lines.push(term.to_owned());
    proof {
        assert(all.take(0).filter(hit) =~= Seq::<BroadcastView>::empty());
        assert(string_views(lines@) =~= seq![term@] + all.take(0).filter(hit).map_values(list));
    }
    let mut i: usize = 0;
    while i < broadcasts.len()
        invariant
            i <= broadcasts.len(),
            all == views(broadcasts@),
            hit == |b: BroadcastView| is_hit(b, term@),
            list == |b: BroadcastView| listing(b),
            string_views(lines@) == seq![term@] + all.take(i as int).filter(hit).map_values(list),
        decreases broadcasts.len() - i,
    {
        let b = &broadcasts[i];
        let ghost before = lines@;
        let ghost found = all.take(i as int).filter(hit);
        proof {
            assert(all[i as int] == b@);
            assert(all.take(i + 1) =~= all.take(i as int).push(b@));
            all.take(i as int).lemma_filter_push(b@, hit);
        }
        let mut text = b.author.clone();
        text.append(b.title.as_str());
        if does_match(text.as_str(), term) {
            let line = listing_of(b);
            lines.push(line);
            proof {
                assert(string_views(lines@) =~= string_views(before).push(line@));
                assert(found.push(b@).map_values(list) =~= found.map_values(list).push(list(b@)));
                assert(string_views(lines@) =~= seq![term@] + found.push(b@).map_values(list));
            }
        }
        i += 1;
    }
    proof {
        assert(all.take(broadcasts.len() as int) =~= all);
        if term@.len() == 0 {
            assert(term@ =~= Seq::<char>::empty());
            lemma_empty_term_lists_all(all);
        }
    }
    lines
}

/// With the empty search term every broadcast is listed, in the order of
/// the log, after a first line that is empty.
pub proof fn lemma_empty_term_lists_all(broadcasts: Seq<BroadcastView>)
    ensures
        search_lines(broadcasts, Seq::<char>::empty()) == seq![Seq::<char>::empty()]
            + broadcasts.map_values(|b: BroadcastView| listing(b)),
{
    let hit = |b: BroadcastView| is_hit(b, Seq::<char>::empty());
    lemma_filter_keeps_all(broadcasts, hit);
}

/// A filter that every element passes changes nothing.
proof fn lemma_filter_keeps_all(s: Seq<BroadcastView>, keep: spec_fn(BroadcastView) -> bool)
    requires
        forall|b: BroadcastView| #[trigger] keep(b),
    ensures
        s.filter(keep) == s,
    decreases s.len(),
{
    reveal(Seq::filter);
    if s.len() > 0 {
        lemma_filter_keeps_all(s.drop_last(), keep);
        assert(s.drop_last().push(s.last()) =~= s);
    }
}

// ---------------------------------------------------------------------
// The adjusted schedule
// ---------------------------------------------------------------------
/// The station whose schedule is adjusted.
pub const ADJUSTED_RADIO_ID: u8 = 1;

/// The seconds added to each broadcast.
pub const PADDING_SEC: u64 = 60;

/// The seconds after the full hour at which the schedule goes on when a
/// broadcast has run into a new hour.
pub const BREAK_SEC: u64 = 180;

/// The running clock of the adjusted schedule after one more broadcast, in
/// seconds.  The broadcast is padded.  Where the clock with the padded
/// broadcast is in a later hour than the clock without it, the new clock is
/// the break mark of that later hour plus the padded broadcast; else it is
/// the clock with the padded broadcast.
pub open spec fn adjusted_next(running: nat, duration: nat) -> nat {
    let delta = duration + PADDING_SEC as nat;
    let candidate = running + delta;
    if candidate / 3600 > running / 3600 {
        delta + (candidate / 3600) * 3600 + BREAK_SEC as nat
    } else {
        candidate
    }
}

/// The running clock of the adjusted schedule after all broadcasts, in
/// seconds.  Only the broadcasts of the adjusted station move it.
pub open spec fn adjusted_total(broadcasts: Seq<BroadcastView>) -> nat
    decreases broadcasts.len(),
{
    if broadcasts.len() == 0 {
        0
    } else if broadcasts.last().radio_id == ADJUSTED_RADIO_ID {
        adjusted_next(
            adjusted_total(broadcasts.drop_last()),
            broadcasts.last().dur_time.total_sec(),
        )
    } else {
        adjusted_total(broadcasts.drop_last())
    }
}

/// The rule of the adjusted schedule on times.  The broadcast is padded by
/// a minute.  Where the running clock with the padded broadcast is in a
/// later hour than the running clock, the new clock is the third minute of
/// that later hour plus the padded broadcast; else it is the running clock
/// with the padded broadcast.
pub open spec fn adjusted_rule(running: Time, duration: Time) -> Time {
    let delta = duration.spec_add(Time { hour: 0, min: 1, sec: 0 });
    let candidate = running.spec_add(delta);
    if candidate.hour > running.hour {
        delta.spec_add(Time { hour: candidate.hour, min: 3, sec: 0 })
    } else {
        candidate
    }
}

/// On a canonical running clock, and where the new clock fits a `Time`,
/// [`adjusted_next`] is the rule on times.
pub proof fn lemma_adjusted_next_is_the_rule(running: Time, duration: Time)
    requires
        running.is_canonical(),
        Time::representable(adjusted_next(running.total_sec(), duration.total_sec())),
    ensures
        Time::spec_from_sec(adjusted_next(running.total_sec(), duration.total_sec()))
            == adjusted_rule(running, duration),
{
    let delta = duration.total_sec() + 60;
    let candidate = running.total_sec() + delta;
    Time::lemma_from_sec_undoes_to_sec(running);
    Time::lemma_to_sec_undoes_from_sec(delta);
    Time::lemma_to_sec_undoes_from_sec(candidate);
}

/// The running clock never goes back.
proof fn lemma_adjusted_total_grows(broadcasts: Seq<BroadcastView>, k: int)
    requires
        0 <= k <= broadcasts.len(),
    ensures
        adjusted_total(broadcasts.take(k)) <= adjusted_total(broadcasts),
    decreases broadcasts.len() - k,
{
    if k == broadcasts.len() {
        assert(broadcasts.take(k) =~= broadcasts);
    } else {
        lemma_adjusted_total_grows(broadcasts.drop_last(), k);
        assert(broadcasts.drop_last().take(k) =~= broadcasts.take(k));
    }
}

/// Moves the running clock of the adjusted schedule on by one broadcast.
/// The hour of the running clock is the full hours of its seconds.  `None`
/// where the new clock is more than a `Time` can say.
pub fn adjusted_step(running: Time, duration: Time) -> (r: Option<Time>)
    ensures
        match r {
            Some(t) => {
                &&& Time::representable(adjusted_next(running.total_sec(), duration.total_sec()))
                &&& t == Time::spec_from_sec(
                    adjusted_next(running.total_sec(), duration.total_sec()),
                )
            },
            None => !Time::representable(
                adjusted_next(running.total_sec(), duration.total_sec()),
            ),
        },
{
    let before = running.to_sec();
    let delta = duration.to_sec() + PADDING_SEC;
    let candidate = before + delta;
    let next = if candidate / 3600 > before / 3600 {
        delta + (candidate / 3600) * 3600 + BREAK_SEC
    } else {
        candidate
    };
    if next <= MAX_SEC {
        Some(Time::from_sec(next))
    } else {
        None
    }
}

/// The running clock of the adjusted schedule after all broadcasts.
pub fn adjusted_schedule_total(broadcasts: &Vec<Broadcast>) -> (r: Result<Time, ClockError>)
    ensures
        match r {
            Ok(t) => {
                &&& Time::representable(adjusted_total(views(broadcasts@)))
                &&& t == Time::spec_from_sec(adjusted_total(views(broadcasts@)))
            },
            Err(e) => e == ClockError::Overflow && !Time::representable(
                adjusted_total(views(broadcasts@)),
            ),
        },
{
    let ghost all = views(broadcasts@);
    let mut running = Time { hour: 0, min: 0, sec: 0 };
    let mut i: usize = 0;
    proof {
        Time::lemma_from_sec_undoes_to_sec(running);
    }
    while i < broadcasts.len()
        invariant
            i <= broadcasts.len(),
            all == views(broadcasts@),
            Time::representable(adjusted_total(all.take(i as int))),
            running == Time::spec_from_sec(adjusted_total(all.take(i as int))),
        decreases broadcasts.len() - i,
    {
        let b = &broadcasts[i];
        proof {
            assert(all[i as int] == b@);
            assert(all.take(i + 1).drop_last() =~= all.take(i as int));
            Time::lemma_to_sec_undoes_from_sec(adjusted_total(all.take(i as int)));
        }
        if b.radio_id == ADJUSTED_RADIO_ID {
            match adjusted_step(running, b.dur_time) {
                Some(next) => {
                    running = next;
                },
                None => {
                    proof {
                        lemma_adjusted_total_grows(all, i + 1);
                    }
                    return Err(ClockError::Overflow);
                },
            }
        }
        i += 1;
    }
    proof {
        assert(all.take(broadcasts.len() as int) =~= all);
    }
    Ok(running)
}

} // verus!
