//! The answers as lines of text.

use crate::clock::Time;
use crate::query::{listing, listing_of, Neighbors};
use crate::record::{views, Broadcast, BroadcastView, RADIO_COUNT};
use crate::text::{decimal_digits, push_decimal, string_views};
use vstd::prelude::*;

verus! {

// ---------------------------------------------------------------------
// Broadcasts per station
// ---------------------------------------------------------------------
/// Numbers written one after the other, with a comma and a space between
/// them.
pub open spec fn listed(numbers: Seq<usize>) -> Seq<char>
    decreases numbers.len(),
{
    if numbers.len() == 0 {
        Seq::empty()
    } else if numbers.len() == 1 {
        decimal_digits(numbers[0] as nat)
    } else {
        listed(numbers.drop_last()) + ", "@ + decimal_digits(numbers.last() as nat)
    }
}

/// The line that reports the broadcasts per station.
pub open spec fn counts_text(counts: Seq<usize>) -> Seq<char> {
    "2. ["@ + listed(counts) + "]"@
}

/// The line that reports the broadcasts per station: the counts in square
/// brackets, in the order of the stations.
pub fn counts_line(counts: &[usize; RADIO_COUNT]) -> (line: String)
    ensures
        line@ == counts_text(counts@),
{
    let mut line = String::new();
    line.append("2. [");
    let ghost head = line@;
    let mut i: usize = 0;
    while i < RADIO_COUNT
        invariant
            i <= RADIO_COUNT,
            head == "2. ["@,
            line@ == head + listed(counts@.take(i as int)),
        decreases RADIO_COUNT - i,
    {
        proof {
            assert(counts@.take(i + 1).drop_last() =~= counts@.take(i as int));
        }
        if i > 0 {
            line.append(", ");
        }
        push_decimal(&mut line, counts[i] as u64);
        proof {
            assert(line@ =~= head + listed(counts@.take(i + 1)));
        }
        i += 1;
    }
    line.append("]");
    proof {
        assert(counts@.take(RADIO_COUNT as int) =~= counts@);
    }
    line
}

// ---------------------------------------------------------------------
// The time that an author spans
// ---------------------------------------------------------------------
/// The line that reports the time that an author spans.
pub open spec fn span_text(span: Option<Time>) -> Seq<char> {
    match span {
        Some(t) => "3. "@ + t.text(),
        None => "3. not found"@,
    }
}

/// The line that reports the time that an author spans, or that the author
/// was not found.
pub fn span_line(span: Option<Time>) -> (line: String)
    ensures
        line@ == span_text(span),
{
    match span {
        Some(t) => {
            let mut line = String::new();
            line.append("3. ");
            let time = t.render();
            line.append(time.as_str());
            line
        },
        None => "3. not found".to_owned(),
    }
}

// ---------------------------------------------------------------------
// What the other stations played
// ---------------------------------------------------------------------
/// The answer names a broadcast of the schedule, and for every station but
/// that broadcast's own it names a broadcast of the schedule.
pub open spec fn can_report(broadcasts: Seq<BroadcastView>, n: Neighbors) -> bool {
    &&& n.position < broadcasts.len()
    &&& forall|s: int|
        0 <= s < RADIO_COUNT && s + 1 != broadcasts[n.position as int].radio_id ==> {
            &&& (#[trigger] n.current@[s]) is Some
            &&& n.current@[s]->0 < broadcasts.len()
        }
}

/// What the first `upto` stations were playing, but for the station of the
/// broadcast looked for: each listing after a semicolon and a space.
pub open spec fn others_text(broadcasts: Seq<BroadcastView>, n: Neighbors, upto: int) -> Seq<char>
    decreases upto,
{
    if upto <= 0 {
        Seq::empty()
    } else if upto != broadcasts[n.position as int].radio_id {
        others_text(broadcasts, n, upto - 1) + "; "@ + listing(
            broadcasts[n.current@[upto - 1]->0 as int],
        )
    } else {
        others_text(broadcasts, n, upto - 1)
    }
}

/// The line that reports what the other stations played.
pub open spec fn neighbors_text(broadcasts: Seq<BroadcastView>, n: Neighbors) -> Seq<char> {
    "4. "@ + decimal_digits(broadcasts[n.position as int].radio_id as nat) + others_text(
        broadcasts,
        n,
        RADIO_COUNT as int,
    )
}

/// The line that reports what the other stations played: the station of the
/// broadcast looked for, then what each other station was playing, in the
/// order of the stations.  `None` where one of the other stations had not
/// played anything yet, or where the answer is of another schedule.
pub fn neighbors_line(broadcasts: &Vec<Broadcast>, n: &Neighbors) -> (r: Option<String>)
    ensures
        match r {
            Some(line) => can_report(views(broadcasts@), *n) && line@ == neighbors_text(
                views(broadcasts@),
                *n,
            ),
            None => !can_report(views(broadcasts@), *n),
        },
{
    let ghost all = views(broadcasts@);
    if n.position >= broadcasts.len() {
        return None;
    }
    let radio_id = broadcasts[n.position].radio_id;
    assert(all[n.position as int] == broadcasts@[n.position as int]@);
    let mut line = String::new();
    line.append("4. ");
    push_decimal(&mut line, radio_id as u64);
    let ghost head = line@;
    let mut s: usize = 0;
    while s < RADIO_COUNT
        invariant
            s <= RADIO_COUNT,
            all == views(broadcasts@),
            n.position < broadcasts.len(),
            radio_id == all[n.position as int].radio_id,
            head == "4. "@ + decimal_digits(radio_id as nat),
            line@ == head + others_text(all, *n, s as int),
            forall|t: int|
                0 <= t < s && t + 1 != radio_id ==> {
                    &&& (#[trigger] n.current@[t]) is Some
                    &&& n.current@[t]->0 < broadcasts.len()
                },
        decreases RADIO_COUNT - s,
    {
        if s + 1 != radio_id as usize {
            match n.current[s] {
                Some(at) => {
                    if at >= broadcasts.len() {
                        return None;
                    }
                    assert(all[at as int] == broadcasts@[at as int]@);
                    let other = listing_of(&broadcasts[at]);
                    line.append("; ");
                    line.append(other.as_str());
                    proof {
                        assert(line@ =~= head + others_text(all, *n, s + 1));
                    }
                },
                None => {
                    return None;
                },
            }
        }
        s += 1;
    }
    Some(line)
}

// ---------------------------------------------------------------------
// The adjusted schedule
// ---------------------------------------------------------------------
/// The line that reports the length of the adjusted schedule.
pub open spec fn total_text(total: Time) -> Seq<char> {
    "6. "@ + total.text()
}

/// The line that reports the length of the adjusted schedule.
pub fn total_line(total: Time) -> (line: String)
    ensures
        line@ == total_text(total),
{
    let mut line = String::new();
    line.append("6. ");
    let time = total.render();
    line.append(time.as_str());
    line
}

// ---------------------------------------------------------------------
// The search result
// ---------------------------------------------------------------------
/// Lines as one text, each line ended by a line feed.
pub open spec fn joined(lines: Seq<Seq<char>>) -> Seq<char>
    decreases lines.len(),
{
    if lines.len() == 0 {
        Seq::empty()
    } else {
        joined(lines.drop_last()) + lines.last() + seq!['\n']
    }
}

/// The text of a file that holds `lines`, each ended by a line feed.
pub fn file_text(lines: &Vec<String>) -> (text: String)
    ensures
        text@ == joined(string_views(lines@)),
{
    let ghost all = string_views(lines@);
    let mut text = String::new();
    let mut i: usize = 0;
    while i < lines.len()
        invariant
            i <= lines.len(),
            all == string_views(lines@),
            text@ == joined(all.take(i as int)),
        decreases lines.len() - i,
    {
        proof {
            assert(all.take(i + 1).drop_last() =~= all.take(i as int));
            assert(all.take(i + 1).last() == lines@[i as int]@);
        }
        text.append(lines[i].as_str());
        text.push('\n');
        i += 1;
    }
    proof {
        assert(all.take(lines.len() as int) =~= all);
    }
    text
}

} // verus!
