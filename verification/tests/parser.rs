use radio_schedule::clock::Time;
use radio_schedule::line::parse_line;
use radio_schedule::parser::parse_schedule;
use radio_schedule::schedule::{place, start_clocks};
use radio_schedule::record::{Broadcast, Entry, ParseError, ParseErrorKind};

fn time(hour: u32, min: u8, sec: u8) -> Time {
    Time { hour, min, sec }
}

fn entry(radio_id: u8, min: u8, sec: u8, author: &str, title: &str) -> Entry {
    Entry {
        radio_id,
        dur_time: time(0, min, sec),
        author: String::from(author),
        title: String::from(title),
    }
}

fn broadcast(radio_id: u8, start: Time, dur: Time, author: &str, title: &str) -> Broadcast {
    Broadcast {
        radio_id,
        start_time: start,
        dur_time: dur,
        author: String::from(author),
        title: String::from(title),
    }
}

fn failure(line: usize, kind: ParseErrorKind) -> Result<Vec<Broadcast>, ParseError> {
    Err(ParseError { line, kind })
}

#[test]
fn a_line_gives_station_duration_author_and_title() {
    assert_eq!(parse_line("1 0 30 Artist A:Song A"), Ok(entry(1, 0, 30, "Artist A", "Song A")));
    assert_eq!(parse_line("3 12 5 Omega:Legenda"), Ok(entry(3, 12, 5, "Omega", "Legenda")));
    assert_eq!(parse_line("2 255 255 a:b"), Ok(entry(2, 255, 255, "a", "b")));
}

#[test]
fn the_duration_is_kept_as_written() {
    let e = parse_line("1 75 90 A:B").unwrap();
    assert_eq!(e.dur_time, time(0, 75, 90));
    assert_eq!(e.dur_time.to_sec(), 4590);
}

#[test]
fn the_title_is_trimmed_and_the_author_is_not() {
    assert_eq!(parse_line("1 0 30 Artist A:  Song A  "), Ok(entry(1, 0, 30, "Artist A", "Song A")));
    assert_eq!(parse_line("1 0 30 Artist A :Song A\r"), Ok(entry(1, 0, 30, "Artist A ", "Song A")));
    assert_eq!(parse_line("1 0 30  Artist A:Song A"), Ok(entry(1, 0, 30, " Artist A", "Song A")));
    assert_eq!(parse_line("1 0 30 :"), Ok(entry(1, 0, 30, "", "")));
    assert_eq!(parse_line("1 0 30 A:\t "), Ok(entry(1, 0, 30, "A", "")));
}

#[test]
fn the_first_colon_parts_author_and_title() {
    assert_eq!(parse_line("1 0 30 A:B:C"), Ok(entry(1, 0, 30, "A", "B:C")));
    assert_eq!(parse_line("1 0 30 ::"), Ok(entry(1, 0, 30, "", ":")));
    assert_eq!(parse_line("2 3 4 AC/DC:T.N.T. (live: 1977)"), Ok(entry(2, 3, 4, "AC/DC", "T.N.T. (live: 1977)")));
}

#[test]
fn a_number_may_have_a_plus_sign_and_leading_zeros() {
    assert_eq!(parse_line("+1 07 +030 A:B"), Ok(entry(1, 7, 30, "A", "B")));
}

#[test]
fn a_line_with_too_few_fields_is_refused() {
    for line in ["", "1", "1 0", "1 0 30", "1\t0\t30\tA:B", "A:B"] {
        assert_eq!(parse_line(line), Err(ParseErrorKind::MissingField), "{:?}", line);
    }
}

#[test]
fn a_line_without_a_colon_is_refused() {
    for line in ["1 0 30 ", "1 0 30 Artist A Song A", "1 0 30 Artist A;Song A", "x y z w"] {
        assert_eq!(parse_line(line), Err(ParseErrorKind::MissingColon), "{:?}", line);
    }
}

#[test]
fn a_field_that_is_no_number_is_refused() {
    for line in [
        "x 0 30 A:B",
        "1 x 30 A:B",
        "1 0 x A:B",
        "1  0 30 A:B",
        " 1 0 30 A:B",
        "1 -1 30 A:B",
        "1 0 3.5 A:B",
        "1 256 0 A:B",
        "1 0 256 A:B",
        "256 0 0 A:B",
        "1 0 1000 A:B",
        "one 0 0 A:B",
    ] {
        assert_eq!(parse_line(line), Err(ParseErrorKind::NotANumber), "{:?}", line);
    }
}

#[test]
fn a_station_that_does_not_exist_is_refused() {
    for line in ["0 0 30 A:B", "4 0 30 A:B", "255 0 30 A:B"] {
        assert_eq!(parse_line(line), Err(ParseErrorKind::StationOutOfRange), "{:?}", line);
    }
    for line in ["1 0 30 A:B", "2 0 30 A:B", "3 0 30 A:B"] {
        assert!(parse_line(line).is_ok());
    }
}

#[test]
fn the_first_thing_wrong_with_a_line_is_reported() {
    assert_eq!(parse_line("9 x"), Err(ParseErrorKind::MissingField));
    assert_eq!(parse_line("9 x y no colon"), Err(ParseErrorKind::MissingColon));
    assert_eq!(parse_line("9 x y a:b"), Err(ParseErrorKind::NotANumber));
    assert_eq!(parse_line("9 1 1 a:b"), Err(ParseErrorKind::StationOutOfRange));
}

#[test]
fn example_end_to_end() {
    let schedule = parse_schedule("2\n1 0 30 Artist A:Song A\n1 1 0 Artist B:Song B\n").unwrap();
    assert_eq!(schedule.len(), 2);
    assert_eq!(schedule[0].radio_id, 1);
    assert_eq!(schedule[0].start_time, time(0, 0, 0));
    assert_eq!(schedule[0].dur_time, time(0, 0, 30));
    assert_eq!(schedule[0].author, "Artist A");
    assert_eq!(schedule[0].title, "Song A");
    assert_eq!(schedule[1].radio_id, 1);
    assert_eq!(schedule[1].start_time, time(0, 0, 30));
    assert_eq!(schedule[1].dur_time, time(0, 1, 0));
    assert_eq!(schedule[1].author, "Artist B");
    assert_eq!(schedule[1].title, "Song B");
    assert_eq!(radio_schedule::query::count_per_radio(&schedule)[0], 2);
}

#[test]
fn each_station_has_its_own_clock() {
    let input = "6\n1 3 0 A:a\n2 4 30 B:b\n1 58 0 C:c\n3 0 1 D:d\n2 0 45 E:e\n1 0 1 F:f";
    let schedule = parse_schedule(input).unwrap();
    assert_eq!(
        schedule,
        vec![
            broadcast(1, time(0, 0, 0), time(0, 3, 0), "A", "a"),
            broadcast(2, time(0, 0, 0), time(0, 4, 30), "B", "b"),
            broadcast(1, time(0, 3, 0), time(0, 58, 0), "C", "c"),
            broadcast(3, time(0, 0, 0), time(0, 0, 1), "D", "d"),
            broadcast(2, time(0, 4, 30), time(0, 0, 45), "E", "e"),
            broadcast(1, time(1, 1, 0), time(0, 0, 1), "F", "f"),
        ]
    );
}

#[test]
fn a_start_is_the_sum_of_what_the_station_played_before() {
    let mut input = String::from("400\n");
    for i in 0..400u32 {
        input.push_str(&format!("{} {} {} Author {}:Title {}\n", i % 3 + 1, i % 7, i % 61, i, i));
    }
    let schedule = parse_schedule(&input).unwrap();
    assert_eq!(schedule.len(), 400);
    let mut elapsed = [0u64; 3];
    let mut seen = [false; 3];
    for b in schedule.iter() {
        let station = b.radio_id as usize - 1;
        if !seen[station] {
            assert_eq!(b.start_time, time(0, 0, 0));
            seen[station] = true;
        }
        assert_eq!(b.start_time.to_sec(), elapsed[station]);
        assert!(b.start_time.min < 60 && b.start_time.sec < 60);
        elapsed[station] += b.dur_time.to_sec();
    }
    assert!(elapsed.iter().all(|&total| total > 3600));
}

#[test]
fn the_hour_of_a_start_goes_past_a_day() {
    let mut input = String::from("9\n");
    for _ in 0..9 {
        input.push_str("2 240 0 A:B\n");
    }
    let schedule = parse_schedule(&input).unwrap();
    assert_eq!(schedule[8].start_time, time(32, 0, 0));
}

#[test]
fn whitespace_around_the_log_is_dropped() {
    let plain = parse_schedule("1\n2 1 2 A:B").unwrap();
    assert_eq!(plain, vec![broadcast(2, time(0, 0, 0), time(0, 1, 2), "A", "B")]);
    assert_eq!(parse_schedule("\n\n 1\n2 1 2 A:B\n\n \n").unwrap(), plain);
    assert_eq!(parse_schedule("1\r\n2 1 2 A:B\r\n").unwrap(), plain);
    assert_eq!(parse_schedule(" 1 \n2 1 2 A: B ").unwrap(), plain);
}

#[test]
fn a_log_without_records_gives_an_empty_schedule() {
    assert_eq!(parse_schedule("0"), Ok(Vec::new()));
    assert_eq!(parse_schedule("0\n"), Ok(Vec::new()));
    assert_eq!(parse_schedule("  17  "), Ok(Vec::new()));
}

#[test]
fn the_records_are_the_lines_that_follow_the_count() {
    let two = "1 0 30 A:a\n2 0 40 B:b";
    let expected = vec![
        broadcast(1, time(0, 0, 0), time(0, 0, 30), "A", "a"),
        broadcast(2, time(0, 0, 0), time(0, 0, 40), "B", "b"),
    ];
    assert_eq!(parse_schedule(&format!("2\n{}", two)), Ok(expected.clone()));
    assert_eq!(parse_schedule(&format!("1\n{}", two)), Ok(expected.clone()));
    assert_eq!(parse_schedule(&format!("5\n{}", two)), Ok(expected));
}

#[test]
fn a_count_that_is_no_number_is_refused() {
    for input in ["", "   ", "x", "-1", "2.0", "two\n1 0 30 A:B", "1 0 30 A:B", "\n\n"] {
        assert_eq!(parse_schedule(input), failure(1, ParseErrorKind::BadRecordCount), "{:?}", input);
    }
    assert_eq!(
        parse_schedule("99999999999999999999999999\n"),
        failure(1, ParseErrorKind::BadRecordCount)
    );
}

#[test]
fn a_failure_names_its_line_and_its_kind() {
    assert_eq!(parse_schedule("1\n1 0"), failure(2, ParseErrorKind::MissingField));
    assert_eq!(parse_schedule("2\n1 0 30 A:a\n1 0 30 no colon"), failure(3, ParseErrorKind::MissingColon));
    assert_eq!(parse_schedule("3\n1 0 30 A:a\n1 0 30 B:b\n1 0 x C:c"), failure(4, ParseErrorKind::NotANumber));
    assert_eq!(parse_schedule("1\n4 0 30 A:a"), failure(2, ParseErrorKind::StationOutOfRange));
    assert_eq!(parse_schedule("1\n0 0 30 A:a"), failure(2, ParseErrorKind::StationOutOfRange));
}

#[test]
fn the_first_failure_is_reported() {
    assert_eq!(
        parse_schedule("3\n1 0 30 A:a\n7 0 30 B:b\n1 0"),
        failure(3, ParseErrorKind::StationOutOfRange)
    );
    assert_eq!(parse_schedule("3\n1 0\n7 0 30 B:b\nx"), failure(2, ParseErrorKind::MissingField));
}

#[test]
fn an_empty_line_among_the_records_is_refused() {
    assert_eq!(parse_schedule("2\n1 0 30 A:a\n\n1 0 30 B:b"), failure(3, ParseErrorKind::MissingField));
}

#[test]
fn place_starts_an_entry_at_its_stations_clock() {
    let mut clocks = start_clocks();
    assert_eq!(clocks, [time(0, 0, 0); 3]);
    let first = place(&mut clocks, entry(2, 59, 30, "A", "a"));
    assert_eq!(first, Ok(broadcast(2, time(0, 0, 0), time(0, 59, 30), "A", "a")));
    assert_eq!(clocks, [time(0, 0, 0), time(0, 59, 30), time(0, 0, 0)]);
    let second = place(&mut clocks, entry(2, 1, 0, "B", "b"));
    assert_eq!(second, Ok(broadcast(2, time(0, 59, 30), time(0, 1, 0), "B", "b")));
    assert_eq!(clocks, [time(0, 0, 0), time(1, 0, 30), time(0, 0, 0)]);
    let third = place(&mut clocks, entry(1, 0, 5, "C", "c"));
    assert_eq!(third, Ok(broadcast(1, time(0, 0, 0), time(0, 0, 5), "C", "c")));
    assert_eq!(clocks, [time(0, 0, 5), time(1, 0, 30), time(0, 0, 0)]);
}

#[test]
fn place_refuses_a_clock_that_does_not_fit() {
    let full = time(u32::MAX, 59, 0);
    let mut clocks = [time(0, 0, 0), time(0, 0, 0), full];
    assert_eq!(place(&mut clocks, entry(3, 1, 0, "A", "a")), Err(ParseErrorKind::ClockOverflow));
    assert_eq!(clocks, [time(0, 0, 0), time(0, 0, 0), full]);
    let last = place(&mut clocks, entry(3, 0, 59, "B", "b"));
    assert_eq!(last, Ok(broadcast(3, full, time(0, 0, 59), "B", "b")));
    assert_eq!(clocks[2], time(u32::MAX, 59, 59));
    assert_eq!(place(&mut clocks, entry(3, 0, 1, "C", "c")), Err(ParseErrorKind::ClockOverflow));
    assert!(place(&mut clocks, entry(1, 0, 1, "D", "d")).is_ok());
}

#[test]
fn place_refuses_a_station_that_does_not_exist() {
    let mut clocks = start_clocks();
    assert_eq!(place(&mut clocks, entry(0, 1, 0, "A", "a")), Err(ParseErrorKind::StationOutOfRange));
    assert_eq!(place(&mut clocks, entry(4, 1, 0, "A", "a")), Err(ParseErrorKind::StationOutOfRange));
    assert_eq!(clocks, [time(0, 0, 0); 3]);
}

#[test]
fn author_and_title_may_hold_any_letters() {
    let schedule = parse_schedule("2\n1 3 20 Republic:Szállj el kismadár\n1 4 0 Kispál és a Borz:Ha az életben\n").unwrap();
    assert_eq!(
        schedule,
        vec![
            broadcast(1, time(0, 0, 0), time(0, 3, 20), "Republic", "Szállj el kismadár"),
            broadcast(1, time(0, 3, 20), time(0, 4, 0), "Kispál és a Borz", "Ha az életben"),
        ]
    );
}
