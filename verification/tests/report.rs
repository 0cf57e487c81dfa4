use radio_schedule::clock::Time;
use radio_schedule::parser::parse_schedule;
use radio_schedule::query::{fuzzy_search, neighbors_of_title, Neighbors};
use radio_schedule::report::{counts_line, file_text, neighbors_line, span_line, total_line};

fn time(hour: u32, min: u8, sec: u8) -> Time {
    Time { hour, min, sec }
}

const LOG: &str = "5\n\
    1 3 0 Eric Clapton:Layla\n\
    2 4 30 Omega:Gyongyhaju lany\n\
    3 2 15 Queen:Bohemian Rhapsody\n\
    1 5 10 Queen:Innuendo\n\
    2 3 30 Omega:Legenda\n";

#[test]
fn counts_line_lists_the_counts_in_brackets() {
    assert_eq!(counts_line(&[2, 0, 0]), "2. [2, 0, 0]");
    assert_eq!(counts_line(&[0, 0, 0]), "2. [0, 0, 0]");
    assert_eq!(counts_line(&[10, 200, 3000]), "2. [10, 200, 3000]");
}

#[test]
fn span_line_shows_the_time_or_says_not_found() {
    assert_eq!(span_line(Some(time(0, 12, 10))), "3. 0:12:10");
    assert_eq!(span_line(Some(time(30, 0, 5))), "3. 30:0:5");
    assert_eq!(span_line(None), "3. not found");
}

#[test]
fn neighbors_line_names_the_station_and_the_other_stations_broadcasts() {
    let schedule = parse_schedule(LOG).unwrap();
    let found = neighbors_of_title(&schedule, "Omega", "Legenda").unwrap();
    assert_eq!(
        neighbors_line(&schedule, &found),
        Some(String::from("4. 2; Queen:Innuendo; Queen:Bohemian Rhapsody"))
    );
    let found = neighbors_of_title(&schedule, "Queen", "Innuendo").unwrap();
    assert_eq!(
        neighbors_line(&schedule, &found),
        Some(String::from("4. 1; Omega:Gyongyhaju lany; Queen:Bohemian Rhapsody"))
    );
    let found = neighbors_of_title(&schedule, "Queen", "Bohemian Rhapsody").unwrap();
    assert_eq!(
        neighbors_line(&schedule, &found),
        Some(String::from("4. 3; Eric Clapton:Layla; Omega:Gyongyhaju lany"))
    );
}

#[test]
fn neighbors_line_needs_every_other_station_to_have_played() {
    let schedule = parse_schedule(LOG).unwrap();
    let found = neighbors_of_title(&schedule, "Eric Clapton", "Layla").unwrap();
    assert_eq!(neighbors_line(&schedule, &found), None);
    let found = neighbors_of_title(&schedule, "Omega", "Gyongyhaju lany").unwrap();
    assert_eq!(neighbors_line(&schedule, &found), None);
}

#[test]
fn neighbors_line_refuses_an_answer_of_another_schedule() {
    let schedule = parse_schedule(LOG).unwrap();
    let beyond = Neighbors { position: 5, current: [Some(0), Some(1), Some(2)] };
    assert_eq!(neighbors_line(&schedule, &beyond), None);
    let dangling = Neighbors { position: 4, current: [Some(9), Some(4), Some(2)] };
    assert_eq!(neighbors_line(&schedule, &dangling), None);
    let own_does_not_matter = Neighbors { position: 4, current: [Some(3), None, Some(2)] };
    assert_eq!(
        neighbors_line(&schedule, &own_does_not_matter),
        Some(String::from("4. 2; Queen:Innuendo; Queen:Bohemian Rhapsody"))
    );
}

#[test]
fn total_line_shows_the_time() {
    assert_eq!(total_line(time(2, 3, 30)), "6. 2:3:30");
    assert_eq!(total_line(time(0, 0, 0)), "6. 0:0:0");
}

#[test]
fn file_text_ends_every_line_with_a_line_feed() {
    assert_eq!(file_text(&Vec::new()), "");
    assert_eq!(file_text(&vec![String::from("")]), "\n");
    assert_eq!(file_text(&vec![String::from("a"), String::from("b:c")]), "a\nb:c\n");
}

#[test]
fn fuzzy_search_file() {
    let schedule = parse_schedule(LOG).unwrap();
    let text = file_text(&fuzzy_search(&schedule, ""));
    assert_eq!(
        text,
        "\nEric Clapton:Layla\nOmega:Gyongyhaju lany\nQueen:Bohemian Rhapsody\n\
         Queen:Innuendo\nOmega:Legenda\n"
    );
    let mut lines = text.lines();
    assert_eq!(lines.next(), Some(""));
    let listed: Vec<String> = lines.map(String::from).collect();
    let expected: Vec<String> =
        schedule.iter().map(|b| format!("{}:{}", b.author, b.title)).collect();
    assert_eq!(listed, expected);
}

#[test]
fn a_search_file_without_hits_holds_the_term_alone() {
    let schedule = parse_schedule(LOG).unwrap();
    assert_eq!(file_text(&fuzzy_search(&schedule, "xyz")), "xyz\n");
}
