use ultrastar_txt::parser::parse_txt_lines_str;
use ultrastar_txt::parser::read_line;
use ultrastar_txt::parser::Error;
use ultrastar_txt::parser::Step;
use ultrastar_txt::structs::Line;
use ultrastar_txt::structs::Note;

fn chars(s: &str) -> Vec<char> {
    s.chars().collect()
}

fn regular(start: i32, duration: i32, pitch: i32, text: &str) -> Note {
    Note::Regular { start, duration, pitch, text: String::from(text) }
}

#[test]
fn example_has_one_line_of_two_notes() {
    let text = "#TITLE:Song\n#ARTIST:Artist\n#MP3:song.mp3\n#BPM:100\n: 0 4 60 Hel\n: 4 4 62 lo\nE";
    assert_eq!(
        parse_txt_lines_str(text),
        Ok(vec![Line {
            start: 0,
            rel: None,
            notes: vec![regular(0, 4, 60, "Hel"), regular(4, 4, 62, "lo")],
        }])
    );
}

#[test]
fn notes_without_end_mark_are_no_lyrics() {
    assert_eq!(
        parse_txt_lines_str(": 0 4 60 Hel\n: 4 4 62 lo\n"),
        Err(Error::MissingEndIndicator)
    );
    assert_eq!(parse_txt_lines_str(""), Err(Error::MissingEndIndicator));
    assert_eq!(parse_txt_lines_str("#TITLE:Song\n"), Err(Error::MissingEndIndicator));
    assert_eq!(parse_txt_lines_str("- 4\n: 4 4 60 hel"), Err(Error::MissingEndIndicator));
}

#[test]
fn line_break_with_one_number_has_no_second_offset() {
    let lines = parse_txt_lines_str("- 4\n: 4 4 60 hel\nE").unwrap();
    assert_eq!(lines.len(), 2);
    assert_eq!(lines[0], Line { start: 0, rel: None, notes: vec![] });
    assert_eq!(lines[1], Line { start: 4, rel: None, notes: vec![regular(4, 4, 60, "hel")] });
}

#[test]
fn line_break_with_two_numbers_has_a_second_offset() {
    let lines = parse_txt_lines_str("- 4 2\n: 4 4 60 hel\nE").unwrap();
    assert_eq!(lines.len(), 2);
    assert_eq!(lines[0], Line { start: 0, rel: None, notes: vec![] });
    assert_eq!(lines[1], Line { start: 4, rel: Some(2), notes: vec![regular(4, 4, 60, "hel")] });
}

#[test]
fn one_number_form_is_tried_before_the_two_number_form() {
    assert_eq!(read_line(&chars("- 4"), 1), Step::Break { start: 4, rel: None });
    assert_eq!(read_line(&chars("- 4  "), 1), Step::Break { start: 4, rel: None });
    assert_eq!(read_line(&chars("-4"), 1), Step::Break { start: 4, rel: None });
    assert_eq!(read_line(&chars("--4"), 1), Step::Break { start: -4, rel: None });
    assert_eq!(read_line(&chars("- 4 2"), 1), Step::Break { start: 4, rel: Some(2) });
    assert_eq!(read_line(&chars("- 4 -2 and more"), 1), Step::Break { start: 4, rel: Some(-2) });
    assert_eq!(read_line(&chars("- 4\t2"), 1), Step::Break { start: 4, rel: Some(2) });
    assert_eq!(read_line(&chars("-  4"), 7), Step::Fail(Error::ParserFailure { line: 7 }));
    assert_eq!(read_line(&chars("- 4 x"), 7), Step::Fail(Error::ParserFailure { line: 7 }));
    assert_eq!(read_line(&chars("-"), 7), Step::Fail(Error::ParserFailure { line: 7 }));
}

#[test]
fn negative_duration_is_refused() {
    assert_eq!(
        parse_txt_lines_str(": 0 -1 60 la\nE"),
        Err(Error::ValueError { line: 1, field: "note duration" })
    );
    assert_eq!(
        parse_txt_lines_str(": 0 4 60 la\n* 4 -1 60 la\nE"),
        Err(Error::ValueError { line: 2, field: "note duration" })
    );
    assert_eq!(
        parse_txt_lines_str(": 0 0 60 la\nE"),
        Ok(vec![Line { start: 0, rel: None, notes: vec![regular(0, 0, 60, "la")] }])
    );
}

#[test]
fn performer_is_the_first_the_second_or_the_third() {
    assert_eq!(
        parse_txt_lines_str("P4\nE"),
        Err(Error::ValueError { line: 1, field: "player change" })
    );
    assert_eq!(
        parse_txt_lines_str("P0\nE"),
        Err(Error::ValueError { line: 1, field: "player change" })
    );
    assert_eq!(
        parse_txt_lines_str("P-1\nE"),
        Err(Error::ValueError { line: 1, field: "player change" })
    );
    assert_eq!(
        parse_txt_lines_str("P99999999999\nE"),
        Err(Error::ValueError { line: 1, field: "player change" })
    );
    assert_eq!(
        parse_txt_lines_str(": 0 4 60 la\nP2\n: 4 4 60 li\nE"),
        Ok(vec![Line {
            start: 0,
            rel: None,
            notes: vec![
                regular(0, 4, 60, "la"),
                Note::PlayerChange { player: 2 },
                regular(4, 4, 60, "li"),
            ],
        }])
    );
    assert_eq!(read_line(&chars("P 1"), 1), Step::Add(Note::PlayerChange { player: 1 }));
    assert_eq!(read_line(&chars("P3 and more"), 1), Step::Add(Note::PlayerChange { player: 3 }));
    assert_eq!(read_line(&chars("P"), 3), Step::Fail(Error::ParserFailure { line: 3 }));
    assert_eq!(read_line(&chars("P  1"), 3), Step::Fail(Error::ParserFailure { line: 3 }));
}

#[test]
fn each_kind_of_note_has_its_sign() {
    assert_eq!(
        read_line(&chars(": 1 2 3 a"), 1),
        Step::Add(Note::Regular { start: 1, duration: 2, pitch: 3, text: String::from("a") })
    );
    assert_eq!(
        read_line(&chars("* 1 2 3 a"), 1),
        Step::Add(Note::Golden { start: 1, duration: 2, pitch: 3, text: String::from("a") })
    );
    assert_eq!(
        read_line(&chars("F 1 2 3 a"), 1),
        Step::Add(Note::Freestyle { start: 1, duration: 2, pitch: 3, text: String::from("a") })
    );
    assert_eq!(read_line(&chars("R 1 2 3 a"), 9), Step::Fail(Error::UnknownNoteType { line: 9 }));
    assert_eq!(read_line(&chars("- 1 2 3 a"), 9), Step::Fail(Error::UnknownNoteType { line: 9 }));
    assert_eq!(read_line(&chars("P 1 2 3"), 9), Step::Fail(Error::UnknownNoteType { line: 9 }));
    assert_eq!(read_line(&chars("f 1 2 3 a"), 9), Step::Fail(Error::UnknownNoteType { line: 9 }));
}

#[test]
fn note_text_keeps_its_blanks() {
    assert_eq!(read_line(&chars(": 1 2 3"), 1), Step::Add(regular(1, 2, 3, "")));
    assert_eq!(read_line(&chars(": 1 2 3 "), 1), Step::Add(regular(1, 2, 3, "")));
    assert_eq!(read_line(&chars(": 1 2 3  a "), 1), Step::Add(regular(1, 2, 3, " a ")));
    assert_eq!(read_line(&chars(": 1 2 3~"), 1), Step::Add(regular(1, 2, 3, "~")));
    assert_eq!(read_line(&chars(":1  2\t-3 4 x"), 1), Step::Add(regular(1, 2, -3, "4 x")));
    assert_eq!(read_line(&chars(": -10 2 -3 \u{e9}t\u{e9}"), 1), Step::Add(regular(-10, 2, -3, "\u{e9}t\u{e9}")));
    assert_eq!(read_line(&chars(":\u{a0}1\u{2003}2\u{3000}3\u{a0}a"), 1), Step::Add(regular(1, 2, 3, "a")));
}

#[test]
fn numbers_that_do_not_fit_name_their_field() {
    assert_eq!(
        read_line(&chars(": 2147483648 2 3 a"), 4),
        Step::Fail(Error::ValueError { line: 4, field: "note start" })
    );
    assert_eq!(
        read_line(&chars(": 1 2147483648 3 a"), 4),
        Step::Fail(Error::ValueError { line: 4, field: "note duration" })
    );
    assert_eq!(
        read_line(&chars(": 1 2 -2147483649 a"), 4),
        Step::Fail(Error::ValueError { line: 4, field: "note pitch" })
    );
    assert_eq!(
        read_line(&chars("R 99999999999 2 3 a"), 4),
        Step::Fail(Error::ValueError { line: 4, field: "note start" })
    );
    assert_eq!(
        read_line(&chars(": 1 -2 99999999999 a"), 4),
        Step::Fail(Error::ValueError { line: 4, field: "note duration" })
    );
    assert_eq!(
        read_line(&chars("- 2147483648"), 4),
        Step::Fail(Error::ValueError { line: 4, field: "line start" })
    );
    assert_eq!(
        read_line(&chars("- 2147483648 1"), 4),
        Step::Fail(Error::ValueError { line: 4, field: "line start" })
    );
    assert_eq!(
        read_line(&chars("- 1 2147483648"), 4),
        Step::Fail(Error::ValueError { line: 4, field: "line rel" })
    );
    assert_eq!(
        read_line(&chars(": -2147483648 2147483647 0 a"), 4),
        Step::Add(regular(i32::MIN, i32::MAX, 0, "a"))
    );
}

#[test]
fn empty_line_is_a_failure() {
    assert_eq!(
        parse_txt_lines_str(": 0 4 60 la\n\n: 4 4 60 li\nE"),
        Err(Error::ParserFailure { line: 2 })
    );
    assert_eq!(parse_txt_lines_str("\nE"), Err(Error::ParserFailure { line: 1 }));
    assert_eq!(parse_txt_lines_str("\r\nE"), Err(Error::ParserFailure { line: 1 }));
}

#[test]
fn header_lines_are_passed_over() {
    assert_eq!(
        parse_txt_lines_str("#TITLE:x\n: 0 4 60 la\n#anything at all\n#\n: 4 4 60 li\nE"),
        Ok(vec![Line {
            start: 0,
            rel: None,
            notes: vec![regular(0, 4, 60, "la"), regular(4, 4, 60, "li")],
        }])
    );
}

#[test]
fn change_of_tempo_is_not_supported() {
    assert_eq!(
        parse_txt_lines_str(": 0 4 60 la\nB 16 300\nE"),
        Err(Error::NotImplemented { line: 2, feature: "variable bpm" })
    );
    assert_eq!(
        read_line(&chars("B"), 5),
        Step::Fail(Error::NotImplemented { line: 5, feature: "variable bpm" })
    );
    assert_eq!(
        read_line(&chars("B 1 2 3 text"), 5),
        Step::Fail(Error::NotImplemented { line: 5, feature: "variable bpm" })
    );
}

#[test]
fn nothing_after_the_end_mark_is_read() {
    assert_eq!(
        parse_txt_lines_str(": 0 4 60 la\nE\n\nnonsense\nB\n: x"),
        Ok(vec![Line { start: 0, rel: None, notes: vec![regular(0, 4, 60, "la")] }])
    );
    assert_eq!(
        parse_txt_lines_str("End of song"),
        Ok(vec![Line { start: 0, rel: None, notes: vec![] }])
    );
    assert_eq!(read_line(&chars("E"), 1), Step::End);
    assert_eq!(read_line(&chars("E 1 2 3 text"), 1), Step::End);
    assert_eq!(read_line(&chars("#E"), 1), Step::Skip);
}

#[test]
fn line_of_no_form_is_a_failure() {
    for line in ["hello", " : 0 4 60 la", ": 0 4 la", ": a 4 60 la", ":0 4", "e", "p1", "- x"] {
        let text = format!(": 0 1 2 a\n{}\nE", line);
        assert_eq!(parse_txt_lines_str(&text), Err(Error::ParserFailure { line: 2 }), "{:?}", line);
    }
}

#[test]
fn lines_are_made_at_line_breaks() {
    let text = ": 0 2 10 a\n* 2 2 11 b\n- 8\nF 8 2 12 c\n- 16 4\n- 0\nP1\n: 20 1 0 d\nE\n";
    assert_eq!(
        parse_txt_lines_str(text),
        Ok(vec![
            Line {
                start: 0,
                rel: None,
                notes: vec![
                    regular(0, 2, 10, "a"),
                    Note::Golden { start: 2, duration: 2, pitch: 11, text: String::from("b") },
                ],
            },
            Line {
                start: 8,
                rel: None,
                notes: vec![Note::Freestyle {
                    start: 8,
                    duration: 2,
                    pitch: 12,
                    text: String::from("c"),
                }],
            },
            Line { start: 16, rel: Some(4), notes: vec![] },
            Line {
                start: 0,
                rel: None,
                notes: vec![Note::PlayerChange { player: 1 }, regular(20, 1, 0, "d")],
            },
        ])
    );
}

#[test]
fn carriage_returns_before_line_feeds_are_dropped() {
    assert_eq!(
        parse_txt_lines_str(": 0 4 60 la\r\n- 4\r\n: 4 4 60 li\r\nE\r\n"),
        Ok(vec![
            Line { start: 0, rel: None, notes: vec![regular(0, 4, 60, "la")] },
            Line { start: 4, rel: None, notes: vec![regular(4, 4, 60, "li")] },
        ])
    );
}

#[test]
fn error_carries_the_number_of_its_line() {
    let text = "#TITLE:x\n#ARTIST:y\n: 0 4 60 la\n- 4\n: 4 4 60 li\n? 1 2 3 x\nE";
    assert_eq!(parse_txt_lines_str(text), Err(Error::UnknownNoteType { line: 6 }));
}
