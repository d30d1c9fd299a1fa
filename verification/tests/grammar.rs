use regex::Regex;
use ultrastar_txt::grammar::read_break;
use ultrastar_txt::grammar::read_note;
use ultrastar_txt::grammar::read_player;
use ultrastar_txt::grammar::read_relative_break;
use ultrastar_txt::grammar::read_tag;
use ultrastar_txt::grammar::skip_int;
use ultrastar_txt::grammar::skip_space;
use ultrastar_txt::grammar::NoteSpans;
use ultrastar_txt::grammar::Span;

fn part(line: &[char], span: Span) -> String {
    line[span.from..span.to].iter().collect()
}

/// Every sequence of at most `longest` characters of `alphabet`.
fn words(alphabet: &[char], longest: usize) -> Vec<Vec<char>> {
    let mut all: Vec<Vec<char>> = vec![vec![]];
    let mut last: Vec<Vec<char>> = vec![vec![]];
    for _ in 0..longest {
        let mut next = Vec::new();
        for word in &last {
            for c in alphabet {
                let mut longer = word.clone();
                longer.push(*c);
                next.push(longer);
            }
        }
        all.extend(next.iter().cloned());
        last = next;
    }
    all
}

const LINES: [&str; 60] = [
    "", "#", "#:", "#TITLE:Song", "#TITLE:", "#title:x", "#MP3:a#b:c", "x#A:b", "#A B:c", "#A:B#C:D",
    "#!#A:b", "##A:b", "#A3z:\u{e9}", "#\u{c4}:x", "#A:\rb", "#A :b", "# A:b", "#A:: ", "a:b", ":#:",
    ": 0 4 60 Hel", ": 0 4 60 ", ": 0 4 60", ":0 4 60", ": 0 4 60  x", ":  0  4  60  x", ": -1 -2 -3 -4",
    ": --1 2 3 x", ": 1 2 3x", ": 1 2 3-4", ": 1 2 -x", "* 1 2 3 #A:b", "F\t1\r2\u{a0}3\u{2003}x",
    ": 1\u{200b}2 3 x", "\u{e9} 1 2 3 \u{e9}", ": \u{661} 2 3 x", "  1 2 3 x", " 1 2 3", "1 2 3 4", "12 3 4",
    "- 4", "-4", "- -4", "--4", "---4", "- 4 ", "-\t4\u{3000}\r", "-  4", "- 4 2", "- 4  2", "- 4 2 1",
    "- 4 2x", "- 4x", "-4-2", "P1", "P 2", "P  3", "P-1", "P1x", "P 1 2 3 x",
];

#[test]
fn header_tag_is_what_the_pattern_finds() {
    let pattern = Regex::new(r"#([A-Z3a-z]*):(.*)").unwrap();
    let mut lines = words(&['#', 'A', 'z', '3', ':', ' ', '4'], 5);
    lines.extend(LINES.iter().map(|l| l.chars().collect()));
    for line in &lines {
        let text: String = line.iter().collect();
        let found = read_tag(line).map(|(key, value)| (part(line, key), part(line, value)));
        let expected = pattern
            .captures(&text)
            .map(|c| (String::from(c.get(1).unwrap().as_str()), String::from(c.get(2).unwrap().as_str())));
        assert_eq!(found, expected, "{:?}", text);
    }
}

#[test]
fn note_is_what_the_pattern_finds() {
    let pattern = Regex::new("^(.)\\s*(-?[0-9]+)\\s+(-?[0-9]+)\\s+(-?[0-9]+)\\s?(.*)").unwrap();
    let mut lines = words(&[':', ' ', '1', '-', 'a'], 7);
    lines.extend(words(&['F', '\u{2003}', '0', '-', '\r', '#'], 6));
    lines.extend(LINES.iter().map(|l| l.chars().collect()));
    for line in &lines {
        let text: String = line.iter().collect();
        let found = read_note(line).map(|parts: NoteSpans| {
            (
                line[0].to_string(),
                part(line, parts.start),
                part(line, parts.duration),
                part(line, parts.pitch),
                part(line, parts.text),
            )
        });
        let expected = pattern.captures(&text).map(|c| {
            (
                String::from(c.get(1).unwrap().as_str()),
                String::from(c.get(2).unwrap().as_str()),
                String::from(c.get(3).unwrap().as_str()),
                String::from(c.get(4).unwrap().as_str()),
                String::from(c.get(5).unwrap().as_str()),
            )
        });
        assert_eq!(found, expected, "{:?}", text);
    }
}

#[test]
fn line_break_with_one_number_is_what_the_pattern_finds() {
    let pattern = Regex::new("^-\\s?(-?[0-9]+)\\s*$").unwrap();
    let mut lines = words(&['-', ' ', '4', '2', 'x', '\t'], 6);
    lines.extend(LINES.iter().map(|l| l.chars().collect()));
    for line in &lines {
        let text: String = line.iter().collect();
        let found = read_break(line).map(|start| part(line, start));
        let expected = pattern.captures(&text).map(|c| String::from(c.get(1).unwrap().as_str()));
        assert_eq!(found, expected, "{:?}", text);
        assert_eq!(found.is_some(), pattern.is_match(&text));
    }
}

#[test]
fn line_break_with_two_numbers_is_what_the_pattern_finds() {
    let pattern = Regex::new("^-\\s?(-?[0-9]+)\\s+(-?[0-9]+)").unwrap();
    let mut lines = words(&['-', ' ', '4', '2', 'x', '\t'], 6);
    lines.extend(LINES.iter().map(|l| l.chars().collect()));
    for line in &lines {
        let text: String = line.iter().collect();
        let found = read_relative_break(line).map(|(start, rel)| (part(line, start), part(line, rel)));
        let expected = pattern
            .captures(&text)
            .map(|c| (String::from(c.get(1).unwrap().as_str()), String::from(c.get(2).unwrap().as_str())));
        assert_eq!(found, expected, "{:?}", text);
    }
}

#[test]
fn change_of_performer_is_what_the_pattern_finds() {
    let pattern = Regex::new("^P\\s?(-?[0-9]+)").unwrap();
    let mut lines = words(&['P', ' ', '1', '-', 'x', 'p'], 6);
    lines.extend(LINES.iter().map(|l| l.chars().collect()));
    for line in &lines {
        let text: String = line.iter().collect();
        let found = read_player(line).map(|player| part(line, player));
        let expected = pattern.captures(&text).map(|c| String::from(c.get(1).unwrap().as_str()));
        assert_eq!(found, expected, "{:?}", text);
    }
}

#[test]
fn number_is_a_minus_sign_and_digits() {
    let line: Vec<char> = "-12 7 - -x 00".chars().collect();
    assert_eq!(skip_int(&line, 0), 3);
    assert_eq!(skip_int(&line, 1), 3);
    assert_eq!(skip_int(&line, 3), 3);
    assert_eq!(skip_int(&line, 4), 5);
    assert_eq!(skip_int(&line, 6), 6);
    assert_eq!(skip_int(&line, 8), 8);
    assert_eq!(skip_int(&line, 11), 13);
    assert_eq!(skip_int(&line, 13), 13);
    assert_eq!(skip_space(&line, 3), 4);
    assert_eq!(skip_space(&line, 4), 4);
    assert_eq!(skip_space(&line, 13), 13);
    let span = Span { from: 4, to: 5 };
    assert_eq!(span.slice(&line), &['7']);
    assert_eq!(span.string(&line), "7");
}
