use ultrastar_txt::numeral::float_literal;
use ultrastar_txt::numeral::parse_i32;
use ultrastar_txt::numeral::parse_u32;
use ultrastar_txt::numeral::push_decimal;
use ultrastar_txt::numeral::push_signed;
use ultrastar_txt::text::chars_of;
use ultrastar_txt::text::digit;
use ultrastar_txt::text::of_class;
use ultrastar_txt::text::push_range;
use ultrastar_txt::text::push_str;
use ultrastar_txt::text::skip_run;
use ultrastar_txt::text::space;
use ultrastar_txt::text::split_lines;
use ultrastar_txt::text::string_of;
use ultrastar_txt::text::Class;

fn chars(s: &str) -> Vec<char> {
    s.chars().collect()
}

const SAMPLES: [&str; 40] = [
    "", "0", "00", "7", "-7", "+7", "--7", "+-7", "-", "+", "12a", "a12", " 12", "12 ", "1.5", "1,5",
    "2147483647", "2147483648", "-2147483648", "-2147483649", "4294967295", "4294967296",
    "00000000000000000000000000000000000001", "99999999999999999999999999999999999999",
    "-00000000000000000000000000000002147483648", "1e3", "1E3", "1e+3", "1e-3", "1e", "e3", ".5",
    "5.", ".", "inf", "INF", "Infinity", "-nan", "infinit", "\u{663}",
];

#[test]
fn signed_integers_are_read_as_the_standard_library_reads_them() {
    for sample in SAMPLES {
        assert_eq!(parse_i32(&chars(sample)), sample.parse::<i32>().ok(), "{:?}", sample);
    }
    assert_eq!(parse_i32(&chars("-12")), Some(-12));
    assert_eq!(parse_i32(&chars("2147483647")), Some(i32::MAX));
    assert_eq!(parse_i32(&chars("-2147483648")), Some(i32::MIN));
    assert_eq!(parse_i32(&chars("2147483648")), None);
}

#[test]
fn unsigned_integers_are_read_as_the_standard_library_reads_them() {
    for sample in SAMPLES {
        assert_eq!(parse_u32(&chars(sample)), sample.parse::<u32>().ok(), "{:?}", sample);
    }
    assert_eq!(parse_u32(&chars("4294967295")), Some(u32::MAX));
    assert_eq!(parse_u32(&chars("-0")), None);
}

#[test]
fn literals_are_those_that_read_as_floating_point_numbers() {
    for sample in SAMPLES {
        assert_eq!(float_literal(&chars(sample)), sample.parse::<f32>().is_ok(), "{:?}", sample);
        assert_eq!(float_literal(&chars(sample)), sample.parse::<f64>().is_ok(), "{:?}", sample);
    }
    for sample in [
        "1.e5", "1.5e5", ".5e5", ".e5", "1e5.", "1e5e5", "1.5.5", "+inf", "-INFINITY", "+NaN", "iNf",
        "nan ", "in", "infinityy", "1e+", "1e-", "1e+-1", "+.5", "-5.", "+.", "0x1p3", "1f32", "١",
        "1e٣", "ＮaＮ", "İnf", "1\u{0}", "\u{feff}1",
    ] {
        assert_eq!(float_literal(&chars(sample)), sample.parse::<f32>().is_ok(), "{:?}", sample);
    }
}

#[test]
fn integers_are_written_as_the_standard_library_writes_them() {
    for value in [0u64, 1, 9, 10, 11, 99, 100, 12345, 4294967295, 4294967296, u64::MAX] {
        let mut out = vec!['>'];
        push_decimal(&mut out, value);
        assert_eq!(out.iter().collect::<String>(), format!(">{}", value));
    }
    for value in [0i32, 1, -1, 9, -9, 10, -10, 60, 2147483647, -2147483647, i32::MIN, i32::MAX] {
        let mut out = vec!['>'];
        push_signed(&mut out, value);
        assert_eq!(out.iter().collect::<String>(), format!(">{}", value));
        assert_eq!(parse_i32(&out[1..]), Some(value));
    }
}

#[test]
fn white_space_is_what_the_standard_library_calls_so() {
    for code in 0..=0x10ffffu32 {
        if let Some(c) = char::from_u32(code) {
            assert_eq!(space(c), c.is_whitespace(), "{:x}", code);
            assert_eq!(digit(c), c.is_ascii_digit(), "{:x}", code);
            assert_eq!(of_class(c, Class::Space), c.is_whitespace());
            assert_eq!(of_class(c, Class::Digit), c.is_ascii_digit());
            assert_eq!(of_class(c, Class::Name), c.is_ascii_alphabetic() || c == '3');
        }
    }
}

#[test]
fn runs_end_at_the_first_character_of_another_class() {
    let line = chars("12  ab3cd 9");
    assert_eq!(skip_run(&line, 0, Class::Digit), 2);
    assert_eq!(skip_run(&line, 2, Class::Digit), 2);
    assert_eq!(skip_run(&line, 2, Class::Space), 4);
    assert_eq!(skip_run(&line, 4, Class::Name), 9);
    assert_eq!(skip_run(&line, 10, Class::Digit), 11);
    assert_eq!(skip_run(&line, 11, Class::Digit), 11);
}

#[test]
fn lines_are_those_of_the_standard_library() {
    for text in [
        "", "a", "a\n", "a\nb", "a\n\nb", "\n", "\n\n", "a\r\nb", "a\r", "a\r\n", "a\r\r\n", "\r\n",
        "\r", "a\n\r", "a\rb\nc", "a\n\r\nb\r\n\r\n", "\u{e9}\u{2028}x\n\u{85}y", "x\n\n\n",
        "#TITLE:Song\r\n#ARTIST:Artist\r\n: 0 4 60 Hel\r\nE\r\n",
    ] {
        let lines: Vec<String> = split_lines(text).iter().map(|l| l.iter().collect()).collect();
        let expected: Vec<String> = text.lines().map(String::from).collect();
        assert_eq!(lines, expected, "{:?}", text);
    }
    assert_eq!(split_lines("a\r\nb\r"), vec![vec!['a'], vec!['b', '\r']]);
}

#[test]
fn strings_and_characters_turn_into_each_other() {
    assert_eq!(chars_of("h\u{e9}\u{1f600}"), vec!['h', '\u{e9}', '\u{1f600}']);
    assert_eq!(chars_of(""), Vec::<char>::new());
    assert_eq!(string_of(&['h', '\u{e9}', '\u{1f600}']), "h\u{e9}\u{1f600}");
    assert_eq!(string_of(&[]), "");
    let mut out = vec!['a'];
    push_str(&mut out, "bc");
    push_range(&mut out, &['x', 'd', 'e', 'y'], 1, 3);
    push_range(&mut out, &['x'], 1, 1);
    push_str(&mut out, "");
    assert_eq!(out, vec!['a', 'b', 'c', 'd', 'e']);
}
