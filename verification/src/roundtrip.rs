//! Writing a song and reading the text again gives the song back.

use crate::generator::break_lines;
use crate::generator::field_lines;
use crate::generator::field_text;
use crate::generator::header_lines;
use crate::generator::known_lines;
use crate::generator::lemma_unlines_add;
use crate::generator::lemma_unlines_push;
use crate::generator::line_lines;
use crate::generator::lyrics_lines;
use crate::generator::note_text;
use crate::generator::song_text;
use crate::generator::tag_order;
use crate::generator::tag_text;
use crate::generator::timed_text;
use crate::generator::unknown_lines;
use crate::generator::unlines;
use crate::grammar::after_int;
use crate::grammar::after_run;
use crate::grammar::after_space;
use crate::grammar::match_break;
use crate::grammar::match_note;
use crate::grammar::match_player;
use crate::grammar::match_relative_break;
use crate::grammar::match_tag;
use crate::grammar::NoteLine;
use crate::grammar::tag_here;
use crate::grammar::tag_offset;
use crate::grammar::TagLine;
use crate::numeral::decimal;
use crate::numeral::is_float_literal;
use crate::numeral::lemma_decimal;
use crate::numeral::lemma_decimal_reads;
use crate::numeral::lemma_float_literal_chars;
use crate::numeral::lemma_signed_decimal_reads;
use crate::numeral::lower;
use crate::numeral::signed_decimal;
use crate::numeral::spells;
use crate::parser::decomma;
use crate::parser::DraftView;
use crate::parser::Error;
use crate::parser::first_line;
use crate::parser::has_key;
use crate::parser::header_of;
use crate::parser::header_scan;
use crate::parser::line_step;
use crate::parser::lines_scan;
use crate::parser::lyrics_of;
use crate::parser::StepView;
use crate::parser::Tag;
use crate::parser::tag_of;
use crate::parser::truth_of;
use crate::parser::with_note;
use crate::structs::HeaderView;
use crate::structs::lines_wf;
use crate::structs::LineView;
use crate::structs::NoteView;
use crate::text::belongs;
use crate::text::chomp;
use crate::text::Class;
use crate::text::is_digit;
use crate::text::is_name_char;
use crate::text::is_space;
use crate::text::lemma_line_len;
use crate::text::lemma_run;
use crate::text::line_len;
use crate::text::lines_of;
use vstd::prelude::*;

verus! {

/// What a text gives back as one line: a sequence of characters with no line
/// feed in it and no carriage return at its end.
pub open spec fn is_line(line: Seq<char>) -> bool {
    &&& forall|i: int| 0 <= i < line.len() ==> line[i] != '\n'
    &&& line.len() > 0 ==> line.last() != '\r'
}

/// What a tag gives back as its value: a line that is not empty.
pub open spec fn is_value(value: Seq<char>) -> bool {
    value.len() > 0 && is_line(value)
}

/// What a header line gives back as the name of its tag: name characters
/// only.
pub open spec fn is_name(key: Seq<char>) -> bool {
    forall|i: int| 0 <= i < key.len() ==> is_name_char(#[trigger] key[i])
}

/// An optional text is absent or a value.
pub open spec fn value_or_none(o: Option<Seq<char>>) -> bool {
    o matches Some(v) ==> is_value(v)
}

/// An optional number is absent or a literal of a floating-point number.
pub open spec fn number_or_none(o: Option<Seq<char>>) -> bool {
    o matches Some(v) ==> is_float_literal(v)
}

/// The tags without a field of their own are given back: there is at least
/// one, each has a name that belongs to no field, and a value; no name
/// occurs twice.
pub open spec fn unknown_writable(pairs: Seq<(Seq<char>, Seq<char>)>) -> bool {
    &&& pairs.len() > 0
    &&& forall|i: int|
        0 <= i < pairs.len() ==> is_name((#[trigger] pairs[i]).0) && tag_of(pairs[i].0)
            == Tag::Unknown && is_value(pairs[i].1)
    &&& forall|i: int, j: int|
        0 <= i < j < pairs.len() ==> (#[trigger] pairs[i]).0 != (#[trigger] pairs[j]).0
}

/// The header is one that its text gives back: every text in it is a value,
/// every number a literal, and the tags without a field of their own are as
/// `unknown_writable` says.
pub open spec fn header_writable(header: HeaderView) -> bool {
    &&& is_value(header.title)
    &&& is_value(header.artist)
    &&& is_value(header.audio_path)
    &&& is_float_literal(header.bpm)
    &&& number_or_none(header.gap)
    &&& value_or_none(header.cover_path)
    &&& value_or_none(header.background_path)
    &&& value_or_none(header.video_path)
    &&& number_or_none(header.video_gap)
    &&& value_or_none(header.genre)
    &&& value_or_none(header.edition)
    &&& value_or_none(header.language)
    &&& header.unknown matches Some(pairs) ==> unknown_writable(pairs)
}

/// A note is one that its line gives back: it is well formed, and its text
/// holds no line feed and ends with no carriage return.
pub open spec fn note_writable(note: NoteView) -> bool {
    &&& note.wf()
    &&& match note {
        NoteView::Regular { text, .. } => is_line(text),
        NoteView::Golden { text, .. } => is_line(text),
        NoteView::Freestyle { text, .. } => is_line(text),
        NoteView::PlayerChange { .. } => true,
    }
}

/// The lyrics are such that their text gives them back: the lines are well
/// formed and each note is writable.
pub open spec fn lyrics_writable(lines: Seq<LineView>) -> bool {
    &&& lines_wf(lines)
    &&& forall|i: int, j: int|
        0 <= i < lines.len() && 0 <= j < lines[i].notes.len() ==> note_writable(
            #[trigger] lines[i].notes[j],
        )
}

/// From the `i`-th line on, the lines that hold a tag hold one without a
/// value, up to the first line that holds none.
pub open spec fn tags_inert(lines: Seq<Seq<char>>, i: int) -> bool
    decreases lines.len() - i,
{
    if 0 <= i < lines.len() {
        match match_tag(lines[i]) {
            None => true,
            Some(tag) => tag.value.len() == 0 && tags_inert(lines, i + 1),
        }
    } else {
        true
    }
}

/// Writing a song and reading the text again gives the song back: its header
/// and its lines, each equal to what was written.
///
/// This holds of a header and of lyrics that are writable, and where the
/// lines of the lyrics do not go on as a header: as the header is read up
/// to the first line that holds no tag, a line of the lyrics that holds one
/// holds one without a value.
pub proof fn lemma_round_trip(header: HeaderView, lines: Seq<LineView>)
    requires
        header_writable(header),
        lyrics_writable(lines),
        tags_inert(lyrics_lines(lines), 0),
    ensures
        header_of(song_text(header, lines)) == Ok::<HeaderView, Error>(header),
        lyrics_of(song_text(header, lines)) == Ok::<Seq<LineView>, Error>(lines),
{
    let head = header_lines(header);
    let body = lyrics_lines(lines);
    let end = seq!['E'];
    let all = head + body + seq![end];
    let from = head.len() as int;
    lemma_header_lines_are_lines(header);
    lemma_lyrics_lines_are_lines(lines);
    assert forall|t: int| 0 <= t < (head + body).len() implies is_line(#[trigger] (head + body)[t]) by {
        if t < head.len() {
            assert((head + body)[t] == head[t]);
        } else {
            assert((head + body)[t] == body[t - head.len()]);
        }
    }
    lemma_lines_of_unlines(head + body, end);
    assert(line_len(end) >= 1) by {
        assert(end[0] != '\n');
    }
    assert(lines_of(end) =~= seq![end]);
    assert(lines_of(song_text(header, lines)) == all);
    assert(ends_with_lyrics(all, from, lines)) by {
        assert forall|t: int| 0 <= t < body.len() implies #[trigger] all[from + t] == body[t] by {}
    }
    assert forall|j: int| 0 <= j < from implies (#[trigger] all[j]).len() > 0 && all[j][0] == '#' by {
        assert(all[j] == head[j]);
    }
    lemma_lyrics_read_back(all, from, lines);

    let known = known_lines(header, 14);
    assert forall|t: int| 0 <= t < known.len() implies #[trigger] all[t] == known[t] by {
        assert(all[t] == head[t]);
    }
    lemma_scan_known(all, header, 0);
    assert(known_draft(header, 0) == DraftView::empty());
    assert(known_lines(header, 0).len() == 0);
    let filled = match header.unknown {
        Some(pairs) => {
            assert forall|t: int| 0 <= t < pairs.len() implies #[trigger] all[known.len() + t]
                == tag_text(pairs[t].0, pairs[t].1) by {
                assert(all[known.len() + t] == head[known.len() + t]);
                assert(head[known.len() + t] == unknown_lines(pairs)[t]);
            }
            lemma_scan_unknown(all, known.len() as int, header, pairs, 0);
            assert(pairs.take(0) =~= Seq::<(Seq<char>, Seq<char>)>::empty());
            assert(pairs.take(pairs.len() as int) =~= pairs);
            full_draft(header, pairs, pairs.len() as int)
        },
        None => known_draft(header, 14),
    };
    assert(header_scan(all, 0, DraftView::empty()) == header_scan(all, from, filled));
    lemma_scan_inert(all, from, lines, 0, filled);
    assert(filled.finish() == Ok::<HeaderView, Error>(header));
}

/// A text made of lines, each ended by a line feed, and of a tail has these
/// lines, and then the lines of the tail.
proof fn lemma_lines_of_unlines(lines: Seq<Seq<char>>, tail: Seq<char>)
    requires
        forall|i: int| 0 <= i < lines.len() ==> is_line(#[trigger] lines[i]),
    ensures
        lines_of(unlines(lines) + tail) == lines + lines_of(tail),
    decreases lines.len(),
{
    if lines.len() == 0 {
        assert(unlines(lines) + tail =~= tail);
        assert(lines + lines_of(tail) =~= lines_of(tail));
    } else {
        let first = lines[0];
        let rest = lines.drop_first();
        let s = unlines(lines) + tail;
        assert(lines =~= seq![first] + rest);
        lemma_unlines_add(seq![first], rest);
        lemma_unlines_push(Seq::empty(), first);
        assert(Seq::<Seq<char>>::empty().push(first) =~= seq![first]);
        assert(unlines(seq![first]) =~= first + seq!['\n']);
        assert(s =~= first + seq!['\n'] + (unlines(rest) + tail));
        assert(is_line(first));
        let n = first.len() as int;
        assert(s[n] == '\n');
        assert forall|i: int| 0 <= i < n implies s[i] != '\n' by {
            assert(s[i] == first[i]);
        }
        lemma_line_len(s, n);
        assert(s.take(n) =~= first);
        assert(chomp(first) == first);
        assert(s.skip(n + 1) =~= unlines(rest) + tail);
        assert forall|i: int| 0 <= i < rest.len() implies is_line(#[trigger] rest[i]) by {
            assert(rest[i] == lines[i + 1]);
        }
        lemma_lines_of_unlines(rest, tail);
        assert(lines_of(s) =~= lines + lines_of(tail));
    }
}

/// The decimal form of an integer begins with a minus sign or a digit, ends
/// with a digit, and holds nothing but these.
proof fn lemma_signed_decimal_chars(v: int)
    ensures
        signed_decimal(v).len() >= 1,
        signed_decimal(v)[0] == '-' || is_digit(signed_decimal(v)[0]),
        is_digit(signed_decimal(v).last()),
        forall|i: int|
            0 <= i < signed_decimal(v).len() ==> (#[trigger] signed_decimal(v)[i] == '-'
                || is_digit(signed_decimal(v)[i])),
{
    lemma_signed_decimal_reads(v);
    let s = signed_decimal(v);
    if v < 0 {
        let d = decimal((-v) as nat);
        lemma_decimal((-v) as nat);
        assert forall|i: int| 0 <= i < s.len() implies (#[trigger] s[i] == '-' || is_digit(
            s[i],
        )) by {
            if i > 0 {
                assert(s[i] == d[i - 1]);
            }
        }
        assert(s.last() == d.last());
    } else {
        lemma_decimal(v as nat);
    }
}

/// Where the decimal form of `v` stands in `line` at `from` and no digit
/// follows it, the number that begins at `from` ends where the form ends.
proof fn lemma_number_here(line: Seq<char>, from: int, v: int)
    requires
        0 <= from,
        from + signed_decimal(v).len() <= line.len(),
        line.subrange(from, from + signed_decimal(v).len()) == signed_decimal(v),
        from + signed_decimal(v).len() == line.len() || !is_digit(
            line[from + signed_decimal(v).len()],
        ),
    ensures
        after_int(line, from) == from + signed_decimal(v).len(),
{
    let token = signed_decimal(v);
    let n = token.len() as int;
    let s = line.skip(from);
    lemma_signed_decimal_reads(v);
    assert forall|i: int| 0 <= i < n implies s[i] == token[i] by {
        assert(line.subrange(from, from + n)[i] == line[from + i]);
    }
    if v < 0 {
        let digits = decimal((-v) as nat);
        lemma_decimal((-v) as nat);
        let t = s.skip(1);
        assert forall|i: int| 0 <= i < n - 1 implies is_digit(t[i]) by {
            assert(t[i] == s[i + 1]);
            assert(token.skip(1)[i] == token[i + 1]);
        }
        lemma_run(t, Class::Digit, n - 1);
        assert(s[0] == '-');
    } else {
        lemma_decimal(v as nat);
        lemma_run(s, Class::Digit, n);
        assert(is_digit(s[0]));
    }
}

/// Where one blank stands in `line` at `from` and no white space follows it,
/// the white space that begins at `from` is this blank.
proof fn lemma_blank_here(line: Seq<char>, from: int)
    requires
        0 <= from < line.len(),
        line[from] == ' ',
        from + 1 == line.len() || !is_space(line[from + 1]),
    ensures
        after_run(line, from, Class::Space) == from + 1,
        after_space(line, from) == from + 1,
{
    let s = line.skip(from);
    assert(s[0] == line[from]);
    lemma_run(s, Class::Space, 1);
}

/// Where no white space stands in `line` at `from`, none begins there.
proof fn lemma_no_blank_here(line: Seq<char>, from: int)
    requires
        0 <= from <= line.len(),
        from == line.len() || !is_space(line[from]),
    ensures
        after_run(line, from, Class::Space) == from,
        after_space(line, from) == from,
{
    let s = line.skip(from);
    lemma_run(s, Class::Space, 0);
}

/// The line that writes a syllable is read as that syllable.
proof fn lemma_timed_text_reads(
    sigil: char,
    start: i32,
    duration: i32,
    pitch: i32,
    text: Seq<char>,
)
    ensures
        match_note(timed_text(sigil, start, duration, pitch, text)) == Some(
            NoteLine {
                sigil,
                start: signed_decimal(start as int),
                duration: signed_decimal(duration as int),
                pitch: signed_decimal(pitch as int),
                text,
            },
        ),
{
    let a = signed_decimal(start as int);
    let b = signed_decimal(duration as int);
    let c = signed_decimal(pitch as int);
    lemma_signed_decimal_chars(start as int);
    lemma_signed_decimal_chars(duration as int);
    lemma_signed_decimal_chars(pitch as int);
    let line = timed_text(sigil, start, duration, pitch, text);
    let p0 = 2int;
    let p1 = p0 + a.len();
    let p2 = p1 + 1;
    let p3 = p2 + b.len();
    let p4 = p3 + 1;
    let p5 = p4 + c.len();
    assert(line.len() == p5 + 1 + text.len());
    assert(line[0] == sigil);
    assert(line[1] == ' ');
    assert(line[p0] == a[0]);
    assert(line[p1] == ' ');
    assert(line[p2] == b[0]);
    assert(line[p3] == ' ');
    assert(line[p4] == c[0]);
    assert(line[p5] == ' ');
    assert(line.subrange(p0, p1) =~= a);
    assert(line.subrange(p2, p3) =~= b);
    assert(line.subrange(p4, p5) =~= c);
    assert(line.skip(p5 + 1) =~= text);
    lemma_blank_here(line, 1);
    lemma_number_here(line, p0, start as int);
    lemma_blank_here(line, p1);
    lemma_number_here(line, p2, duration as int);
    lemma_blank_here(line, p3);
    lemma_number_here(line, p4, pitch as int);
}

/// The line that writes a well-formed note is read as that note.
proof fn lemma_note_text_reads(note: NoteView, number: usize)
    requires
        note.wf(),
    ensures
        line_step(note_text(note), number) == StepView::Add(note),
        note_text(note).len() > 0,
        note_text(note)[0] != '#',
{
    let line = note_text(note);
    match note {
        NoteView::Regular { start, duration, pitch, text } => {
            lemma_timed_text_reads(':', start, duration, pitch, text);
            lemma_signed_decimal_reads(start as int);
            lemma_signed_decimal_reads(duration as int);
            lemma_signed_decimal_reads(pitch as int);
            assert(line[0] == ':');
        },
        NoteView::Golden { start, duration, pitch, text } => {
            lemma_timed_text_reads('*', start, duration, pitch, text);
            lemma_signed_decimal_reads(start as int);
            lemma_signed_decimal_reads(duration as int);
            lemma_signed_decimal_reads(pitch as int);
            assert(line[0] == '*');
        },
        NoteView::Freestyle { start, duration, pitch, text } => {
            lemma_timed_text_reads('F', start, duration, pitch, text);
            lemma_signed_decimal_reads(start as int);
            lemma_signed_decimal_reads(duration as int);
            lemma_signed_decimal_reads(pitch as int);
            assert(line[0] == 'F');
        },
        NoteView::PlayerChange { player } => {
            let digits = signed_decimal(player as int);
            lemma_signed_decimal_chars(player as int);
            lemma_signed_decimal_reads(player as int);
            let n = line.len() as int;
            assert(line[0] == 'P');
            assert(line[1] == digits[0]);
            assert(line.subrange(1, n) =~= digits);
            lemma_no_blank_here(line, 1);
            lemma_number_here(line, 1, player as int);
            lemma_no_blank_here(line, n);
            assert(match_note(line) is None);
            assert(match_break(line) is None);
            assert(match_relative_break(line) is None);
            assert(match_player(line) == Some(digits));
        },
    }
}

/// The line break that introduces a line of the lyrics is read as the
/// beginning of that line.
proof fn lemma_break_reads(line: LineView, number: usize)
    requires
        line.start != 0,
    ensures
        break_lines(line).len() == 1,
        line_step(break_lines(line)[0], number) == (StepView::Break {
            start: line.start,
            rel: line.rel,
        }),
        break_lines(line)[0].len() > 0,
        break_lines(line)[0][0] != '#',
{
    let text = break_lines(line)[0];
    let a = signed_decimal(line.start as int);
    lemma_signed_decimal_chars(line.start as int);
    lemma_signed_decimal_reads(line.start as int);
    let p0 = 2int;
    let p1 = p0 + a.len();
    assert(text[0] == '-');
    assert(text[1] == ' ');
    assert(text[p0] == a[0]);
    assert(text.subrange(p0, p1) =~= a);
    lemma_blank_here(text, 1);
    match line.rel {
        Some(rel) => {
            let b = signed_decimal(rel as int);
            lemma_signed_decimal_chars(rel as int);
            lemma_signed_decimal_reads(rel as int);
            let p2 = p1 + 1;
            let p3 = p2 + b.len();
            assert(text.len() == p3);
            assert(text[p1] == ' ');
            assert(text[p2] == b[0]);
            assert(text.subrange(p2, p3) =~= b);
            lemma_number_here(text, p0, line.start as int);
            lemma_blank_here(text, p1);
            lemma_number_here(text, p2, rel as int);
            lemma_no_blank_here(text, p3);
            assert(match_note(text) is None);
            assert(match_break(text) is None);
            assert(match_relative_break(text) == Some((a, b)));
        },
        None => {
            assert(text.len() == p1);
            lemma_number_here(text, p0, line.start as int);
            lemma_no_blank_here(text, p1);
            assert(match_note(text) is None);
            assert(match_break(text) == Some(a));
        },
    }
}

/// The lines that write two runs of lyrics are those of the first, then
/// those of the second.
proof fn lemma_lyrics_lines_add(a: Seq<LineView>, b: Seq<LineView>)
    ensures
        lyrics_lines(a + b) == lyrics_lines(a) + lyrics_lines(b),
    decreases b.len(),
{
    if b.len() == 0 {
        assert(a + b =~= a);
        assert(lyrics_lines(a) + lyrics_lines(b) =~= lyrics_lines(a));
    } else {
        assert((a + b).drop_last() =~= a + b.drop_last());
        lemma_lyrics_lines_add(a, b.drop_last());
        assert(lyrics_lines(a + b) =~= lyrics_lines(a) + lyrics_lines(b));
    }
}

/// The lines that write the lyrics are those of the first `i` lines, those
/// of the next line, and those of the rest.
proof fn lemma_lyrics_lines_split(lines: Seq<LineView>, i: int)
    requires
        0 <= i < lines.len(),
    ensures
        lyrics_lines(lines) == lyrics_lines(lines.take(i)) + line_lines(lines[i]) + lyrics_lines(
            lines.skip(i + 1),
        ),
        lyrics_lines(lines.take(i + 1)) == lyrics_lines(lines.take(i)) + line_lines(lines[i]),
{
    let one = seq![lines[i]];
    assert(one.drop_last() =~= Seq::<LineView>::empty());
    assert(lyrics_lines(Seq::<LineView>::empty()) =~= Seq::<Seq<char>>::empty());
    assert(one.last() == lines[i]);
    assert(lyrics_lines(one) =~= lyrics_lines(one.drop_last()) + line_lines(one.last()));
    assert(lyrics_lines(one) =~= line_lines(lines[i]));
    assert(lines.take(i + 1) =~= lines.take(i) + one);
    lemma_lyrics_lines_add(lines.take(i), one);
    assert(lines =~= lines.take(i + 1) + lines.skip(i + 1));
    lemma_lyrics_lines_add(lines.take(i + 1), lines.skip(i + 1));
}

/// Lines that begin with a number sign change nothing in the reading of the
/// lyrics.
proof fn lemma_scan_skips(
    all: Seq<Seq<char>>,
    i: int,
    k: int,
    done: Seq<LineView>,
    current: LineView,
)
    requires
        0 <= i <= k <= all.len(),
        forall|j: int| i <= j < k ==> (#[trigger] all[j]).len() > 0 && all[j][0] == '#',
    ensures
        lines_scan(all, i, done, current) == lines_scan(all, k, done, current),
    decreases k - i,
{
    if i < k {
        assert(all[i].len() > 0 && all[i][0] == '#');
        lemma_scan_skips(all, i + 1, k, done, current);
    }
}

/// Reading the lines that write the notes of a line adds these notes to the
/// line in the making.
proof fn lemma_scan_notes(
    all: Seq<Seq<char>>,
    at: int,
    line: LineView,
    j: int,
    done: Seq<LineView>,
)
    requires
        0 <= at,
        at + line.notes.len() <= all.len(),
        0 <= j <= line.notes.len(),
        line.wf(),
        forall|t: int| 0 <= t < line.notes.len() ==> #[trigger] all[at + t] == note_text(line.notes[t]),
    ensures
        lines_scan(all, at + j, done, LineView { notes: line.notes.take(j), ..line }) == lines_scan(
            all,
            at + line.notes.len(),
            done,
            line,
        ),
    decreases line.notes.len() - j,
{
    let current = LineView { notes: line.notes.take(j), ..line };
    if j < line.notes.len() {
        let note = line.notes[j];
        assert(note.wf());
        assert(all[at + j] == note_text(note));
        lemma_note_text_reads(note, (at + j + 1) as usize);
        assert(with_note(current, note).notes =~= line.notes.take(j + 1));
        lemma_scan_notes(all, at, line, j + 1, done);
    } else {
        assert(line.notes.take(j) =~= line.notes);
    }
}

/// Reading the lines that write a line of the lyrics which a line break
/// introduces completes the line in the making and leaves this line in its
/// place.
proof fn lemma_scan_line(
    all: Seq<Seq<char>>,
    at: int,
    line: LineView,
    done: Seq<LineView>,
    current: LineView,
)
    requires
        0 <= at,
        at + line_lines(line).len() <= all.len(),
        line.wf(),
        line.start != 0,
        forall|t: int| 0 <= t < line_lines(line).len() ==> #[trigger] all[at + t] == line_lines(line)[t],
    ensures
        lines_scan(all, at, done, current) == lines_scan(
            all,
            at + line_lines(line).len(),
            done.push(current),
            line,
        ),
{
    lemma_break_reads(line, (at + 1) as usize);
    assert(all[at + 0] == line_lines(line)[0]);
    assert(line_lines(line)[0] == break_lines(line)[0]);
    let empty = LineView { notes: line.notes.take(0), ..line };
    assert(line.notes.take(0) =~= Seq::<NoteView>::empty());
    assert forall|t: int| 0 <= t < line.notes.len() implies #[trigger] all[at + 1 + t] == note_text(
        line.notes[t],
    ) by {
        assert(all[at + (1 + t)] == line_lines(line)[1 + t]);
    }
    lemma_scan_notes(all, at + 1, line, 0, done.push(current));
}

/// Reading the lines that write the first line of the lyrics, which no line
/// break introduces, gives that line.
proof fn lemma_scan_first_line(
    all: Seq<Seq<char>>,
    at: int,
    line: LineView,
    done: Seq<LineView>,
)
    requires
        0 <= at,
        at + line_lines(line).len() <= all.len(),
        line.wf(),
        line.start == 0,
        line.rel is None,
        forall|t: int| 0 <= t < line_lines(line).len() ==> #[trigger] all[at + t] == line_lines(line)[t],
    ensures
        lines_scan(all, at, done, first_line()) == lines_scan(
            all,
            at + line_lines(line).len(),
            done,
            line,
        ),
{
    assert(line.notes.take(0) =~= Seq::<NoteView>::empty());
    assert(first_line() == LineView { notes: line.notes.take(0), ..line });
    assert forall|t: int| 0 <= t < line.notes.len() implies #[trigger] all[at + t] == note_text(
        line.notes[t],
    ) by {
        assert(all[at + t] == line_lines(line)[t]);
    }
    lemma_scan_notes(all, at, line, 0, done);
}

/// The lines that write a song after its header, and the end mark, stand in
/// `all` from the place `from` on.
spec fn ends_with_lyrics(all: Seq<Seq<char>>, from: int, lines: Seq<LineView>) -> bool {
    &&& 0 <= from
    &&& all.len() == from + lyrics_lines(lines).len() + 1
    &&& forall|t: int|
        0 <= t < lyrics_lines(lines).len() ==> #[trigger] all[from + t] == lyrics_lines(lines)[t]
    &&& all[all.len() - 1] == seq!['E']
}

/// Once the first `i` lines of the lyrics are read, reading the rest gives
/// all of them.
proof fn lemma_scan_rest(all: Seq<Seq<char>>, from: int, lines: Seq<LineView>, i: int)
    requires
        lines_wf(lines),
        ends_with_lyrics(all, from, lines),
        1 <= i <= lines.len(),
    ensures
        lines_scan(
            all,
            from + lyrics_lines(lines.take(i)).len(),
            lines.take(i - 1),
            lines[i - 1],
        ) == Ok::<Seq<LineView>, Error>(lines),
    decreases lines.len() - i,
{
    let at = from + lyrics_lines(lines.take(i)).len();
    let done = lines.take(i - 1);
    assert(done.push(lines[i - 1]) =~= lines.take(i));
    if i == lines.len() {
        assert(lines.take(i) =~= lines);
        assert(all[at] == seq!['E']);
        assert(all[at][0] == 'E');
    } else {
        let line = lines[i];
        lemma_lyrics_lines_split(lines, i);
        let before = lyrics_lines(lines.take(i));
        assert forall|t: int| 0 <= t < line_lines(line).len() implies #[trigger] all[at + t]
            == line_lines(line)[t] by {
            assert(all[from + (before.len() + t)] == lyrics_lines(lines)[before.len() + t]);
        }
        assert(line.wf());
        lemma_scan_line(all, at, line, done, lines[i - 1]);
        lemma_scan_rest(all, from, lines, i + 1);
    }
}

/// The lyrics are read back from the lines that write them, whatever header
/// lines stand before them.
proof fn lemma_lyrics_read_back(all: Seq<Seq<char>>, from: int, lines: Seq<LineView>)
    requires
        lines_wf(lines),
        ends_with_lyrics(all, from, lines),
        forall|j: int| 0 <= j < from ==> (#[trigger] all[j]).len() > 0 && all[j][0] == '#',
    ensures
        lines_scan(all, 0, Seq::empty(), first_line()) == Ok::<Seq<LineView>, Error>(lines),
{
    lemma_scan_skips(all, 0, from, Seq::empty(), first_line());
    let line = lines[0];
    lemma_lyrics_lines_split(lines, 0);
    assert(lines.take(0) =~= Seq::<LineView>::empty());
    assert(lyrics_lines(lines.take(0)) =~= Seq::<Seq<char>>::empty());
    assert(lyrics_lines(lines.take(1)) =~= line_lines(line));
    assert forall|t: int| 0 <= t < line_lines(line).len() implies #[trigger] all[from + t]
        == line_lines(line)[t] by {
        assert(all[from + t] == lyrics_lines(lines)[t]);
    }
    assert(line.wf());
    lemma_scan_first_line(all, from, line, Seq::empty());
    lemma_scan_rest(all, from, lines, 1);
}

/// The line that writes a tag is read as that tag.
proof fn lemma_tag_text_reads(name: Seq<char>, value: Seq<char>)
    requires
        is_name(name),
    ensures
        match_tag(tag_text(name, value)) == Some(TagLine { key: name, value }),
        tag_text(name, value).len() > 0,
        tag_text(name, value)[0] == '#',
{
    let line = tag_text(name, value);
    let colon = 1 + name.len() as int;
    let s = line.skip(1);
    assert forall|i: int| 0 <= i < name.len() implies belongs(s[i], Class::Name) by {
        assert(s[i] == name[i]);
    }
    assert(s[name.len() as int] == ':');
    lemma_run(s, Class::Name, name.len() as int);
    assert(line[colon] == ':');
    assert(tag_here(line));
    assert(tag_offset(line) == Some(0nat));
    assert(line.skip(0) =~= line);
    assert(line.subrange(1, colon) =~= name);
    assert(line.skip(colon + 1) =~= value);
}

/// The name of each field is made of name characters and is the name of no
/// other field.
proof fn lemma_tag_names(tag: Tag)
    requires
        tag != Tag::Unknown,
    ensures
        is_name(tag.name()@),
        tag_of(tag.name()@) == tag,
{
    reveal_strlit("TITLE");
    reveal_strlit("ARTIST");
    reveal_strlit("MP3");
    reveal_strlit("BPM");
    reveal_strlit("GAP");
    reveal_strlit("COVER");
    reveal_strlit("BACKGROUND");
    reveal_strlit("VIDEO");
    reveal_strlit("VIDEOGAP");
    reveal_strlit("GENRE");
    reveal_strlit("EDITION");
    reveal_strlit("LANGUAGE");
    reveal_strlit("YEAR");
    reveal_strlit("RELATIVE");
    // Names of the same length differ in their first character.
    let name = tag.name()@;
    assert(name.len() >= 3);
    assert("BPM"@[0] != "MP3"@[0]);
    assert("GAP"@[0] != "MP3"@[0]);
    assert("GAP"@[0] != "BPM"@[0]);
    assert("TITLE"@[0] != "COVER"@[0]);
    assert("TITLE"@[0] != "VIDEO"@[0]);
    assert("TITLE"@[0] != "GENRE"@[0]);
    assert("COVER"@[0] != "VIDEO"@[0]);
    assert("COVER"@[0] != "GENRE"@[0]);
    assert("VIDEO"@[0] != "GENRE"@[0]);
    assert("BACKGROUND"@.len() == 10);
    assert("ARTIST"@.len() == 6);
    assert("VIDEOGAP"@[0] != "LANGUAGE"@[0]);
    assert("VIDEOGAP"@[0] != "RELATIVE"@[0]);
    assert("LANGUAGE"@[0] != "RELATIVE"@[0]);
    assert("EDITION"@.len() == 7);
    assert("YEAR"@.len() == 4);
}

/// The draft in which the first `count` fields of the header are filled.
spec fn known_draft(header: HeaderView, count: int) -> DraftView {
    DraftView {
        title: if count > 0 {
            Some(header.title)
        } else {
            None
        },
        artist: if count > 1 {
            Some(header.artist)
        } else {
            None
        },
        audio_path: if count > 2 {
            Some(header.audio_path)
        } else {
            None
        },
        bpm: if count > 3 {
            Some(header.bpm)
        } else {
            None
        },
        gap: if count > 4 {
            header.gap
        } else {
            None
        },
        cover_path: if count > 5 {
            header.cover_path
        } else {
            None
        },
        background_path: if count > 6 {
            header.background_path
        } else {
            None
        },
        video_path: if count > 7 {
            header.video_path
        } else {
            None
        },
        video_gap: if count > 8 {
            header.video_gap
        } else {
            None
        },
        genre: if count > 9 {
            header.genre
        } else {
            None
        },
        edition: if count > 10 {
            header.edition
        } else {
            None
        },
        language: if count > 11 {
            header.language
        } else {
            None
        },
        year: if count > 12 {
            header.year
        } else {
            None
        },
        relative: if count > 13 {
            header.relative
        } else {
            None
        },
        unknown: Seq::empty(),
    }
}

/// A literal of a floating-point number has no comma to be replaced.
proof fn lemma_decomma_literal(value: Seq<char>)
    requires
        is_float_literal(value),
    ensures
        decomma(value) == value,
        value.len() > 0,
{
    lemma_float_literal_chars(value);
    assert(decomma(value) =~= value);
}

/// The words that write the relative mark are read as the mark.
proof fn lemma_truth_reads()
    ensures
        truth_of("YES"@) == Some(true),
        truth_of("NO"@) == Some(false),
        "YES"@.len() > 0,
        "NO"@.len() > 0,
{
    reveal_strlit("YES");
    reveal_strlit("NO");
    reveal_strlit("yes");
    reveal_strlit("no");
    assert(lower('Y') == 'y' && lower('E') == 'e' && lower('S') == 's');
    assert(lower('N') == 'n' && lower('O') == 'o');
    assert(spells("YES"@, "yes"@));
    assert(spells("NO"@, "no"@));
}

/// Reading the tag that writes the next field of a header fills that field.
proof fn lemma_field_step(header: HeaderView, count: int, number: usize)
    requires
        header_writable(header),
        0 <= count < 14,
    ensures
        match field_text(header, tag_order()[count]) {
            Some(value) => known_draft(header, count).step(
                number,
                TagLine { key: tag_order()[count].name()@, value },
            ) == Ok::<DraftView, Error>(known_draft(header, count + 1)),
            None => known_draft(header, count + 1) == known_draft(header, count),
        },
{
    let tag = tag_order()[count];
    lemma_tag_names(tag);
    lemma_decomma_literal(header.bpm);
    if header.gap is Some {
        lemma_decomma_literal(header.gap->0);
    }
    if header.video_gap is Some {
        lemma_decomma_literal(header.video_gap->0);
    }
    if header.year is Some {
        lemma_decimal(header.year->0 as nat);
        lemma_decimal_reads(header.year->0 as nat);
    }
    lemma_truth_reads();
}

/// The lines that write the first fields of a header begin the lines that
/// write more of them.
proof fn lemma_known_prefix(header: HeaderView, count: int, more: int)
    requires
        0 <= count <= more,
    ensures
        known_lines(header, count).len() <= known_lines(header, more).len(),
        forall|t: int|
            0 <= t < known_lines(header, count).len() ==> known_lines(header, more)[t]
                == known_lines(header, count)[t],
    decreases more - count,
{
    if count < more {
        lemma_known_prefix(header, count, more - 1);
    }
}

/// Reading the lines that write the fields of a header fills the fields.
proof fn lemma_scan_known(all: Seq<Seq<char>>, header: HeaderView, count: int)
    requires
        header_writable(header),
        0 <= count <= 14,
        known_lines(header, 14).len() <= all.len(),
        forall|t: int|
            0 <= t < known_lines(header, 14).len() ==> #[trigger] all[t] == known_lines(header, 14)[t],
    ensures
        header_scan(all, known_lines(header, count).len() as int, known_draft(header, count))
            == header_scan(all, known_lines(header, 14).len() as int, known_draft(header, 14)),
    decreases 14 - count,
{
    if count < 14 {
        let tag = tag_order()[count];
        let at = known_lines(header, count).len() as int;
        lemma_known_prefix(header, count + 1, 14);
        lemma_field_step(header, count, (at + 1) as usize);
        match field_text(header, tag) {
            Some(value) => {
                let line = tag_text(tag.name()@, value);
                assert(known_lines(header, count + 1) =~= known_lines(header, count).push(line));
                assert(known_lines(header, count + 1)[at] == line);
                assert(all[at] == line);
                lemma_tag_names(tag);
                lemma_tag_text_reads(tag.name()@, value);
            },
            None => {
                assert(known_lines(header, count + 1) =~= known_lines(header, count));
            },
        }
        lemma_scan_known(all, header, count + 1);
    }
}

/// The draft with all the fields of the header filled and the first `count`
/// of its tags without a field.
spec fn full_draft(header: HeaderView, pairs: Seq<(Seq<char>, Seq<char>)>, count: int)
    -> DraftView {
    DraftView { unknown: pairs.take(count), ..known_draft(header, 14) }
}

/// Reading the lines that write the tags without a field of their own
/// stores these tags.
proof fn lemma_scan_unknown(
    all: Seq<Seq<char>>,
    from: int,
    header: HeaderView,
    pairs: Seq<(Seq<char>, Seq<char>)>,
    count: int,
)
    requires
        unknown_writable(pairs),
        0 <= from,
        from + pairs.len() <= all.len(),
        0 <= count <= pairs.len(),
        forall|t: int|
            0 <= t < pairs.len() ==> #[trigger] all[from + t] == tag_text(pairs[t].0, pairs[t].1),
    ensures
        header_scan(all, from + count, full_draft(header, pairs, count)) == header_scan(
            all,
            from + pairs.len(),
            full_draft(header, pairs, pairs.len() as int),
        ),
    decreases pairs.len() - count,
{
    if count < pairs.len() {
        let key = pairs[count].0;
        let value = pairs[count].1;
        let draft = full_draft(header, pairs, count);
        assert(all[from + count] == tag_text(key, value));
        lemma_tag_text_reads(key, value);
        assert(!has_key(draft.unknown, key)) by {
            if has_key(draft.unknown, key) {
                let i = choose|i: int| 0 <= i < draft.unknown.len() && (#[trigger] draft.unknown[i]).0 == key;
                assert(draft.unknown[i] == pairs[i]);
                assert(pairs[i].0 != pairs[count].0);
            }
        }
        assert(pairs.take(count).push((key, value)) =~= pairs.take(count + 1));
        assert(draft.step((from + count + 1) as usize, TagLine { key, value }) == Ok::<
            DraftView,
            Error,
        >(full_draft(header, pairs, count + 1)));
        lemma_scan_unknown(all, from, header, pairs, count + 1);
    }
}

/// Lines that hold a tag without a value leave a header as it is, and the
/// end mark ends the reading of the header.
proof fn lemma_scan_inert(
    all: Seq<Seq<char>>,
    from: int,
    lines: Seq<LineView>,
    i: int,
    draft: DraftView,
)
    requires
        ends_with_lyrics(all, from, lines),
        0 <= i <= lyrics_lines(lines).len(),
        tags_inert(lyrics_lines(lines), i),
    ensures
        header_scan(all, from + i, draft) == Ok::<DraftView, Error>(draft),
    decreases lyrics_lines(lines).len() - i,
{
    if i < lyrics_lines(lines).len() {
        assert(all[from + i] == lyrics_lines(lines)[i]);
        if match_tag(all[from + i]) is Some {
            lemma_scan_inert(all, from, lines, i + 1, draft);
        }
    } else {
        let end = all[from + i];
        assert(end == seq!['E']);
        assert(!tag_here(end));
        assert(end.drop_first().len() == 0);
        assert(tag_offset(end.drop_first()) is None);
        assert(tag_offset(end) is None);
    }
}

/// The line that writes a tag is a line where the name is a name and the
/// value a value.
proof fn lemma_tag_text_is_line(name: Seq<char>, value: Seq<char>)
    requires
        is_name(name),
        is_value(value),
    ensures
        is_line(tag_text(name, value)),
{
    let line = tag_text(name, value);
    let shift = 2 + name.len();
    assert forall|i: int| 0 <= i < line.len() implies line[i] != '\n' by {
        if 1 <= i <= name.len() {
            assert(line[i] == name[i - 1]);
            assert(is_name_char(name[i - 1]));
        } else if i >= shift {
            assert(line[i] == value[i - shift]);
        }
    }
    assert(line.last() == value.last());
}

/// What a field of a writable header is written with is a value.
proof fn lemma_field_text_is_value(header: HeaderView, tag: Tag)
    requires
        header_writable(header),
    ensures
        field_text(header, tag) matches Some(value) ==> is_value(value),
{
    reveal_strlit("YES");
    reveal_strlit("NO");
    match field_text(header, tag) {
        Some(value) => {
            match tag {
                Tag::Bpm | Tag::Gap | Tag::VideoGap => {
                    lemma_float_literal_chars(value);
                },
                Tag::Year => {
                    lemma_decimal(header.year->0 as nat);
                    assert(is_digit(value.last()));
                },
                _ => {},
            }
        },
        None => {},
    }
}

/// The lines that write the fields of a writable header are lines, and each
/// begins with a number sign.
proof fn lemma_known_lines_are_lines(header: HeaderView, count: int)
    requires
        header_writable(header),
        0 <= count <= 14,
    ensures
        forall|t: int|
            0 <= t < known_lines(header, count).len() ==> is_line(
                #[trigger] known_lines(header, count)[t],
            ) && known_lines(header, count)[t].len() > 0 && known_lines(header, count)[t][0] == '#',
    decreases count,
{
    if count > 0 {
        lemma_known_lines_are_lines(header, count - 1);
        let tag = tag_order()[count - 1];
        lemma_tag_names(tag);
        lemma_field_text_is_value(header, tag);
        match field_text(header, tag) {
            Some(value) => {
                lemma_tag_text_is_line(tag.name()@, value);
                lemma_tag_text_reads(tag.name()@, value);
            },
            None => {},
        }
        let before = known_lines(header, count - 1);
        let now = known_lines(header, count);
        assert forall|t: int| 0 <= t < now.len() implies is_line(#[trigger] now[t]) && now[t].len()
            > 0 && now[t][0] == '#' by {
            if t < before.len() {
                assert(now[t] == before[t]);
            } else {
                assert(now[t] == field_lines(header, tag)[t - before.len()]);
            }
        }
    }
}

/// The lines that write a writable header are lines, and each begins with a
/// number sign.
proof fn lemma_header_lines_are_lines(header: HeaderView)
    requires
        header_writable(header),
    ensures
        forall|t: int|
            0 <= t < header_lines(header).len() ==> is_line(#[trigger] header_lines(header)[t])
                && header_lines(header)[t].len() > 0 && header_lines(header)[t][0] == '#',
{
    lemma_known_lines_are_lines(header, 14);
    let known = known_lines(header, 14);
    assert forall|t: int| 0 <= t < header_lines(header).len() implies is_line(
        #[trigger] header_lines(header)[t],
    ) && header_lines(header)[t].len() > 0 && header_lines(header)[t][0] == '#' by {
        if t < known.len() {
            assert(header_lines(header)[t] == known[t]);
        } else {
            let pairs = header.unknown->0;
            let k = t - known.len();
            assert(header_lines(header)[t] == unknown_lines(pairs)[k]);
            assert(is_name(pairs[k].0));
            lemma_tag_text_is_line(pairs[k].0, pairs[k].1);
            lemma_tag_text_reads(pairs[k].0, pairs[k].1);
        }
    }
}

/// The decimal form of an integer, wherever it stands in a line, puts no
/// line feed there.
proof fn lemma_signed_decimal_no_feed(v: int, i: int)
    requires
        0 <= i < signed_decimal(v).len(),
    ensures
        signed_decimal(v)[i] != '\n',
        signed_decimal(v)[i] != '\r',
{
    lemma_signed_decimal_chars(v);
}

/// The line that writes a syllable whose text is a line is a line.
proof fn lemma_timed_text_is_line(
    sigil: char,
    start: i32,
    duration: i32,
    pitch: i32,
    text: Seq<char>,
)
    requires
        sigil == ':' || sigil == '*' || sigil == 'F',
        is_line(text),
    ensures
        is_line(timed_text(sigil, start, duration, pitch, text)),
{
    let a = signed_decimal(start as int);
    let b = signed_decimal(duration as int);
    let c = signed_decimal(pitch as int);
    let line = timed_text(sigil, start, duration, pitch, text);
    let p0 = 2int;
    let p1 = p0 + a.len();
    let p2 = p1 + 1;
    let p3 = p2 + b.len();
    let p4 = p3 + 1;
    let p5 = p4 + c.len();
    assert(line.len() == p5 + 1 + text.len());
    assert forall|i: int| 0 <= i < line.len() implies line[i] != '\n' by {
        if i < p0 {
        } else if i < p1 {
            assert(line[i] == a[i - p0]);
            lemma_signed_decimal_no_feed(start as int, i - p0);
        } else if i < p2 {
            assert(line[i] == ' ');
        } else if i < p3 {
            assert(line[i] == b[i - p2]);
            lemma_signed_decimal_no_feed(duration as int, i - p2);
        } else if i < p4 {
            assert(line[i] == ' ');
        } else if i < p5 {
            assert(line[i] == c[i - p4]);
            lemma_signed_decimal_no_feed(pitch as int, i - p4);
        } else if i < p5 + 1 {
            assert(line[i] == ' ');
        } else {
            assert(line[i] == text[i - p5 - 1]);
        }
    }
    if text.len() > 0 {
        assert(line.last() == text.last());
    } else {
        assert(line.last() == ' ');
    }
}

/// The line that writes a writable note is a line.
proof fn lemma_note_text_is_line(note: NoteView)
    requires
        note_writable(note),
    ensures
        is_line(note_text(note)),
{
    match note {
        NoteView::Regular { start, duration, pitch, text } => {
            lemma_timed_text_is_line(':', start, duration, pitch, text);
        },
        NoteView::Golden { start, duration, pitch, text } => {
            lemma_timed_text_is_line('*', start, duration, pitch, text);
        },
        NoteView::Freestyle { start, duration, pitch, text } => {
            lemma_timed_text_is_line('F', start, duration, pitch, text);
        },
        NoteView::PlayerChange { player } => {
            let line = note_text(note);
            let digits = signed_decimal(player as int);
            lemma_signed_decimal_chars(player as int);
            assert forall|i: int| 0 <= i < line.len() implies line[i] != '\n' by {
                if i > 0 {
                    assert(line[i] == digits[i - 1]);
                }
            }
            assert(line.last() == digits.last());
        },
    }
}

/// The line break that introduces a line of the lyrics is a line.
proof fn lemma_break_is_line(line: LineView)
    requires
        line.start != 0,
    ensures
        break_lines(line).len() == 1,
        is_line(break_lines(line)[0]),
{
    let text = break_lines(line)[0];
    let a = signed_decimal(line.start as int);
    lemma_signed_decimal_chars(line.start as int);
    let p1 = 2 + a.len();
    match line.rel {
        Some(rel) => {
            let b = signed_decimal(rel as int);
            lemma_signed_decimal_chars(rel as int);
            assert forall|i: int| 0 <= i < text.len() implies text[i] != '\n' by {
                if 2 <= i < p1 {
                    assert(text[i] == a[i - 2]);
                } else if i > p1 {
                    assert(text[i] == b[i - p1 - 1]);
                } else if i == p1 {
                    assert(text[i] == ' ');
                }
            }
            assert(text.last() == b.last());
        },
        None => {
            assert forall|i: int| 0 <= i < text.len() implies text[i] != '\n' by {
                if 2 <= i {
                    assert(text[i] == a[i - 2]);
                }
            }
            assert(text.last() == a.last());
        },
    }
}

/// The lines that write writable lyrics are lines.
proof fn lemma_lyrics_lines_are_lines(lines: Seq<LineView>)
    requires
        forall|i: int, j: int|
            0 <= i < lines.len() && 0 <= j < lines[i].notes.len() ==> note_writable(
                #[trigger] lines[i].notes[j],
            ),
    ensures
        forall|t: int|
            0 <= t < lyrics_lines(lines).len() ==> is_line(#[trigger] lyrics_lines(lines)[t]),
    decreases lines.len(),
{
    if lines.len() > 0 {
        let before = lines.drop_last();
        let line = lines.last();
        assert forall|i: int, j: int|
            0 <= i < before.len() && 0 <= j < before[i].notes.len() implies note_writable(
            #[trigger] before[i].notes[j],
        ) by {
            assert(before[i] == lines[i]);
        }
        lemma_lyrics_lines_are_lines(before);
        let head = break_lines(line);
        if line.start != 0 {
            lemma_break_is_line(line);
        }
        assert forall|t: int| 0 <= t < line_lines(line).len() implies is_line(
            #[trigger] line_lines(line)[t],
        ) by {
            if t >= head.len() {
                let j = t - head.len();
                assert(line_lines(line)[t] == note_text(line.notes[j]));
                assert(note_writable(lines[lines.len() - 1].notes[j]));
                lemma_note_text_is_line(line.notes[j]);
            } else {
                assert(line_lines(line)[t] == head[t]);
            }
        }
        assert forall|t: int| 0 <= t < lyrics_lines(lines).len() implies is_line(
            #[trigger] lyrics_lines(lines)[t],
        ) by {
            let n = lyrics_lines(before).len();
            if t < n {
                assert(lyrics_lines(lines)[t] == lyrics_lines(before)[t]);
            } else {
                assert(lyrics_lines(lines)[t] == line_lines(line)[t - n]);
            }
        }
    }
}

} // verus!
