//! The generator: from a header and lines to the text of the song.

use crate::numeral::decimal;
use crate::numeral::push_decimal;
use crate::numeral::push_signed;
use crate::numeral::signed_decimal;
use crate::parser::Tag;
use crate::structs::pairs_view;
use crate::structs::Header;
use crate::structs::HeaderView;
use crate::structs::Line;
use crate::structs::LineView;
use crate::structs::Note;
use crate::structs::NoteView;
use crate::text::push_str;
use crate::text::string_of;
use vstd::prelude::*;

verus! {

/// Why a song cannot be written.
#[derive(Clone, Debug, PartialEq, Eq)]
pub enum Error {
    /// The path of a tag cannot be written as text. Kept for paths that are
    /// no text; no song gives it today.
    InvalidPathEncoding {
        /// The tag that holds the path.
        tag: &'static str,
    },
}

/// The line that writes a tag: a number sign, the name, a colon, the value.
pub open spec fn tag_text(name: Seq<char>, value: Seq<char>) -> Seq<char> {
    seq!['#'] + name + seq![':'] + value
}

/// The fields of a header in the order in which they are written.
pub open spec fn tag_order() -> Seq<Tag> {
    seq![
        Tag::Title,
        Tag::Artist,
        Tag::Mp3,
        Tag::Bpm,
        Tag::Gap,
        Tag::Cover,
        Tag::Background,
        Tag::Video,
        Tag::VideoGap,
        Tag::Genre,
        Tag::Edition,
        Tag::Language,
        Tag::Year,
        Tag::Relative,
    ]
}

/// The value that the tag of a field is written with; none for a field that
/// is absent. The year is written in decimal, the relative mark as `YES` or
/// `NO`.
pub open spec fn field_text(header: HeaderView, tag: Tag) -> Option<Seq<char>> {
    match tag {
        Tag::Title => Some(header.title),
        Tag::Artist => Some(header.artist),
        Tag::Mp3 => Some(header.audio_path),
        Tag::Bpm => Some(header.bpm),
        Tag::Gap => header.gap,
        Tag::Cover => header.cover_path,
        Tag::Background => header.background_path,
        Tag::Video => header.video_path,
        Tag::VideoGap => header.video_gap,
        Tag::Genre => header.genre,
        Tag::Edition => header.edition,
        Tag::Language => header.language,
        Tag::Year => match header.year {
            Some(year) => Some(decimal(year as nat)),
            None => None,
        },
        Tag::Relative => match header.relative {
            Some(true) => Some("YES"@),
            Some(false) => Some("NO"@),
            None => None,
        },
        Tag::Unknown => None,
    }
}

/// The line that writes the field of `tag`; no line for a field that is
/// absent.
pub open spec fn field_lines(header: HeaderView, tag: Tag) -> Seq<Seq<char>> {
    match field_text(header, tag) {
        Some(value) => seq![tag_text(tag.name()@, value)],
        None => Seq::empty(),
    }
}

/// The lines that write the first `count` fields of a header.
pub open spec fn known_lines(header: HeaderView, count: int) -> Seq<Seq<char>>
    decreases count,
{
    if count <= 0 {
        Seq::empty()
    } else {
        known_lines(header, count - 1) + field_lines(header, tag_order()[count - 1])
    }
}

/// The lines that write the tags without a field of their own.
pub open spec fn unknown_lines(pairs: Seq<(Seq<char>, Seq<char>)>) -> Seq<Seq<char>> {
    Seq::new(pairs.len(), |i: int| tag_text(pairs[i].0, pairs[i].1))
}

/// The lines that write a header: its fields in their order, then the tags
/// without a field of their own in the order in which they are stored.
pub open spec fn header_lines(header: HeaderView) -> Seq<Seq<char>> {
    known_lines(header, 14) + match header.unknown {
        Some(pairs) => unknown_lines(pairs),
        None => Seq::empty(),
    }
}

/// The line that writes a syllable: the character that tells its kind, then
/// the three numbers and the text, each after one blank.
pub open spec fn timed_text(sigil: char, start: i32, duration: i32, pitch: i32, text: Seq<char>)
    -> Seq<char> {
    seq![sigil, ' '] + signed_decimal(start as int) + seq![' '] + signed_decimal(duration as int)
        + seq![' '] + signed_decimal(pitch as int) + seq![' '] + text
}

/// The line that writes a note.
pub open spec fn note_text(note: NoteView) -> Seq<char> {
    match note {
        NoteView::Regular { start, duration, pitch, text } => timed_text(
            ':',
            start,
            duration,
            pitch,
            text,
        ),
        NoteView::Golden { start, duration, pitch, text } => timed_text(
            '*',
            start,
            duration,
            pitch,
            text,
        ),
        NoteView::Freestyle { start, duration, pitch, text } => timed_text(
            'F',
            start,
            duration,
            pitch,
            text,
        ),
        NoteView::PlayerChange { player } => seq!['P'] + signed_decimal(player as int),
    }
}

/// The line break that introduces a line: none for a line that begins at
/// beat 0; else a hyphen, a blank and the beat, and after one more blank the
/// second offset where the line has one.
pub open spec fn break_lines(line: LineView) -> Seq<Seq<char>> {
    if line.start == 0 {
        Seq::empty()
    } else {
        match line.rel {
            Some(rel) => seq![
                seq!['-', ' '] + signed_decimal(line.start as int) + seq![' '] + signed_decimal(
                    rel as int,
                ),
            ],
            None => seq![seq!['-', ' '] + signed_decimal(line.start as int)],
        }
    }
}

/// The lines that write the first `count` notes of a line.
pub open spec fn note_lines(notes: Seq<NoteView>, count: int) -> Seq<Seq<char>> {
    Seq::new(count as nat, |i: int| note_text(notes[i]))
}

/// The lines that write one line of the lyrics: its line break, then its
/// notes.
pub open spec fn line_lines(line: LineView) -> Seq<Seq<char>> {
    break_lines(line) + note_lines(line.notes, line.notes.len() as int)
}

/// The lines that write the lyrics.
pub open spec fn lyrics_lines(lines: Seq<LineView>) -> Seq<Seq<char>>
    decreases lines.len(),
{
    if lines.len() == 0 {
        Seq::empty()
    } else {
        lyrics_lines(lines.drop_last()) + line_lines(lines.last())
    }
}

/// The text made of `lines`, each ended by a line feed.
pub open spec fn unlines(lines: Seq<Seq<char>>) -> Seq<char>
    decreases lines.len(),
{
    if lines.len() == 0 {
        Seq::empty()
    } else {
        unlines(lines.drop_last()) + lines.last() + seq!['\n']
    }
}

/// The text of a song: the lines of its header and of its lyrics, each ended
/// by a line feed, and the end mark, after which nothing follows.
pub open spec fn song_text(header: HeaderView, lines: Seq<LineView>) -> Seq<char> {
    unlines(header_lines(header) + lyrics_lines(lines)) + seq!['E']
}

/// One more line adds its characters and a line feed to the text.
pub proof fn lemma_unlines_push(lines: Seq<Seq<char>>, line: Seq<char>)
    ensures
        unlines(lines.push(line)) == unlines(lines) + line + seq!['\n'],
{
    assert(lines.push(line).drop_last() =~= lines);
}

/// The text of two runs of lines is the text of the first, then that of the
/// second.
pub proof fn lemma_unlines_add(a: Seq<Seq<char>>, b: Seq<Seq<char>>)
    ensures
        unlines(a + b) == unlines(a) + unlines(b),
    decreases b.len(),
{
    if b.len() == 0 {
        assert(a + b =~= a);
        assert(unlines(a) + unlines(b) =~= unlines(a));
    } else {
        assert((a + b).drop_last() =~= a + b.drop_last());
        lemma_unlines_add(a, b.drop_last());
        assert(unlines(a + b) =~= unlines(a) + unlines(b));
    }
}

/// Appends the line that writes a tag.
fn write_tag(out: &mut Vec<char>, tag: Tag, value: &str)
    ensures
        final(out)@ == old(out)@ + unlines(seq![tag_text(tag.name()@, value@)]),
{
    out.push('#');
    push_str(out, tag.label());
    out.push(':');
    push_str(out, value);
    out.push('\n');
    proof {
        let line = tag_text(tag.name()@, value@);
        lemma_unlines_push(Seq::empty(), line);
        assert(Seq::<Seq<char>>::empty().push(line) =~= seq![line]);
        assert(out@ =~= old(out)@ + unlines(seq![line]));
    }
}

/// Appends the line that writes the field of `tag`, if the header has it.
fn write_field(out: &mut Vec<char>, header: &Header, tag: Tag)
    ensures
        final(out)@ == old(out)@ + unlines(field_lines(header@, tag)),
{
    let ghost before = out@;
    match tag {
        Tag::Title => write_tag(out, tag, header.title.as_str()),
        Tag::Artist => write_tag(out, tag, header.artist.as_str()),
        Tag::Mp3 => write_tag(out, tag, header.audio_path.as_str()),
        Tag::Bpm => write_tag(out, tag, header.bpm.as_str()),
        Tag::Gap => if let Some(gap) = &header.gap {
            write_tag(out, tag, gap.as_str());
        },
        Tag::Cover => if let Some(path) = &header.cover_path {
            write_tag(out, tag, path.as_str());
        },
        Tag::Background => if let Some(path) = &header.background_path {
            write_tag(out, tag, path.as_str());
        },
        Tag::Video => if let Some(path) = &header.video_path {
            write_tag(out, tag, path.as_str());
        },
        Tag::VideoGap => if let Some(gap) = &header.video_gap {
            write_tag(out, tag, gap.as_str());
        },
        Tag::Genre => if let Some(genre) = &header.genre {
            write_tag(out, tag, genre.as_str());
        },
        Tag::Edition => if let Some(edition) = &header.edition {
            write_tag(out, tag, edition.as_str());
        },
        Tag::Language => if let Some(language) = &header.language {
            write_tag(out, tag, language.as_str());
        },
        Tag::Year => if let Some(year) = header.year {
            let mut digits: Vec<char> = Vec::new();
            push_decimal(&mut digits, year as u64);
            assert(digits@ =~= decimal(year as nat));
            let value = string_of(digits.as_slice());
            write_tag(out, tag, value.as_str());
        },
        Tag::Relative => if let Some(relative) = header.relative {
            write_tag(
                out,
                tag,
                if relative {
                    "YES"
                } else {
                    "NO"
                },
            );
        },
        Tag::Unknown => {},
    }
    assert(out@ =~= before + unlines(field_lines(header@, tag)));
}

/// Appends the lines that write the fields of a header.
fn write_known(out: &mut Vec<char>, header: &Header)
    ensures
        final(out)@ == old(out)@ + unlines(known_lines(header@, 14)),
{
    let order = [
        Tag::Title,
        Tag::Artist,
        Tag::Mp3,
        Tag::Bpm,
        Tag::Gap,
        Tag::Cover,
        Tag::Background,
        Tag::Video,
        Tag::VideoGap,
        Tag::Genre,
        Tag::Edition,
        Tag::Language,
        Tag::Year,
        Tag::Relative,
    ];
    assert(order@ =~= tag_order());
    let mut i: usize = 0;
    assert(out@ =~= old(out)@ + unlines(known_lines(header@, 0)));
    while i < 14
        invariant
            i <= 14,
            order@ == tag_order(),
            out@ == old(out)@ + unlines(known_lines(header@, i as int)),
        decreases 14 - i,
    {
        write_field(out, header, order[i]);
        proof {
            lemma_unlines_add(known_lines(header@, i as int), field_lines(header@, order@[i as int]));
            assert(out@ =~= old(out)@ + unlines(known_lines(header@, i + 1)));
        }
        i += 1;
    }
}

/// Appends the lines that write the tags without a field of their own.
fn write_unknown(out: &mut Vec<char>, pairs: &Vec<(String, String)>)
    ensures
        final(out)@ == old(out)@ + unlines(unknown_lines(pairs_view(pairs@))),
{
    let ghost all = unknown_lines(pairs_view(pairs@));
    let mut i: usize = 0;
    assert(all.take(0) =~= Seq::<Seq<char>>::empty());
    assert(out@ =~= old(out)@ + unlines(all.take(0)));
    while i < pairs.len()
        invariant
            i <= pairs.len(),
            all == unknown_lines(pairs_view(pairs@)),
            out@ == old(out)@ + unlines(all.take(i as int)),
        decreases pairs.len() - i,
    {
        let ghost before = out@;
        out.push('#');
        push_str(out, pairs[i].0.as_str());
        out.push(':');
        push_str(out, pairs[i].1.as_str());
        out.push('\n');
        proof {
            let line = tag_text(pairs@[i as int].0@, pairs@[i as int].1@);
            assert(all[i as int] == line);
            assert(all.take(i + 1) =~= all.take(i as int).push(line));
            lemma_unlines_push(all.take(i as int), line);
            assert(out@ =~= before + line + seq!['\n']);
            assert(out@ =~= old(out)@ + unlines(all.take(i + 1)));
        }
        i += 1;
    }
    assert(all.take(i as int) =~= all);
}

/// Appends the line that writes a syllable.
fn write_timed(out: &mut Vec<char>, sigil: char, start: i32, duration: i32, pitch: i32, text: &str)
    ensures
        final(out)@ == old(out)@ + timed_text(sigil, start, duration, pitch, text@) + seq!['\n'],
{
    out.push(sigil);
    out.push(' ');
    push_signed(out, start);
    out.push(' ');
    push_signed(out, duration);
    out.push(' ');
    push_signed(out, pitch);
    out.push(' ');
    push_str(out, text);
    out.push('\n');
    assert(out@ =~= old(out)@ + timed_text(sigil, start, duration, pitch, text@) + seq!['\n']);
}

/// Appends the line that writes a note.
fn write_note(out: &mut Vec<char>, note: &Note)
    ensures
        final(out)@ == old(out)@ + note_text(note@) + seq!['\n'],
{
    match note {
        Note::Regular { start, duration, pitch, text } => write_timed(
            out,
            ':',
            *start,
            *duration,
            *pitch,
            text.as_str(),
        ),
        Note::Golden { start, duration, pitch, text } => write_timed(
            out,
            '*',
            *start,
            *duration,
            *pitch,
            text.as_str(),
        ),
        Note::Freestyle { start, duration, pitch, text } => write_timed(
            out,
            'F',
            *start,
            *duration,
            *pitch,
            text.as_str(),
        ),
        Note::PlayerChange { player } => {
            out.push('P');
            push_signed(out, *player);
            out.push('\n');
            assert(out@ =~= old(out)@ + note_text(note@) + seq!['\n']);
        },
    }
}

/// Appends the line break that introduces a line.
fn write_break(out: &mut Vec<char>, line: &Line)
    ensures
        final(out)@ == old(out)@ + unlines(break_lines(line@)),
{
    if line.start != 0 {
        out.push('-');
        out.push(' ');
        push_signed(out, line.start);
        if let Some(rel) = line.rel {
            out.push(' ');
            push_signed(out, rel);
        }
        out.push('\n');
        proof {
            let text = break_lines(line@)[0];
            lemma_unlines_push(Seq::empty(), text);
            assert(Seq::<Seq<char>>::empty().push(text) =~= break_lines(line@));
            assert(out@ =~= old(out)@ + unlines(break_lines(line@)));
        }
    } else {
        assert(out@ =~= old(out)@ + unlines(break_lines(line@)));
    }
}

/// Appends the lines that write one line of the lyrics.
fn write_line(out: &mut Vec<char>, line: &Line)
    ensures
        final(out)@ == old(out)@ + unlines(line_lines(line@)),
{
    write_break(out, line);
    let ghost notes = line@.notes;
    let ghost head = break_lines(line@);
    let mut i: usize = 0;
    assert(head + note_lines(notes, 0) =~= head);
    while i < line.notes.len()
        invariant
            i <= line.notes.len(),
            notes == line@.notes,
            head == break_lines(line@),
            out@ == old(out)@ + unlines(head + note_lines(notes, i as int)),
        decreases line.notes.len() - i,
    {
        let ghost before = out@;
        write_note(out, &line.notes[i]);
        proof {
            let text = note_text(notes[i as int]);
            assert(notes[i as int] == line.notes@[i as int]@);
            assert(head + note_lines(notes, i + 1) =~= (head + note_lines(notes, i as int)).push(
                text,
            ));
            lemma_unlines_push(head + note_lines(notes, i as int), text);
            assert(out@ =~= old(out)@ + unlines(head + note_lines(notes, i + 1)));
        }
        i += 1;
    }
}

/// Appends the lines that write the lyrics.
fn write_lyrics(out: &mut Vec<char>, lines: &[Line])
    ensures
        final(out)@ == old(out)@ + unlines(lyrics_lines(lines.deep_view())),
{
    let ghost all = lines.deep_view();
    let mut i: usize = 0;
    assert(all.take(0) =~= Seq::<LineView>::empty());
    assert(out@ =~= old(out)@ + unlines(lyrics_lines(all.take(0))));
    while i < lines.len()
        invariant
            i <= lines.len(),
            all == lines.deep_view(),
            out@ == old(out)@ + unlines(lyrics_lines(all.take(i as int))),
        decreases lines.len() - i,
    {
        write_line(out, &lines[i]);
        proof {
            assert(all[i as int] == lines@[i as int]@);
            assert(all.take(i + 1).drop_last() =~= all.take(i as int));
            lemma_unlines_add(lyrics_lines(all.take(i as int)), line_lines(all[i as int]));
            assert(out@ =~= old(out)@ + unlines(lyrics_lines(all.take(i + 1))));
        }
        i += 1;
    }
    assert(all.take(i as int) =~= all);
}

/// Writes a song as text: the header, the lyrics and the end mark.
pub fn generate_song_txt(header: &Header, lines: &[Line]) -> (r: Result<String, Error>)
    ensures
        r matches Ok(text) && text@ == song_text(header@, lines.deep_view()),
{
    let mut out: Vec<char> = Vec::new();
    write_known(&mut out, header);
    if let Some(pairs) = &header.unknown {
        write_unknown(&mut out, pairs);
    }
    proof {
        let known = known_lines(header@, 14);
        match header@.unknown {
            Some(pairs) => {
                lemma_unlines_add(known, unknown_lines(pairs));
            },
            None => {
                assert(known + Seq::<Seq<char>>::empty() =~= known);
            },
        }
        assert(out@ =~= unlines(header_lines(header@)));
    }
    write_lyrics(&mut out, lines);
    out.push('E');
    proof {
        lemma_unlines_add(header_lines(header@), lyrics_lines(lines.deep_view()));
        assert(out@ =~= song_text(header@, lines.deep_view()));
    }
    Ok(string_of(out.as_slice()))
}

} // verus!
