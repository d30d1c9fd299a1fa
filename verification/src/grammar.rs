//! The forms that a line of a song text can have: a header tag, a note, a
//! line break with one or two numbers, a change of performer.
//!
//! A line holds no line feed. White space is what Unicode calls so, a number
//! is an optional minus sign and ASCII digits.

use crate::text::is_space;
use crate::text::run;
use crate::text::skip_run;
use crate::text::space;
use crate::text::string_of;
use crate::text::Class;
use vstd::prelude::*;
use vstd::slice::slice_subrange;

verus! {

/// The place after the run of `class` that begins at `from`.
pub open spec fn after_run(line: Seq<char>, from: int, class: Class) -> int {
    from + run(line.skip(from), class)
}

/// The length of the number that `s` begins with: an optional minus sign and
/// one or more digits, as many as there are; 0 where `s` begins with none.
pub open spec fn int_len(s: Seq<char>) -> nat {
    if s.len() > 0 && s[0] == '-' {
        let digits = run(s.skip(1), Class::Digit);
        if digits > 0 {
            digits + 1
        } else {
            0
        }
    } else {
        run(s, Class::Digit)
    }
}

/// The place after the number that begins at `from`; `from` itself where none
/// begins there.
pub open spec fn after_int(line: Seq<char>, from: int) -> int {
    from + int_len(line.skip(from))
}

/// The place after the one white-space character that may stand at `from`.
pub open spec fn after_space(line: Seq<char>, from: int) -> int {
    if from < line.len() && is_space(line[from]) {
        from + 1
    } else {
        from
    }
}

/// A part of a line: the characters from `from` up to `to`.
#[derive(Clone, Copy, Debug, PartialEq, Eq)]
pub struct Span {
    pub from: usize,
    pub to: usize,
}

impl Span {
    /// The part lies within `line`.
    pub open spec fn within(self, line: Seq<char>) -> bool {
        self.from <= self.to <= line.len()
    }

    /// The characters of the part.
    pub open spec fn of(self, line: Seq<char>) -> Seq<char> {
        line.subrange(self.from as int, self.to as int)
    }

    /// The part of `line`, as a slice.
    pub fn slice<'a>(&self, line: &'a [char]) -> (part: &'a [char])
        requires
            self.within(line@),
        ensures
            part@ == self.of(line@),
    {
        slice_subrange(line, self.from, self.to)
    }

    /// The part of `line`, as a string.
    pub fn string(&self, line: &[char]) -> (part: String)
        requires
            self.within(line@),
        ensures
            part@ == self.of(line@),
    {
        string_of(slice_subrange(line, self.from, self.to))
    }
}

/// The place after the number that begins at `from`.
pub fn skip_int(line: &[char], from: usize) -> (end: usize)
    requires
        from <= line.len(),
    ensures
        from <= end <= line.len(),
        end == after_int(line@, from as int),
{
    let ghost rest = line@.skip(from as int);
    if from < line.len() && line[from] == '-' {
        assert(rest[0] == line@[from as int]);
        assert(rest.skip(1) =~= line@.skip(from + 1));
        let end = skip_run(line, from + 1, Class::Digit);
        if end > from + 1 {
            end
        } else {
            from
        }
    } else {
        if from < line.len() {
            assert(rest[0] == line@[from as int]);
        }
        skip_run(line, from, Class::Digit)
    }
}

/// The place after the one white-space character that may stand at `from`.
pub fn skip_space(line: &[char], from: usize) -> (end: usize)
    requires
        from <= line.len(),
    ensures
        from <= end <= line.len(),
        end == after_space(line@, from as int),
{
    if from < line.len() && space(line[from]) {
        from + 1
    } else {
        from
    }
}

/// A header tag as a line shows it.
pub struct TagLine {
    /// The name of the tag.
    pub key: Seq<char>,
    /// What follows the colon.
    pub value: Seq<char>,
}

/// A tag begins `s`: a number sign, name characters as many as there are,
/// and a colon.
pub open spec fn tag_here(s: Seq<char>) -> bool {
    let colon = after_run(s, 1, Class::Name);
    s.len() > 0 && s[0] == '#' && colon < s.len() && s[colon] == ':'
}

/// The first place in `s` at which a tag begins.
pub open spec fn tag_offset(s: Seq<char>) -> Option<nat>
    decreases s.len(),
{
    if s.len() == 0 {
        None
    } else if tag_here(s) {
        Some(0)
    } else {
        match tag_offset(s.drop_first()) {
            Some(k) => Some(k + 1),
            None => None,
        }
    }
}

/// The header tag that a line holds: the first one, wherever in the line it
/// begins. Its value runs to the end of the line.
pub open spec fn match_tag(line: Seq<char>) -> Option<TagLine> {
    match tag_offset(line) {
        Some(k) => {
            let s = line.skip(k as int);
            let colon = after_run(s, 1, Class::Name);
            Some(TagLine { key: s.subrange(1, colon), value: s.skip(colon + 1) })
        },
        None => None,
    }
}

/// Where no tag begins before `k`, the first tag begins at `k` if one begins
/// there, and nowhere if `k` is the end.
proof fn lemma_tag_offset(s: Seq<char>, k: int)
    requires
        0 <= k <= s.len(),
        forall|j: int| 0 <= j < k ==> !tag_here(#[trigger] s.skip(j)),
        k == s.len() || tag_here(s.skip(k)),
    ensures
        tag_offset(s) == (if k == s.len() {
            None
        } else {
            Some(k as nat)
        }),
    decreases k,
{
    assert(s.skip(0) =~= s);
    if k > 0 {
        let t = s.drop_first();
        assert forall|j: int| 0 <= j < k - 1 implies !tag_here(#[trigger] t.skip(j)) by {
            assert(t.skip(j) =~= s.skip(j + 1));
        }
        assert(t.skip(k - 1) =~= s.skip(k));
        lemma_tag_offset(t, k - 1);
    }
}

/// Finds the header tag of a line: the parts that hold its name and its
/// value.
pub fn read_tag(line: &[char]) -> (r: Option<(Span, Span)>)
    ensures
        match r {
            Some((key, value)) => key.within(line@) && value.within(line@) && match_tag(line@)
                == Some(TagLine { key: key.of(line@), value: value.of(line@) }),
            None => match_tag(line@) is None,
        },
{
    let n = line.len();
    let mut i: usize = 0;
    while i < n
        invariant
            i <= n,
            n == line.len(),
            forall|j: int| 0 <= j < i ==> !tag_here(#[trigger] line@.skip(j)),
        decreases n - i,
    {
        let ghost s = line@.skip(i as int);
        assert(s[0] == line@[i as int]);
        if line[i] == '#' {
            let colon = skip_run(line, i + 1, Class::Name);
            proof {
                assert(s.skip(1) =~= line@.skip(i + 1));
                if colon < n {
                    assert(s[colon - i] == line@[colon as int]);
                }
            }
            if colon < n && line[colon] == ':' {
                proof {
                    lemma_tag_offset(line@, i as int);
                    assert(s.subrange(1, colon - i) =~= line@.subrange(i + 1, colon as int));
                    assert(s.skip(colon - i + 1) =~= line@.subrange(colon + 1, n as int));
                }
                return Some((Span { from: i + 1, to: colon }, Span { from: colon + 1, to: n }));
            }
        }
        i += 1;
    }
    proof {
        lemma_tag_offset(line@, n as int);
    }
    None
}

/// A note as a line shows it.
pub struct NoteLine {
    /// The character that tells the kind of the note.
    pub sigil: char,
    /// The number that gives the beat at which the note begins.
    pub start: Seq<char>,
    /// The number that gives its length in beats.
    pub duration: Seq<char>,
    /// The number that gives its pitch.
    pub pitch: Seq<char>,
    /// The syllable.
    pub text: Seq<char>,
}

/// The note that a line holds: one character, then three numbers, the first
/// after any white space and each of the others after some, then the text,
/// from which one white-space character is taken off if it begins with one.
pub open spec fn match_note(line: Seq<char>) -> Option<NoteLine> {
    let p0 = after_run(line, 1, Class::Space);
    let p1 = after_int(line, p0);
    let p2 = after_run(line, p1, Class::Space);
    let p3 = after_int(line, p2);
    let p4 = after_run(line, p3, Class::Space);
    let p5 = after_int(line, p4);
    if line.len() > 0 && p0 < p1 < p2 < p3 < p4 < p5 {
        Some(
            NoteLine {
                sigil: line[0],
                start: line.subrange(p0, p1),
                duration: line.subrange(p2, p3),
                pitch: line.subrange(p4, p5),
                text: line.skip(after_space(line, p5)),
            },
        )
    } else {
        None
    }
}

/// The parts of a line that holds a note.
#[derive(Clone, Copy, Debug, PartialEq, Eq)]
pub struct NoteSpans {
    pub start: Span,
    pub duration: Span,
    pub pitch: Span,
    pub text: Span,
}

/// Finds the note of a line.
pub fn read_note(line: &[char]) -> (r: Option<NoteSpans>)
    ensures
        match r {
            Some(parts) => {
                &&& line@.len() > 0
                &&& parts.start.within(line@)
                &&& parts.duration.within(line@)
                &&& parts.pitch.within(line@)
                &&& parts.text.within(line@)
                &&& match_note(line@) == Some(
                    NoteLine {
                        sigil: line@[0],
                        start: parts.start.of(line@),
                        duration: parts.duration.of(line@),
                        pitch: parts.pitch.of(line@),
                        text: parts.text.of(line@),
                    },
                )
            },
            None => match_note(line@) is None,
        },
{
    let n = line.len();
    if n == 0 {
        return None;
    }
    let p0 = skip_run(line, 1, Class::Space);
    let p1 = skip_int(line, p0);
    let p2 = skip_run(line, p1, Class::Space);
    let p3 = skip_int(line, p2);
    let p4 = skip_run(line, p3, Class::Space);
    let p5 = skip_int(line, p4);
    if p0 < p1 && p1 < p2 && p2 < p3 && p3 < p4 && p4 < p5 {
        let p6 = skip_space(line, p5);
        assert(line@.skip(p6 as int) =~= line@.subrange(p6 as int, n as int));
        Some(
            NoteSpans {
                start: Span { from: p0, to: p1 },
                duration: Span { from: p2, to: p3 },
                pitch: Span { from: p4, to: p5 },
                text: Span { from: p6, to: n },
            },
        )
    } else {
        None
    }
}

/// The line break with one number that a line holds: a hyphen, at most one
/// white-space character, the number, and nothing more but white space.
pub open spec fn match_break(line: Seq<char>) -> Option<Seq<char>> {
    let p0 = after_space(line, 1);
    let p1 = after_int(line, p0);
    if line.len() > 0 && line[0] == '-' && p0 < p1 && after_run(line, p1, Class::Space)
        == line.len() {
        Some(line.subrange(p0, p1))
    } else {
        None
    }
}

/// Finds the line break with one number.
pub fn read_break(line: &[char]) -> (r: Option<Span>)
    ensures
        match r {
            Some(start) => start.within(line@) && match_break(line@) == Some(start.of(line@)),
            None => match_break(line@) is None,
        },
{
    let n = line.len();
    if n == 0 || line[0] != '-' {
        return None;
    }
    let p0 = skip_space(line, 1);
    let p1 = skip_int(line, p0);
    if p0 < p1 && skip_run(line, p1, Class::Space) == n {
        Some(Span { from: p0, to: p1 })
    } else {
        None
    }
}

/// The line break with two numbers that a line begins with: a hyphen, at
/// most one white-space character, a number, white space, and a number.
pub open spec fn match_relative_break(line: Seq<char>) -> Option<(Seq<char>, Seq<char>)> {
    let p0 = after_space(line, 1);
    let p1 = after_int(line, p0);
    let p2 = after_run(line, p1, Class::Space);
    let p3 = after_int(line, p2);
    if line.len() > 0 && line[0] == '-' && p0 < p1 < p2 < p3 {
        Some((line.subrange(p0, p1), line.subrange(p2, p3)))
    } else {
        None
    }
}

/// Finds the line break with two numbers.
pub fn read_relative_break(line: &[char]) -> (r: Option<(Span, Span)>)
    ensures
        match r {
            Some((start, rel)) => start.within(line@) && rel.within(line@) && match_relative_break(
                line@,
            ) == Some((start.of(line@), rel.of(line@))),
            None => match_relative_break(line@) is None,
        },
{
    let n = line.len();
    if n == 0 || line[0] != '-' {
        return None;
    }
    let p0 = skip_space(line, 1);
    let p1 = skip_int(line, p0);
    let p2 = skip_run(line, p1, Class::Space);
    let p3 = skip_int(line, p2);
    if p0 < p1 && p1 < p2 && p2 < p3 {
        Some((Span { from: p0, to: p1 }, Span { from: p2, to: p3 }))
    } else {
        None
    }
}

/// The change of performer that a line begins with: the letter P, at most
/// one white-space character, and a number.
pub open spec fn match_player(line: Seq<char>) -> Option<Seq<char>> {
    let p0 = after_space(line, 1);
    let p1 = after_int(line, p0);
    if line.len() > 0 && line[0] == 'P' && p0 < p1 {
        Some(line.subrange(p0, p1))
    } else {
        None
    }
}

/// Finds the change of performer.
pub fn read_player(line: &[char]) -> (r: Option<Span>)
    ensures
        match r {
            Some(player) => player.within(line@) && match_player(line@) == Some(player.of(line@)),
            None => match_player(line@) is None,
        },
{
    let n = line.len();
    if n == 0 || line[0] != 'P' {
        return None;
    }
    let p0 = skip_space(line, 1);
    let p1 = skip_int(line, p0);
    if p0 < p1 {
        Some(Span { from: p0, to: p1 })
    } else {
        None
    }
}

} // verus!
