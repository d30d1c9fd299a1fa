//! Characters and lines: how a text is cut into the lines that the parser
//! reads, and how the generator joins lines back into a text.

use vstd::prelude::*;

verus! {

broadcast use vstd::string::group_string_axioms;

/// `String::push` of the standard library: the character is appended at the
/// end and nothing else changes.
pub assume_specification[ String::push ](s: &mut String, c: char)
    ensures
        final(s)@ == old(s)@.push(c),
;

/// An ASCII decimal digit.
pub open spec fn is_digit(c: char) -> bool {
    '0' <= c && c <= '9'
}

/// A character with the Unicode property `White_Space`.
pub open spec fn is_space(c: char) -> bool {
    ||| ('\u{9}' <= c && c <= '\u{d}')
    ||| c == ' '
    ||| c == '\u{85}'
    ||| c == '\u{a0}'
    ||| c == '\u{1680}'
    ||| ('\u{2000}' <= c && c <= '\u{200a}')
    ||| c == '\u{2028}'
    ||| c == '\u{2029}'
    ||| c == '\u{202f}'
    ||| c == '\u{205f}'
    ||| c == '\u{3000}'
}

/// Whether `c` is an ASCII decimal digit.
pub fn digit(c: char) -> (b: bool)
    ensures
        b == is_digit(c),
{
    '0' <= c && c <= '9'
}

/// Whether `c` is white space.
pub fn space(c: char) -> (b: bool)
    ensures
        b == is_space(c),
{
    ('\u{9}' <= c && c <= '\u{d}') || c == ' ' || c == '\u{85}' || c == '\u{a0}' || c == '\u{1680}'
        || ('\u{2000}' <= c && c <= '\u{200a}') || c == '\u{2028}' || c == '\u{2029}' || c
        == '\u{202f}' || c == '\u{205f}' || c == '\u{3000}'
}

/// A class of characters that the line patterns speak of.
#[derive(Clone, Copy, Debug, PartialEq, Eq)]
pub enum Class {
    /// The decimal digits.
    Digit,
    /// White space.
    Space,
    /// What the name of a header tag is made of: the ASCII letters and the
    /// digit 3.
    Name,
}

/// An ASCII letter or the digit 3.
pub open spec fn is_name_char(c: char) -> bool {
    ('A' <= c && c <= 'Z') || ('a' <= c && c <= 'z') || c == '3'
}

/// Whether `c` is of `class`.
pub open spec fn belongs(c: char, class: Class) -> bool {
    match class {
        Class::Digit => is_digit(c),
        Class::Space => is_space(c),
        Class::Name => is_name_char(c),
    }
}

/// Whether `c` is of `class`.
pub fn of_class(c: char, class: Class) -> (b: bool)
    ensures
        b == belongs(c, class),
{
    match class {
        Class::Digit => digit(c),
        Class::Space => space(c),
        Class::Name => ('A' <= c && c <= 'Z') || ('a' <= c && c <= 'z') || c == '3',
    }
}

/// The number of characters of `class` that `s` begins with.
pub open spec fn run(s: Seq<char>, class: Class) -> nat
    decreases s.len(),
{
    if s.len() > 0 && belongs(s[0], class) {
        1 + run(s.drop_first(), class)
    } else {
        0
    }
}

/// Where the first `n` characters of `s` are of `class` and the next is not,
/// the run that `s` begins with has length `n`.
pub proof fn lemma_run(s: Seq<char>, class: Class, n: int)
    requires
        0 <= n <= s.len(),
        forall|i: int| 0 <= i < n ==> belongs(s[i], class),
        n == s.len() || !belongs(s[n], class),
    ensures
        run(s, class) == n,
    decreases n,
{
    if n > 0 {
        let t = s.drop_first();
        assert forall|i: int| 0 <= i < n - 1 implies belongs(t[i], class) by {
            assert(t[i] == s[i + 1]);
        }
        lemma_run(t, class, n - 1);
    }
}

/// The run that `s` begins with lies within `s`, holds characters of `class`
/// only, and is followed by none.
pub proof fn lemma_run_is(s: Seq<char>, class: Class)
    ensures
        run(s, class) <= s.len(),
        forall|i: int| 0 <= i < run(s, class) ==> belongs(#[trigger] s[i], class),
        run(s, class) < s.len() ==> !belongs(s[run(s, class) as int], class),
    decreases s.len(),
{
    if s.len() > 0 && belongs(s[0], class) {
        let t = s.drop_first();
        lemma_run_is(t, class);
        assert forall|i: int| 0 <= i < run(s, class) implies belongs(#[trigger] s[i], class) by {
            if i > 0 {
                assert(s[i] == t[i - 1]);
            }
        }
    }
}

/// The place where the run of `class` that begins at `from` ends.
pub fn skip_run(chars: &[char], from: usize, class: Class) -> (end: usize)
    requires
        from <= chars.len(),
    ensures
        from <= end <= chars.len(),
        end - from == run(chars@.skip(from as int), class),
{
    let mut end: usize = from;
    while end < chars.len() && of_class(chars[end], class)
        invariant
            from <= end <= chars.len(),
            forall|k: int| from <= k < end ==> belongs(chars@[k], class),
        decreases chars.len() - end,
    {
        end += 1;
    }
    proof {
        let rest = chars@.skip(from as int);
        assert forall|i: int| 0 <= i < end - from implies belongs(rest[i], class) by {
            assert(rest[i] == chars@[from + i]);
        }
        lemma_run(rest, class, end - from);
    }
    end
}

/// The characters of `s`, one by one.
pub fn chars_of(s: &str) -> (v: Vec<char>)
    ensures
        v@ == s@,
{
    let mut v: Vec<char> = Vec::new();
    for c in it: s.chars()
        invariant
            it.seq() == s@,
            v@ =~= s@.take(it.index()),
    {
        v.push(c);
    }
    assert(v@ =~= s@);
    v
}

/// The string made of `chars`.
pub fn string_of(chars: &[char]) -> (s: String)
    ensures
        s@ == chars@,
{
    let mut s = String::new();
    let mut i: usize = 0;
    while i < chars.len()
        invariant
            i <= chars.len(),
            s@ =~= chars@.take(i as int),
        decreases chars.len() - i,
    {
        s.push(chars[i]);
        i += 1;
    }
    assert(s@ =~= chars@);
    s
}

/// Appends the characters `chars[from..to]` to `out`.
pub fn push_range(out: &mut Vec<char>, chars: &[char], from: usize, to: usize)
    requires
        from <= to <= chars.len(),
    ensures
        final(out)@ == old(out)@ + chars@.subrange(from as int, to as int),
{
    let mut i: usize = from;
    while i < to
        invariant
            from <= i <= to <= chars.len(),
            out@ =~= old(out)@ + chars@.subrange(from as int, i as int),
        decreases to - i,
    {
        out.push(chars[i]);
        i += 1;
    }
}

/// Appends the characters of `s` to `out`.
pub fn push_str(out: &mut Vec<char>, s: &str)
    ensures
        final(out)@ == old(out)@ + s@,
{
    for c in it: s.chars()
        invariant
            it.seq() == s@,
            out@ =~= old(out)@ + s@.take(it.index()),
    {
        out.push(c);
    }
    assert(s@.take(s@.len() as int) =~= s@);
}

/// The number of characters of `s` before its first line feed.
pub open spec fn line_len(s: Seq<char>) -> nat
    decreases s.len(),
{
    if s.len() == 0 || s[0] == '\n' {
        0
    } else {
        1 + line_len(s.drop_first())
    }
}

/// `line` without the carriage return that may end it.
pub open spec fn chomp(line: Seq<char>) -> Seq<char> {
    if line.len() > 0 && line.last() == '\r' {
        line.drop_last()
    } else {
        line
    }
}

/// The lines of a text. A line ends at a line feed, or at a carriage return
/// followed by a line feed; neither belongs to the line. What follows the last
/// line feed is a line of its own unless it is empty, and keeps a carriage
/// return at its end.
pub open spec fn lines_of(s: Seq<char>) -> Seq<Seq<char>>
    decreases s.len(),
{
    if s.len() == 0 {
        Seq::empty()
    } else {
        let n = line_len(s) as int;
        if n >= s.len() {
            seq![s]
        } else {
            seq![chomp(s.take(n))] + lines_of(s.skip(n + 1))
        }
    }
}

/// `line_len` is the place of the first line feed, or the length where there
/// is none.
pub proof fn lemma_line_len(s: Seq<char>, n: int)
    requires
        0 <= n <= s.len(),
        forall|i: int| 0 <= i < n ==> s[i] != '\n',
        n == s.len() || s[n] == '\n',
    ensures
        line_len(s) == n,
    decreases n,
{
    if n > 0 {
        let t = s.drop_first();
        assert forall|i: int| 0 <= i < n - 1 implies t[i] != '\n' by {
            assert(t[i] == s[i + 1]);
        }
        lemma_line_len(t, n - 1);
    }
}

/// What a vector of lines holds.
pub open spec fn rows(lines: Seq<Vec<char>>) -> Seq<Seq<char>> {
    Seq::new(lines.len(), |i: int| lines[i]@)
}

/// The lines of `text`, each as a vector of characters.
pub fn split_lines(text: &str) -> (lines: Vec<Vec<char>>)
    ensures
        rows(lines@) == lines_of(text@),
{
    let chars = chars_of(text);
    let mut lines: Vec<Vec<char>> = Vec::new();
    let mut pos: usize = 0;
    proof {
        assert(chars@.skip(0) =~= chars@);
        assert(rows(lines@) + lines_of(chars@) =~= lines_of(chars@));
    }
    while pos < chars.len()
        invariant
            pos <= chars.len(),
            lines_of(chars@) == rows(lines@) + lines_of(chars@.skip(pos as int)),
        decreases chars.len() - pos,
    {
        let ghost rest = chars@.skip(pos as int);
        let mut end: usize = pos;
        while end < chars.len() && chars[end] != '\n'
            invariant
                pos <= end <= chars.len(),
                forall|i: int| pos <= i < end ==> chars@[i] != '\n',
            decreases chars.len() - end,
        {
            end += 1;
        }
        proof {
            assert forall|i: int| 0 <= i < end - pos implies rest[i] != '\n' by {
                assert(rest[i] == chars@[pos + i]);
            }
            lemma_line_len(rest, end - pos);
        }
        let terminated = end < chars.len();
        let stop = if terminated && end > pos && chars[end - 1] == '\r' {
            end - 1
        } else {
            end
        };
        let mut line: Vec<char> = Vec::new();
        push_range(&mut line, chars.as_slice(), pos, stop);
        let ghost before = rows(lines@);
        lines.push(line);
        proof {
            let n = end - pos;
            assert(rest.take(n) =~= chars@.subrange(pos as int, end as int));
            if terminated {
                assert(line@ =~= chomp(rest.take(n)));
                assert(rest.skip(n + 1) =~= chars@.skip(end + 1));
            } else {
                assert(line@ =~= rest);
                assert(chars@.skip(end as int).len() == 0);
            }
            assert(rows(lines@) =~= before.push(line@));
            assert(before + (seq![line@] + lines_of(chars@.skip(if terminated {
                end + 1
            } else {
                end as int
            }))) =~= before.push(line@) + lines_of(
                chars@.skip(if terminated {
                    end + 1
                } else {
                    end as int
                }),
            ));
        }
        pos = if terminated {
            end + 1
        } else {
            end
        };
    }
    proof {
        assert(rows(lines@) + lines_of(chars@.skip(pos as int)) =~= rows(lines@));
    }
    lines
}

} // verus!
