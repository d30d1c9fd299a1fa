//! The data model: a song is a header and a sequence of lines, a line is a
//! sequence of notes.

use crate::numeral::float_literal;
use crate::numeral::is_float_literal;
use crate::text::chars_of;
use crate::text::string_of;
use vstd::prelude::*;

verus! {

/// A number of the header (the tempo, a gap), kept as the literal that stands
/// for it: every value of this type is a literal that reads as a
/// floating-point number.
#[derive(Debug, PartialEq, Eq)]
pub struct Number {
    literal: String,
}

impl Clone for Number {
    fn clone(&self) -> (r: Number)
        ensures
            r@ == self@,
    {
        proof {
            use_type_invariant(self);
        }
        Number { literal: self.literal.clone() }
    }
}

impl View for Number {
    type V = Seq<char>;

    closed spec fn view(&self) -> Seq<char> {
        self.literal@
    }
}

impl Number {
    #[verifier::type_invariant]
    spec fn well_formed(self) -> bool {
        is_float_literal(self.literal@)
    }

    /// The number that `chars` is a literal of, if it is one.
    pub fn from_chars(chars: &[char]) -> (r: Option<Number>)
        ensures
            r is Some == is_float_literal(chars@),
            r matches Some(n) ==> n@ == chars@,
    {
        if float_literal(chars) {
            Some(Number { literal: string_of(chars) })
        } else {
            None
        }
    }

    /// The number that `text` is a literal of, if it is one.
    pub fn parse(text: &str) -> (r: Option<Number>)
        ensures
            r is Some == is_float_literal(text@),
            r matches Some(n) ==> n@ == text@,
    {
        let chars = chars_of(text);
        Number::from_chars(chars.as_slice())
    }

    /// The literal.
    pub fn as_str(&self) -> (s: &str)
        ensures
            s@ == self@,
            is_float_literal(s@),
    {
        proof {
            use_type_invariant(self);
        }
        self.literal.as_str()
    }
}

/// The metadata of a song.
#[derive(Clone, Debug, PartialEq, Eq)]
pub struct Header {
    /// The title of the song.
    pub title: String,
    /// The artist.
    pub artist: String,
    /// The tempo, in beats per minute.
    pub bpm: Number,
    /// Where the audio is: a path or a URI.
    pub audio_path: String,
    /// The time before the first note, in milliseconds.
    pub gap: Option<Number>,
    /// Where the cover picture is.
    pub cover_path: Option<String>,
    /// Where the background picture is.
    pub background_path: Option<String>,
    /// Where the video is.
    pub video_path: Option<String>,
    /// The time by which the video runs ahead of the audio.
    pub video_gap: Option<Number>,
    /// The genre.
    pub genre: Option<String>,
    /// The edition.
    pub edition: Option<String>,
    /// The language of the lyrics.
    pub language: Option<String>,
    /// The year of publication.
    pub year: Option<u32>,
    /// Whether the beats of a line count from the line's start.
    pub relative: Option<bool>,
    /// The tags that have no field of their own, each with its value, in the
    /// order in which they were met.
    pub unknown: Option<Vec<(String, String)>>,
}

/// What a header holds, as mathematical values.
pub struct HeaderView {
    pub title: Seq<char>,
    pub artist: Seq<char>,
    pub bpm: Seq<char>,
    pub audio_path: Seq<char>,
    pub gap: Option<Seq<char>>,
    pub cover_path: Option<Seq<char>>,
    pub background_path: Option<Seq<char>>,
    pub video_path: Option<Seq<char>>,
    pub video_gap: Option<Seq<char>>,
    pub genre: Option<Seq<char>>,
    pub edition: Option<Seq<char>>,
    pub language: Option<Seq<char>>,
    pub year: Option<u32>,
    pub relative: Option<bool>,
    pub unknown: Option<Seq<(Seq<char>, Seq<char>)>>,
}

/// What an optional text holds.
pub open spec fn text_view(o: Option<String>) -> Option<Seq<char>> {
    match o {
        Some(s) => Some(s@),
        None => None,
    }
}

/// What an optional number holds.
pub open spec fn number_view(o: Option<Number>) -> Option<Seq<char>> {
    match o {
        Some(n) => Some(n@),
        None => None,
    }
}

/// What a list of tags holds.
pub open spec fn pairs_view(pairs: Seq<(String, String)>) -> Seq<(Seq<char>, Seq<char>)> {
    Seq::new(pairs.len(), |i: int| (pairs[i].0@, pairs[i].1@))
}

/// What an optional list of tags holds.
pub open spec fn unknown_view(o: Option<Vec<(String, String)>>) -> Option<
    Seq<(Seq<char>, Seq<char>)>,
> {
    match o {
        Some(v) => Some(pairs_view(v@)),
        None => None,
    }
}

/// No name occurs twice in the list of tags.
pub open spec fn distinct_keys(pairs: Seq<(Seq<char>, Seq<char>)>) -> bool {
    forall|i: int, j: int|
        0 <= i < j < pairs.len() ==> (#[trigger] pairs[i]).0 != (#[trigger] pairs[j]).0
}

impl HeaderView {
    /// The numbers of the header are literals of floating-point numbers, and
    /// the tags without a field of their own, if there are any, are at least
    /// one and have each a name of its own.
    pub open spec fn wf(self) -> bool {
        &&& is_float_literal(self.bpm)
        &&& self.gap matches Some(gap) ==> is_float_literal(gap)
        &&& self.video_gap matches Some(gap) ==> is_float_literal(gap)
        &&& self.unknown matches Some(pairs) ==> pairs.len() > 0 && distinct_keys(pairs)
    }
}

impl View for Header {
    type V = HeaderView;

    open spec fn view(&self) -> HeaderView {
        HeaderView {
            title: self.title@,
            artist: self.artist@,
            bpm: self.bpm@,
            audio_path: self.audio_path@,
            gap: number_view(self.gap),
            cover_path: text_view(self.cover_path),
            background_path: text_view(self.background_path),
            video_path: text_view(self.video_path),
            video_gap: number_view(self.video_gap),
            genre: text_view(self.genre),
            edition: text_view(self.edition),
            language: text_view(self.language),
            year: self.year,
            relative: self.relative,
            unknown: unknown_view(self.unknown),
        }
    }
}

/// One syllable of the lyrics, or a change of performer.
#[derive(Clone, Debug, PartialEq, Eq)]
pub enum Note {
    /// A syllable sung normally.
    Regular { start: i32, duration: i32, pitch: i32, text: String },
    /// A syllable that scores a bonus.
    Golden { start: i32, duration: i32, pitch: i32, text: String },
    /// A syllable that is not scored.
    Freestyle { start: i32, duration: i32, pitch: i32, text: String },
    /// From here on the notes of the line belong to performer `player`.
    PlayerChange { player: i32 },
}

/// What a note holds, as mathematical values.
pub enum NoteView {
    Regular { start: i32, duration: i32, pitch: i32, text: Seq<char> },
    Golden { start: i32, duration: i32, pitch: i32, text: Seq<char> },
    Freestyle { start: i32, duration: i32, pitch: i32, text: Seq<char> },
    PlayerChange { player: i32 },
}

impl View for Note {
    type V = NoteView;

    open spec fn view(&self) -> NoteView {
        match *self {
            Note::Regular { start, duration, pitch, text } => NoteView::Regular {
                start,
                duration,
                pitch,
                text: text@,
            },
            Note::Golden { start, duration, pitch, text } => NoteView::Golden {
                start,
                duration,
                pitch,
                text: text@,
            },
            Note::Freestyle { start, duration, pitch, text } => NoteView::Freestyle {
                start,
                duration,
                pitch,
                text: text@,
            },
            Note::PlayerChange { player } => NoteView::PlayerChange { player },
        }
    }
}

impl DeepView for Note {
    type V = NoteView;

    open spec fn deep_view(&self) -> NoteView {
        self@
    }
}

impl NoteView {
    /// A syllable does not last a negative time, and a performer is the
    /// first, the second or the third.
    pub open spec fn wf(self) -> bool {
        match self {
            NoteView::Regular { duration, .. } => duration >= 0,
            NoteView::Golden { duration, .. } => duration >= 0,
            NoteView::Freestyle { duration, .. } => duration >= 0,
            NoteView::PlayerChange { player } => 1 <= player <= 3,
        }
    }
}

/// One line of the lyrics.
#[derive(Clone, Debug, PartialEq, Eq)]
pub struct Line {
    /// The beat at which the line begins; 0 for the first line of a song,
    /// which no line break introduces.
    pub start: i32,
    /// A second offset, where the line break had two numbers.
    pub rel: Option<i32>,
    /// The notes of the line.
    pub notes: Vec<Note>,
}

/// What a line holds, as mathematical values.
pub struct LineView {
    pub start: i32,
    pub rel: Option<i32>,
    pub notes: Seq<NoteView>,
}

impl View for Line {
    type V = LineView;

    open spec fn view(&self) -> LineView {
        LineView { start: self.start, rel: self.rel, notes: self.notes.deep_view() }
    }
}

impl DeepView for Line {
    type V = LineView;

    open spec fn deep_view(&self) -> LineView {
        self@
    }
}

impl LineView {
    /// Every note of the line is well formed.
    pub open spec fn wf(self) -> bool {
        forall|i: int| 0 <= i < self.notes.len() ==> (#[trigger] self.notes[i]).wf()
    }
}

/// The lines of a song are well formed: each of them is, the first one
/// begins at beat 0 without a second offset, and no other line begins at
/// beat 0.
pub open spec fn lines_wf(lines: Seq<LineView>) -> bool {
    &&& lines.len() >= 1
    &&& lines[0].start == 0
    &&& lines[0].rel is None
    &&& forall|i: int| 0 <= i < lines.len() ==> (#[trigger] lines[i]).wf()
    &&& forall|i: int| 1 <= i < lines.len() ==> (#[trigger] lines[i]).start != 0
}

/// A song: its header and its lines.
#[derive(Clone, Debug, PartialEq, Eq)]
pub struct TXTSong {
    /// The metadata.
    pub header: Header,
    /// The lyrics.
    pub lines: Vec<Line>,
}

/// What a song holds, as mathematical values.
pub struct TXTSongView {
    pub header: HeaderView,
    pub lines: Seq<LineView>,
}

impl View for TXTSong {
    type V = TXTSongView;

    open spec fn view(&self) -> TXTSongView {
        TXTSongView { header: self.header@, lines: self.lines.deep_view() }
    }
}

} // verus!
