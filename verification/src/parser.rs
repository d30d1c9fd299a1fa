//! The parser: from the text of a song to its header and its lines.

use crate::grammar::after_int;
use crate::grammar::after_run;
use crate::grammar::after_space;
use crate::grammar::match_break;
use crate::grammar::match_note;
use crate::grammar::match_player;
use crate::grammar::match_relative_break;
use crate::grammar::match_tag;
use crate::grammar::read_break;
use crate::grammar::read_note;
use crate::grammar::read_player;
use crate::grammar::read_relative_break;
use crate::grammar::read_tag;
use crate::grammar::NoteLine;
use crate::grammar::NoteSpans;
use crate::grammar::TagLine;
use crate::numeral::i32_of;
use crate::numeral::is_float_literal;
use crate::numeral::parse_i32;
use crate::numeral::parse_u32;
use crate::numeral::spells;
use crate::numeral::spells_word;
use crate::numeral::u32_of;
use crate::structs::distinct_keys;
use crate::structs::number_view;
use crate::structs::pairs_view;
use crate::structs::text_view;
use crate::structs::Header;
use crate::structs::HeaderView;
use crate::structs::Line;
use crate::structs::LineView;
use crate::structs::Note;
use crate::structs::NoteView;
use crate::structs::Number;
use crate::text::lines_of;
use crate::text::Class;
use crate::text::string_of;
use crate::text::rows;
use crate::text::split_lines;
use vstd::prelude::*;

verus! {

broadcast use vstd::string::group_string_axioms;

/// Why a text is no song.
#[derive(Clone, Debug, PartialEq, Eq)]
pub enum Error {
    /// A header tag occurs a second time.
    DuplicateHeader {
        /// The line of the second occurrence, counted from 1.
        line: usize,
        /// The name of the tag; `UNKNOWN` for a tag without a field of its own.
        tag: &'static str,
    },
    /// The title, the artist, the tempo or the audio file is missing.
    MissingEssential,
    /// A value could not be read.
    ValueError {
        /// The line that holds the value, counted from 1.
        line: usize,
        /// What the value is a value of.
        field: &'static str,
    },
    /// A note of a kind that does not exist.
    UnknownNoteType {
        /// The line of the note, counted from 1.
        line: usize,
    },
    /// A line that has none of the forms of a song text.
    ParserFailure {
        /// The line, counted from 1.
        line: usize,
    },
    /// The text has no end mark.
    MissingEndIndicator,
    /// The text uses a feature of the format that is not supported.
    NotImplemented {
        /// The line that uses it, counted from 1.
        line: usize,
        /// The feature.
        feature: &'static str,
    },
}

/// The fields of a header, by the tags that fill them.
#[derive(Clone, Copy, Debug, PartialEq, Eq)]
pub enum Tag {
    Title,
    Artist,
    Mp3,
    Bpm,
    Gap,
    Cover,
    Background,
    Video,
    VideoGap,
    Genre,
    Edition,
    Language,
    Year,
    Relative,
    /// Any tag that has no field of its own.
    Unknown,
}

impl Tag {
    /// The name of the tag as a song text writes it; `UNKNOWN` stands for
    /// the tags without a field of their own.
    pub open spec fn name(self) -> &'static str {
        match self {
            Tag::Title => "TITLE",
            Tag::Artist => "ARTIST",
            Tag::Mp3 => "MP3",
            Tag::Bpm => "BPM",
            Tag::Gap => "GAP",
            Tag::Cover => "COVER",
            Tag::Background => "BACKGROUND",
            Tag::Video => "VIDEO",
            Tag::VideoGap => "VIDEOGAP",
            Tag::Genre => "GENRE",
            Tag::Edition => "EDITION",
            Tag::Language => "LANGUAGE",
            Tag::Year => "YEAR",
            Tag::Relative => "RELATIVE",
            Tag::Unknown => "UNKNOWN",
        }
    }

    /// The name of the tag.
    pub fn label(self) -> (s: &'static str)
        ensures
            s == self.name(),
    {
        match self {
            Tag::Title => "TITLE",
            Tag::Artist => "ARTIST",
            Tag::Mp3 => "MP3",
            Tag::Bpm => "BPM",
            Tag::Gap => "GAP",
            Tag::Cover => "COVER",
            Tag::Background => "BACKGROUND",
            Tag::Video => "VIDEO",
            Tag::VideoGap => "VIDEOGAP",
            Tag::Genre => "GENRE",
            Tag::Edition => "EDITION",
            Tag::Language => "LANGUAGE",
            Tag::Year => "YEAR",
            Tag::Relative => "RELATIVE",
            Tag::Unknown => "UNKNOWN",
        }
    }
}

/// The field that a tag of the name `key` fills.
pub open spec fn tag_of(key: Seq<char>) -> Tag {
    if key == "TITLE"@ {
        Tag::Title
    } else if key == "ARTIST"@ {
        Tag::Artist
    } else if key == "MP3"@ {
        Tag::Mp3
    } else if key == "BPM"@ {
        Tag::Bpm
    } else if key == "GAP"@ {
        Tag::Gap
    } else if key == "COVER"@ {
        Tag::Cover
    } else if key == "BACKGROUND"@ {
        Tag::Background
    } else if key == "VIDEO"@ {
        Tag::Video
    } else if key == "VIDEOGAP"@ {
        Tag::VideoGap
    } else if key == "GENRE"@ {
        Tag::Genre
    } else if key == "EDITION"@ {
        Tag::Edition
    } else if key == "LANGUAGE"@ {
        Tag::Language
    } else if key == "YEAR"@ {
        Tag::Year
    } else if key == "RELATIVE"@ {
        Tag::Relative
    } else {
        Tag::Unknown
    }
}

/// Whether `chars` is `word`, character by character.
pub fn same(chars: &[char], word: &str) -> (b: bool)
    ensures
        b == (chars@ == word@),
{
    let mut i: usize = 0;
    for c in it: word.chars()
        invariant
            it.seq() == word@,
            i == it.index(),
            i <= chars.len(),
            chars@.take(i as int) =~= word@.take(i as int),
    {
        if i >= chars.len() || chars[i] != c {
            return false;
        }
        i += 1;
    }
    assert(word@.take(i as int) =~= word@);
    if i == chars.len() {
        assert(chars@.take(i as int) =~= chars@);
        true
    } else {
        false
    }
}

/// The field that a tag of the name `key` fills.
pub fn tag_for(key: &[char]) -> (tag: Tag)
    ensures
        tag == tag_of(key@),
{
    if same(key, "TITLE") {
        Tag::Title
    } else if same(key, "ARTIST") {
        Tag::Artist
    } else if same(key, "MP3") {
        Tag::Mp3
    } else if same(key, "BPM") {
        Tag::Bpm
    } else if same(key, "GAP") {
        Tag::Gap
    } else if same(key, "COVER") {
        Tag::Cover
    } else if same(key, "BACKGROUND") {
        Tag::Background
    } else if same(key, "VIDEO") {
        Tag::Video
    } else if same(key, "VIDEOGAP") {
        Tag::VideoGap
    } else if same(key, "GENRE") {
        Tag::Genre
    } else if same(key, "EDITION") {
        Tag::Edition
    } else if same(key, "LANGUAGE") {
        Tag::Language
    } else if same(key, "YEAR") {
        Tag::Year
    } else if same(key, "RELATIVE") {
        Tag::Relative
    } else {
        Tag::Unknown
    }
}

/// A header in the making: each field is there or not yet.
pub struct Draft {
    title: Option<String>,
    artist: Option<String>,
    bpm: Option<Number>,
    audio_path: Option<String>,
    gap: Option<Number>,
    cover_path: Option<String>,
    background_path: Option<String>,
    video_path: Option<String>,
    video_gap: Option<Number>,
    genre: Option<String>,
    edition: Option<String>,
    language: Option<String>,
    year: Option<u32>,
    relative: Option<bool>,
    unknown: Vec<(String, String)>,
}

/// What a header in the making holds, as mathematical values.
pub struct DraftView {
    pub title: Option<Seq<char>>,
    pub artist: Option<Seq<char>>,
    pub bpm: Option<Seq<char>>,
    pub audio_path: Option<Seq<char>>,
    pub gap: Option<Seq<char>>,
    pub cover_path: Option<Seq<char>>,
    pub background_path: Option<Seq<char>>,
    pub video_path: Option<Seq<char>>,
    pub video_gap: Option<Seq<char>>,
    pub genre: Option<Seq<char>>,
    pub edition: Option<Seq<char>>,
    pub language: Option<Seq<char>>,
    pub year: Option<u32>,
    pub relative: Option<bool>,
    pub unknown: Seq<(Seq<char>, Seq<char>)>,
}

impl View for Draft {
    type V = DraftView;

    closed spec fn view(&self) -> DraftView {
        DraftView {
            title: text_view(self.title),
            artist: text_view(self.artist),
            bpm: number_view(self.bpm),
            audio_path: text_view(self.audio_path),
            gap: number_view(self.gap),
            cover_path: text_view(self.cover_path),
            background_path: text_view(self.background_path),
            video_path: text_view(self.video_path),
            video_gap: number_view(self.video_gap),
            genre: text_view(self.genre),
            edition: text_view(self.edition),
            language: text_view(self.language),
            year: self.year,
            relative: self.relative,
            unknown: pairs_view(self.unknown@),
        }
    }
}

/// `value` with a full stop in place of each comma.
pub open spec fn decomma(value: Seq<char>) -> Seq<char> {
    Seq::new(
        value.len(),
        |i: int|
            if value[i] == ',' {
                '.'
            } else {
                value[i]
            },
    )
}

/// The truth value that `value` stands for: yes or no, in capital or small
/// letters.
pub open spec fn truth_of(value: Seq<char>) -> Option<bool> {
    if spells(value, "yes"@) {
        Some(true)
    } else if spells(value, "no"@) {
        Some(false)
    } else {
        None
    }
}

/// Whether the list of tags has one of the name `key`.
pub open spec fn has_key(pairs: Seq<(Seq<char>, Seq<char>)>, key: Seq<char>) -> bool {
    exists|i: int| 0 <= i < pairs.len() && (#[trigger] pairs[i]).0 == key
}

impl DraftView {
    /// The draft with no field filled.
    pub open spec fn empty() -> DraftView {
        DraftView {
            title: None,
            artist: None,
            bpm: None,
            audio_path: None,
            gap: None,
            cover_path: None,
            background_path: None,
            video_path: None,
            video_gap: None,
            genre: None,
            edition: None,
            language: None,
            year: None,
            relative: None,
            unknown: Seq::empty(),
        }
    }

    /// Whether the field of `tag` is filled; for a tag without a field of
    /// its own, whether a tag of the name `key` was met.
    pub open spec fn has(self, tag: Tag, key: Seq<char>) -> bool {
        match tag {
            Tag::Title => self.title is Some,
            Tag::Artist => self.artist is Some,
            Tag::Mp3 => self.audio_path is Some,
            Tag::Bpm => self.bpm is Some,
            Tag::Gap => self.gap is Some,
            Tag::Cover => self.cover_path is Some,
            Tag::Background => self.background_path is Some,
            Tag::Video => self.video_path is Some,
            Tag::VideoGap => self.video_gap is Some,
            Tag::Genre => self.genre is Some,
            Tag::Edition => self.edition is Some,
            Tag::Language => self.language is Some,
            Tag::Year => self.year is Some,
            Tag::Relative => self.relative is Some,
            Tag::Unknown => has_key(self.unknown, key),
        }
    }

    /// The draft with the field of `tag` filled from `value`; none where
    /// `value` cannot be read as the field demands. The tempo and the gaps
    /// are literals of floating-point numbers in which a comma may stand for
    /// the decimal point, the year is an unsigned integer, the relative mark
    /// is yes or no.
    pub open spec fn assign(self, tag: Tag, key: Seq<char>, value: Seq<char>) -> Option<
        DraftView,
    > {
        match tag {
            Tag::Title => Some(DraftView { title: Some(value), ..self }),
            Tag::Artist => Some(DraftView { artist: Some(value), ..self }),
            Tag::Mp3 => Some(DraftView { audio_path: Some(value), ..self }),
            Tag::Bpm => if is_float_literal(decomma(value)) {
                Some(DraftView { bpm: Some(decomma(value)), ..self })
            } else {
                None
            },
            Tag::Gap => if is_float_literal(decomma(value)) {
                Some(DraftView { gap: Some(decomma(value)), ..self })
            } else {
                None
            },
            Tag::Cover => Some(DraftView { cover_path: Some(value), ..self }),
            Tag::Background => Some(DraftView { background_path: Some(value), ..self }),
            Tag::Video => Some(DraftView { video_path: Some(value), ..self }),
            Tag::VideoGap => if is_float_literal(decomma(value)) {
                Some(DraftView { video_gap: Some(decomma(value)), ..self })
            } else {
                None
            },
            Tag::Genre => Some(DraftView { genre: Some(value), ..self }),
            Tag::Edition => Some(DraftView { edition: Some(value), ..self }),
            Tag::Language => Some(DraftView { language: Some(value), ..self }),
            Tag::Year => match u32_of(value) {
                Some(year) => Some(DraftView { year: Some(year), ..self }),
                None => None,
            },
            Tag::Relative => match truth_of(value) {
                Some(relative) => Some(DraftView { relative: Some(relative), ..self }),
                None => None,
            },
            Tag::Unknown => Some(DraftView { unknown: self.unknown.push((key, value)), ..self }),
        }
    }

    /// What one header tag, met in line `number`, makes of the draft. A tag
    /// with an empty value changes nothing. A tag whose field is filled is
    /// an error even where its value could not be read; a value that cannot be
    /// read is one otherwise.
    pub open spec fn step(self, number: usize, tag: TagLine) -> Result<DraftView, Error> {
        let field = tag_of(tag.key);
        if tag.value.len() == 0 {
            Ok(self)
        } else if self.has(field, tag.key) {
            Err(Error::DuplicateHeader { line: number, tag: field.name() })
        } else {
            match self.assign(field, tag.key, tag.value) {
                Some(next) => Ok(next),
                None => Err(Error::ValueError { line: number, field: field.name() }),
            }
        }
    }

    /// The numbers of the draft are literals of floating-point numbers, and
    /// no name occurs twice among its tags without a field of their own.
    pub open spec fn wf(self) -> bool {
        &&& self.bpm matches Some(bpm) ==> is_float_literal(bpm)
        &&& self.gap matches Some(gap) ==> is_float_literal(gap)
        &&& self.video_gap matches Some(gap) ==> is_float_literal(gap)
        &&& distinct_keys(self.unknown)
    }

    /// The header that the draft has become; an error where the title, the
    /// artist, the tempo or the audio file is still missing.
    pub open spec fn finish(self) -> Result<HeaderView, Error> {
        if self.title is Some && self.artist is Some && self.bpm is Some
            && self.audio_path is Some {
            Ok(
                HeaderView {
                    title: self.title->0,
                    artist: self.artist->0,
                    bpm: self.bpm->0,
                    audio_path: self.audio_path->0,
                    gap: self.gap,
                    cover_path: self.cover_path,
                    background_path: self.background_path,
                    video_path: self.video_path,
                    video_gap: self.video_gap,
                    genre: self.genre,
                    edition: self.edition,
                    language: self.language,
                    year: self.year,
                    relative: self.relative,
                    unknown: if self.unknown.len() == 0 {
                        None
                    } else {
                        Some(self.unknown)
                    },
                },
            )
        } else {
            Err(Error::MissingEssential)
        }
    }
}

/// What the header tags in the lines from the `i`-th on make of a draft:
/// they are read as long as each line holds one, and the first error ends
/// the reading.
pub open spec fn header_scan(lines: Seq<Seq<char>>, i: int, draft: DraftView) -> Result<
    DraftView,
    Error,
>
    decreases lines.len() - i,
{
    if 0 <= i < lines.len() {
        match match_tag(lines[i]) {
            None => Ok(draft),
            Some(tag) => match draft.step((i + 1) as usize, tag) {
                Ok(next) => header_scan(lines, i + 1, next),
                Err(e) => Err(e),
            },
        }
    } else {
        Ok(draft)
    }
}

/// The header of a song text, or why it has none. The header is made of the
/// lines that hold a tag, from the first line on and as long as each line
/// holds one.
pub open spec fn header_of(text: Seq<char>) -> Result<HeaderView, Error> {
    match header_scan(lines_of(text), 0, DraftView::empty()) {
        Ok(draft) => draft.finish(),
        Err(e) => Err(e),
    }
}

/// `value` with a full stop in place of each comma.
pub fn without_commas(value: &[char]) -> (out: Vec<char>)
    ensures
        out@ == decomma(value@),
{
    let mut out: Vec<char> = Vec::new();
    let mut i: usize = 0;
    while i < value.len()
        invariant
            i <= value.len(),
            out@ =~= decomma(value@).take(i as int),
        decreases value.len() - i,
    {
        let c = value[i];
        out.push(
            if c == ',' {
                '.'
            } else {
                c
            },
        );
        i += 1;
    }
    assert(out@ =~= decomma(value@));
    out
}

/// The number that `value` stands for, a comma taken as the decimal point.
fn number_from(value: &[char]) -> (r: Option<Number>)
    ensures
        r is Some == is_float_literal(decomma(value@)),
        r matches Some(n) ==> n@ == decomma(value@),
{
    let literal = without_commas(value);
    Number::from_chars(literal.as_slice())
}

/// The truth value that `value` stands for.
fn truth_from(value: &[char]) -> (r: Option<bool>)
    ensures
        r == truth_of(value@),
{
    assert(value@.skip(0) =~= value@);
    if spells_word(value, 0, "yes") {
        Some(true)
    } else if spells_word(value, 0, "no") {
        Some(false)
    } else {
        None
    }
}

/// Whether the list of tags has one of the name `key`.
fn holds_key(pairs: &Vec<(String, String)>, key: &[char]) -> (b: bool)
    ensures
        b == has_key(pairs_view(pairs@), key@),
{
    let mut i: usize = 0;
    while i < pairs.len()
        invariant
            i <= pairs.len(),
            forall|k: int| 0 <= k < i ==> (#[trigger] pairs_view(pairs@)[k]).0 != key@,
        decreases pairs.len() - i,
    {
        if same(key, pairs[i].0.as_str()) {
            assert(pairs_view(pairs@)[i as int].0 == key@);
            return true;
        }
        i += 1;
    }
    false
}

impl Draft {
    /// A draft with no field filled.
    pub fn new() -> (draft: Draft)
        ensures
            draft@ == DraftView::empty(),
    {
        let draft = Draft {
            title: None,
            artist: None,
            bpm: None,
            audio_path: None,
            gap: None,
            cover_path: None,
            background_path: None,
            video_path: None,
            video_gap: None,
            genre: None,
            edition: None,
            language: None,
            year: None,
            relative: None,
            unknown: Vec::new(),
        };
        assert(draft@.unknown =~= Seq::empty());
        draft
    }

    /// Takes in one header tag, met in line `number`: fills the field that
    /// the tag names, or says why it cannot.
    pub fn put(&mut self, number: usize, key: &[char], value: &[char]) -> (r: Result<(), Error>)
        ensures
            match r {
                Ok(()) => old(self)@.step(number, TagLine { key: key@, value: value@ }) == Ok::<
                    DraftView,
                    Error,
                >(final(self)@),
                Err(e) => old(self)@.step(number, TagLine { key: key@, value: value@ }) == Err::<
                    DraftView,
                    Error,
                >(e) && *final(self) == *old(self),
            },
    {
        if value.len() == 0 {
            return Ok(());
        }
        let tag = tag_for(key);
        let taken = match tag {
            Tag::Title => self.title.is_some(),
            Tag::Artist => self.artist.is_some(),
            Tag::Mp3 => self.audio_path.is_some(),
            Tag::Bpm => self.bpm.is_some(),
            Tag::Gap => self.gap.is_some(),
            Tag::Cover => self.cover_path.is_some(),
            Tag::Background => self.background_path.is_some(),
            Tag::Video => self.video_path.is_some(),
            Tag::VideoGap => self.video_gap.is_some(),
            Tag::Genre => self.genre.is_some(),
            Tag::Edition => self.edition.is_some(),
            Tag::Language => self.language.is_some(),
            Tag::Year => self.year.is_some(),
            Tag::Relative => self.relative.is_some(),
            Tag::Unknown => holds_key(&self.unknown, key),
        };
        if taken {
            return Err(Error::DuplicateHeader { line: number, tag: tag.label() });
        }
        let unreadable: Result<(), Error> = Err(
            Error::ValueError { line: number, field: tag.label() },
        );
        match tag {
            Tag::Title => {
                self.title = Some(string_of(value));
            },
            Tag::Artist => {
                self.artist = Some(string_of(value));
            },
            Tag::Mp3 => {
                self.audio_path = Some(string_of(value));
            },
            Tag::Bpm => match number_from(value) {
                Some(n) => {
                    self.bpm = Some(n);
                },
                None => {
                    return unreadable;
                },
            },
            Tag::Gap => match number_from(value) {
                Some(n) => {
                    self.gap = Some(n);
                },
                None => {
                    return unreadable;
                },
            },
            Tag::Cover => {
                self.cover_path = Some(string_of(value));
            },
            Tag::Background => {
                self.background_path = Some(string_of(value));
            },
            Tag::Video => {
                self.video_path = Some(string_of(value));
            },
            Tag::VideoGap => match number_from(value) {
                Some(n) => {
                    self.video_gap = Some(n);
                },
                None => {
                    return unreadable;
                },
            },
            Tag::Genre => {
                self.genre = Some(string_of(value));
            },
            Tag::Edition => {
                self.edition = Some(string_of(value));
            },
            Tag::Language => {
                self.language = Some(string_of(value));
            },
            Tag::Year => match parse_u32(value) {
                Some(year) => {
                    self.year = Some(year);
                },
                None => {
                    return unreadable;
                },
            },
            Tag::Relative => match truth_from(value) {
                Some(relative) => {
                    self.relative = Some(relative);
                },
                None => {
                    return unreadable;
                },
            },
            Tag::Unknown => {
                self.unknown.push((string_of(key), string_of(value)));
                assert(pairs_view(self.unknown@) =~= pairs_view(old(self).unknown@).push(
                    (key@, value@),
                ));
            },
        }
        Ok(())
    }

    /// The header that the draft has become.
    pub fn finish(self) -> (r: Result<Header, Error>)
        ensures
            match r {
                Ok(header) => self@.finish() == Ok::<HeaderView, Error>(header@),
                Err(e) => self@.finish() == Err::<HeaderView, Error>(e),
            },
    {
        let Draft {
            title,
            artist,
            bpm,
            audio_path,
            gap,
            cover_path,
            background_path,
            video_path,
            video_gap,
            genre,
            edition,
            language,
            year,
            relative,
            unknown,
        } = self;
        match (title, artist, bpm, audio_path) {
            (Some(title), Some(artist), Some(bpm), Some(audio_path)) => Ok(
                Header {
                    title,
                    artist,
                    bpm,
                    audio_path,
                    gap,
                    cover_path,
                    background_path,
                    video_path,
                    video_gap,
                    genre,
                    edition,
                    language,
                    year,
                    relative,
                    unknown: if unknown.len() == 0 {
                        None
                    } else {
                        Some(unknown)
                    },
                },
            ),
            _ => Err(Error::MissingEssential),
        }
    }
}

/// Parses the header of a song text.
pub fn parse_txt_header_str(txt_str: &str) -> (r: Result<Header, Error>)
    ensures
        match r {
            Ok(header) => header_of(txt_str@) == Ok::<HeaderView, Error>(header@) && header@.wf(),
            Err(e) => header_of(txt_str@) == Err::<HeaderView, Error>(e),
        },
{
    let lines = split_lines(txt_str);
    let mut draft = Draft::new();
    let mut i: usize = 0;
    while i < lines.len()
        invariant
            i <= lines.len(),
            rows(lines@) == lines_of(txt_str@),
            header_scan(rows(lines@), 0, DraftView::empty()) == header_scan(
                rows(lines@),
                i as int,
                draft@,
            ),
        decreases lines.len() - i,
    {
        let line = lines[i].as_slice();
        assert(rows(lines@)[i as int] == line@);
        match read_tag(line) {
            None => {
                proof {
                    lemma_header_is_well_formed(txt_str@);
                }
                return draft.finish();
            },
            Some((key, value)) => {
                match draft.put(i + 1, key.slice(line), value.slice(line)) {
                    Ok(()) => {},
                    Err(e) => {
                        return Err(e);
                    },
                }
            },
        }
        i += 1;
    }
    proof {
        lemma_header_is_well_formed(txt_str@);
    }
    draft.finish()
}

/// What one line of the lyrics asks for.
#[derive(Clone, Debug, PartialEq, Eq)]
pub enum Step {
    /// Nothing: the line is a header tag.
    Skip,
    /// The song ends here.
    End,
    /// The note belongs to the line in the making.
    Add(Note),
    /// The line in the making is complete, and a new one begins.
    Break { start: i32, rel: Option<i32> },
    /// The text is no song.
    Fail(Error),
}

/// What one line of the lyrics asks for, as mathematical values.
pub enum StepView {
    Skip,
    End,
    Add(NoteView),
    Break { start: i32, rel: Option<i32> },
    Fail(Error),
}

impl View for Step {
    type V = StepView;

    open spec fn view(&self) -> StepView {
        match *self {
            Step::Skip => StepView::Skip,
            Step::End => StepView::End,
            Step::Add(note) => StepView::Add(note@),
            Step::Break { start, rel } => StepView::Break { start, rel },
            Step::Fail(e) => StepView::Fail(e),
        }
    }
}

/// The note of the kind that `sigil` tells: a colon for a regular note, an
/// asterisk for a golden one, the letter F for a freestyle one.
pub open spec fn note_of(sigil: char, start: i32, duration: i32, pitch: i32, text: Seq<char>)
    -> Option<NoteView> {
    if sigil == ':' {
        Some(NoteView::Regular { start, duration, pitch, text })
    } else if sigil == '*' {
        Some(NoteView::Golden { start, duration, pitch, text })
    } else if sigil == 'F' {
        Some(NoteView::Freestyle { start, duration, pitch, text })
    } else {
        None
    }
}

/// What a line that holds a note asks for. The numbers are read first, in
/// their order, and the kind of the note last; a note does not last a
/// negative time.
pub open spec fn note_step(note: NoteLine, number: usize) -> StepView {
    match i32_of(note.start) {
        None => StepView::Fail(Error::ValueError { line: number, field: "note start" }),
        Some(start) => match i32_of(note.duration) {
            Some(duration) if duration >= 0 => match i32_of(note.pitch) {
                None => StepView::Fail(Error::ValueError { line: number, field: "note pitch" }),
                Some(pitch) => match note_of(note.sigil, start, duration, pitch, note.text) {
                    Some(n) => StepView::Add(n),
                    None => StepView::Fail(Error::UnknownNoteType { line: number }),
                },
            },
            _ => StepView::Fail(Error::ValueError { line: number, field: "note duration" }),
        },
    }
}

/// What a line break with two numbers asks for.
pub open spec fn relative_break_step(start: Seq<char>, rel: Seq<char>, number: usize)
    -> StepView {
    match i32_of(start) {
        None => StepView::Fail(Error::ValueError { line: number, field: "line start" }),
        Some(start) => match i32_of(rel) {
            None => StepView::Fail(Error::ValueError { line: number, field: "line rel" }),
            Some(rel) => StepView::Break { start, rel: Some(rel) },
        },
    }
}

/// What a change of performer asks for: the performer is the first, the
/// second or the third.
pub open spec fn player_step(player: Seq<char>, number: usize) -> StepView {
    match i32_of(player) {
        Some(p) if 1 <= p <= 3 => StepView::Add(NoteView::PlayerChange { player: p }),
        _ => StepView::Fail(Error::ValueError { line: number, field: "player change" }),
    }
}

/// What line `number` of a song text asks for. The forms are tried in this
/// order: an empty line, a header tag, a change of tempo, the end mark, a
/// note, a line break with one number, one with two, a change of performer.
pub open spec fn line_step(line: Seq<char>, number: usize) -> StepView {
    if line.len() == 0 {
        StepView::Fail(Error::ParserFailure { line: number })
    } else if line[0] == '#' {
        StepView::Skip
    } else if line[0] == 'B' {
        StepView::Fail(Error::NotImplemented { line: number, feature: "variable bpm" })
    } else if line[0] == 'E' {
        StepView::End
    } else if let Some(note) = match_note(line) {
        note_step(note, number)
    } else if let Some(start) = match_break(line) {
        match i32_of(start) {
            Some(start) => StepView::Break { start, rel: None },
            None => StepView::Fail(Error::ValueError { line: number, field: "line start" }),
        }
    } else if let Some((start, rel)) = match_relative_break(line) {
        relative_break_step(start, rel, number)
    } else if let Some(player) = match_player(line) {
        player_step(player, number)
    } else {
        StepView::Fail(Error::ParserFailure { line: number })
    }
}

/// The line with one more note at its end.
pub open spec fn with_note(line: LineView, note: NoteView) -> LineView {
    LineView { notes: line.notes.push(note), ..line }
}

/// The line that begins a song: at beat 0, with no note yet.
pub open spec fn first_line() -> LineView {
    LineView { start: 0, rel: None, notes: Seq::empty() }
}

/// What the lines of a text from the `i`-th on make of the lines `done` and
/// the line `current` in the making. The end mark completes `current` and
/// ends the reading; a text that runs out before it is no song.
pub open spec fn lines_scan(
    lines: Seq<Seq<char>>,
    i: int,
    done: Seq<LineView>,
    current: LineView,
) -> Result<Seq<LineView>, Error>
    decreases lines.len() - i,
{
    if 0 <= i < lines.len() {
        match line_step(lines[i], (i + 1) as usize) {
            StepView::Skip => lines_scan(lines, i + 1, done, current),
            StepView::End => Ok(done.push(current)),
            StepView::Add(note) => lines_scan(lines, i + 1, done, with_note(current, note)),
            StepView::Break { start, rel } => lines_scan(
                lines,
                i + 1,
                done.push(current),
                LineView { start, rel, notes: Seq::empty() },
            ),
            StepView::Fail(e) => Err(e),
        }
    } else {
        Err(Error::MissingEndIndicator)
    }
}

/// The lines of the lyrics of a song text, or why it has none.
pub open spec fn lyrics_of(text: Seq<char>) -> Result<Seq<LineView>, Error> {
    lines_scan(lines_of(text), 0, Seq::empty(), first_line())
}

/// Reads the note that `line` was found to hold.
fn read_note_step(line: &[char], parts: NoteSpans, number: usize) -> (step: Step)
    requires
        line@.len() > 0,
        parts.start.within(line@),
        parts.duration.within(line@),
        parts.pitch.within(line@),
        parts.text.within(line@),
    ensures
        step@ == note_step(
            NoteLine {
                sigil: line@[0],
                start: parts.start.of(line@),
                duration: parts.duration.of(line@),
                pitch: parts.pitch.of(line@),
                text: parts.text.of(line@),
            },
            number,
        ),
{
    let start = match parse_i32(parts.start.slice(line)) {
        Some(v) => v,
        None => {
            return Step::Fail(Error::ValueError { line: number, field: "note start" });
        },
    };
    let duration = match parse_i32(parts.duration.slice(line)) {
        Some(v) if v >= 0 => v,
        _ => {
            return Step::Fail(Error::ValueError { line: number, field: "note duration" });
        },
    };
    let pitch = match parse_i32(parts.pitch.slice(line)) {
        Some(v) => v,
        None => {
            return Step::Fail(Error::ValueError { line: number, field: "note pitch" });
        },
    };
    let sigil = line[0];
    if sigil == ':' {
        Step::Add(Note::Regular { start, duration, pitch, text: parts.text.string(line) })
    } else if sigil == '*' {
        Step::Add(Note::Golden { start, duration, pitch, text: parts.text.string(line) })
    } else if sigil == 'F' {
        Step::Add(Note::Freestyle { start, duration, pitch, text: parts.text.string(line) })
    } else {
        Step::Fail(Error::UnknownNoteType { line: number })
    }
}

/// Reads line `number` of a song text.
pub fn read_line(line: &[char], number: usize) -> (step: Step)
    ensures
        step@ == line_step(line@, number),
{
    if line.len() == 0 {
        return Step::Fail(Error::ParserFailure { line: number });
    }
    let first = line[0];
    if first == '#' {
        return Step::Skip;
    }
    if first == 'B' {
        return Step::Fail(Error::NotImplemented { line: number, feature: "variable bpm" });
    }
    if first == 'E' {
        return Step::End;
    }
    if let Some(parts) = read_note(line) {
        return read_note_step(line, parts, number);
    }
    if let Some(start) = read_break(line) {
        return match parse_i32(start.slice(line)) {
            Some(start) => Step::Break { start, rel: None },
            None => Step::Fail(Error::ValueError { line: number, field: "line start" }),
        };
    }
    if let Some((start, rel)) = read_relative_break(line) {
        let start = match parse_i32(start.slice(line)) {
            Some(v) => v,
            None => {
                return Step::Fail(Error::ValueError { line: number, field: "line start" });
            },
        };
        return match parse_i32(rel.slice(line)) {
            Some(rel) => Step::Break { start, rel: Some(rel) },
            None => Step::Fail(Error::ValueError { line: number, field: "line rel" }),
        };
    }
    if let Some(player) = read_player(line) {
        return match parse_i32(player.slice(line)) {
            Some(p) if 1 <= p && p <= 3 => Step::Add(Note::PlayerChange { player: p }),
            _ => Step::Fail(Error::ValueError { line: number, field: "player change" }),
        };
    }
    Step::Fail(Error::ParserFailure { line: number })
}

/// Parses the lines of the lyrics of a song text.
pub fn parse_txt_lines_str(txt_str: &str) -> (r: Result<Vec<Line>, Error>)
    ensures
        match r {
            Ok(lines) => {
                &&& lyrics_of(txt_str@) == Ok::<Seq<LineView>, Error>(lines.deep_view())
                &&& lines.len() >= 1
                &&& lines[0].start == 0
                &&& lines[0].rel is None
                &&& forall|k: int| 0 <= k < lines.len() ==> (#[trigger] lines[k])@.wf()
            },
            Err(e) => lyrics_of(txt_str@) == Err::<Seq<LineView>, Error>(e),
        },
{
    let lines = split_lines(txt_str);
    let mut done: Vec<Line> = Vec::new();
    let mut current = Line { start: 0, rel: None, notes: Vec::new() };
    let mut i: usize = 0;
    assert(done.deep_view() =~= Seq::<LineView>::empty());
    assert(current@.notes =~= Seq::<NoteView>::empty());
    while i < lines.len()
        invariant
            i <= lines.len(),
            rows(lines@) == lines_of(txt_str@),
            lines_scan(rows(lines@), 0, Seq::empty(), first_line()) == lines_scan(
                rows(lines@),
                i as int,
                done.deep_view(),
                current@,
            ),
        decreases lines.len() - i,
    {
        let line = lines[i].as_slice();
        assert(rows(lines@)[i as int] == line@);
        let ghost before = done.deep_view();
        let ghost making = current@;
        match read_line(line, i + 1) {
            Step::Skip => {},
            Step::End => {
                done.push(current);
                proof {
                    assert(done.deep_view() =~= before.push(making));
                    lemma_lyrics_are_well_formed(txt_str@);
                    assert forall|k: int| 0 <= k < done.len() implies (#[trigger] done[k])@.wf() by {
                        assert(done.deep_view()[k] == done[k]@);
                    }
                    assert(done.deep_view()[0] == done[0]@);
                }
                return Ok(done);
            },
            Step::Add(note) => {
                current.notes.push(note);
                assert(current@.notes =~= making.notes.push(note@));
            },
            Step::Break { start, rel } => {
                done.push(current);
                assert(done.deep_view() =~= before.push(making));
                current = Line { start, rel, notes: Vec::new() };
                assert(current@.notes =~= Seq::<NoteView>::empty());
            },
            Step::Fail(e) => {
                return Err(e);
            },
        }
        i += 1;
    }
    Err(Error::MissingEndIndicator)
}

/// The line holds a tag that fills the field `field`: a tag of that field
/// with a value.
pub open spec fn fills(line: Seq<char>, field: Tag) -> bool {
    match_tag(line) matches Some(tag) && tag_of(tag.key) == field && tag.value.len() > 0
}

/// The fields without which there is no header: the title, the artist, the
/// tempo and the audio file.
pub open spec fn is_essential(field: Tag) -> bool {
    field == Tag::Title || field == Tag::Artist || field == Tag::Bpm || field == Tag::Mp3
}

/// A field that no tag fills stays empty: reading a tag of another field, or
/// one without a value, leaves it as it is.
proof fn lemma_step_keeps_empty(draft: DraftView, number: usize, tag: TagLine, field: Tag)
    requires
        field != Tag::Unknown,
        !draft.has(field, Seq::empty()),
        !(tag_of(tag.key) == field && tag.value.len() > 0),
    ensures
        draft.step(number, tag) matches Ok(next) ==> !next.has(field, Seq::empty()),
{
}

/// Where no line from the `i`-th on fills a field, a draft without it is
/// still without it when the header is read.
proof fn lemma_scan_keeps_empty(lines: Seq<Seq<char>>, i: int, draft: DraftView, field: Tag)
    requires
        0 <= i,
        field != Tag::Unknown,
        !draft.has(field, Seq::empty()),
        forall|k: int| i <= k < lines.len() ==> !fills(#[trigger] lines[k], field),
    ensures
        header_scan(lines, i, draft) matches Ok(last) ==> !last.has(field, Seq::empty()),
    decreases lines.len() - i,
{
    if i < lines.len() {
        assert(!fills(lines[i], field));
        match match_tag(lines[i]) {
            None => {},
            Some(tag) => {
                lemma_step_keeps_empty(draft, (i + 1) as usize, tag, field);
                match draft.step((i + 1) as usize, tag) {
                    Ok(next) => {
                        lemma_scan_keeps_empty(lines, i + 1, next, field);
                    },
                    Err(_) => {},
                }
            },
        }
    }
}

/// A text in which no line fills one of the essential fields (no line names
/// the audio file, say) has no header, whatever else it holds: where its
/// tags are read without an error, the error is that something essential is
/// missing.
pub proof fn lemma_missing_essential(text: Seq<char>, field: Tag)
    requires
        is_essential(field),
        forall|k: int| 0 <= k < lines_of(text).len() ==> !fills(#[trigger] lines_of(text)[k], field),
    ensures
        header_of(text) is Err,
        header_scan(lines_of(text), 0, DraftView::empty()) is Ok ==> header_of(text) == Err::<
            HeaderView,
            Error,
        >(Error::MissingEssential),
{
    lemma_scan_keeps_empty(lines_of(text), 0, DraftView::empty(), field);
}

/// A field that is filled stays filled.
proof fn lemma_step_keeps_field(
    draft: DraftView,
    number: usize,
    tag: TagLine,
    field: Tag,
    key: Seq<char>,
)
    requires
        draft.has(field, key),
    ensures
        draft.step(number, tag) matches Ok(next) ==> next.has(field, key),
{
    match draft.step(number, tag) {
        Ok(next) => {
            if field == Tag::Unknown {
                let i = choose|i: int|
                    0 <= i < draft.unknown.len() && (#[trigger] draft.unknown[i]).0 == key;
                if next.unknown != draft.unknown {
                    assert(next.unknown == draft.unknown.push((tag.key, tag.value)));
                }
                assert(next.unknown[i].0 == key);
            }
        },
        Err(_) => {},
    }
}

/// Where the header is read without an error up to line `to`, and a line
/// before it fills a field, the field is filled when line `to` is reached.
proof fn lemma_scan_reaches(
    lines: Seq<Seq<char>>,
    i: int,
    to: int,
    draft: DraftView,
    field: Tag,
    key: Seq<char>,
    filled_at: int,
)
    requires
        0 <= i <= to <= lines.len(),
        forall|k: int| i <= k < to ==> match_tag(#[trigger] lines[k]) is Some,
        draft.has(field, key) || (i <= filled_at < to && fills(lines[filled_at], field)
            && match_tag(lines[filled_at])->0.key == key),
    ensures
        match header_scan(lines.take(to), i, draft) {
            Ok(reached) => reached.has(field, key) && header_scan(lines, i, draft) == header_scan(
                lines,
                to,
                reached,
            ),
            Err(e) => header_scan(lines, i, draft) == Err::<DraftView, Error>(e),
        },
    decreases to - i,
{
    let front = lines.take(to);
    if i < to {
        assert(front[i] == lines[i]);
        let tag = match_tag(lines[i])->0;
        match draft.step((i + 1) as usize, tag) {
            Ok(next) => {
                if draft.has(field, key) {
                    lemma_step_keeps_field(draft, (i + 1) as usize, tag, field, key);
                } else if i == filled_at {
                    if field == Tag::Unknown {
                        assert(next.unknown.last().0 == key);
                    }
                } else {
                }
                lemma_scan_reaches(lines, i + 1, to, next, field, key, filled_at);
            },
            Err(_) => {},
        }
    }
}

/// A second tag of a field is an error, and it is found where the tag
/// stands: where the lines before line `second` all hold tags that are read
/// without an error, one of them fills a field, and line `second` fills it
/// again, the header is refused for a duplicate in that line. Two tags
/// without a field of their own fill the same field if they have the same
/// name.
pub proof fn lemma_second_tag_is_duplicate(text: Seq<char>, first: int, second: int, field: Tag)
    requires
        0 <= first < second < lines_of(text).len(),
        forall|k: int| 0 <= k < second ==> match_tag(#[trigger] lines_of(text)[k]) is Some,
        fills(lines_of(text)[first], field),
        fills(lines_of(text)[second], field),
        field == Tag::Unknown ==> match_tag(lines_of(text)[first])->0.key == match_tag(
            lines_of(text)[second],
        )->0.key,
        header_scan(lines_of(text).take(second), 0, DraftView::empty()) is Ok,
    ensures
        header_of(text) == Err::<HeaderView, Error>(
            Error::DuplicateHeader { line: (second + 1) as usize, tag: field.name() },
        ),
{
    let lines = lines_of(text);
    let key = match_tag(lines[first])->0.key;
    lemma_scan_reaches(lines, 0, second, DraftView::empty(), field, key, first);
}

/// Where no line from the `i`-th on begins with the end mark, the lyrics
/// are not read to an end: without an error in a line, the error is that the
/// end mark is missing.
proof fn lemma_scan_without_end(
    lines: Seq<Seq<char>>,
    i: int,
    done: Seq<LineView>,
    current: LineView,
)
    requires
        0 <= i,
        forall|k: int| i <= k < lines.len() ==> (#[trigger] lines[k]).len() == 0 || lines[k][0] != 'E',
    ensures
        lines_scan(lines, i, done, current) is Err,
        (forall|k: int| i <= k < lines.len() ==> !(#[trigger] line_step(lines[k], (k + 1) as usize) is Fail))
            ==> lines_scan(lines, i, done, current) == Err::<Seq<LineView>, Error>(
            Error::MissingEndIndicator,
        ),
    decreases lines.len() - i,
{
    if i < lines.len() {
        assert(lines[i].len() == 0 || lines[i][0] != 'E');
        match line_step(lines[i], (i + 1) as usize) {
            StepView::Skip => lemma_scan_without_end(lines, i + 1, done, current),
            StepView::Add(note) => lemma_scan_without_end(
                lines,
                i + 1,
                done,
                with_note(current, note),
            ),
            StepView::Break { start, rel } => lemma_scan_without_end(
                lines,
                i + 1,
                done.push(current),
                LineView { start, rel, notes: Seq::empty() },
            ),
            StepView::End => {
                lemma_end_begins_with_mark(lines[i], (i + 1) as usize);
            },
            StepView::Fail(_) => {},
        }
    }
}

/// Only a line that begins with the end mark ends the lyrics.
proof fn lemma_end_begins_with_mark(line: Seq<char>, number: usize)
    requires
        line_step(line, number) is End,
    ensures
        line.len() > 0 && line[0] == 'E',
{
    if line.len() > 0 && line[0] != '#' && line[0] != 'B' && line[0] != 'E' {
        if let Some(note) = match_note(line) {
            assert(!(note_step(note, number) is End));
        } else if let Some(start) = match_break(line) {
        } else if let Some((start, rel)) = match_relative_break(line) {
            assert(!(relative_break_step(start, rel, number) is End));
        } else if let Some(player) = match_player(line) {
            assert(!(player_step(player, number) is End));
        }
    }
}

/// A text in which no line begins with the end mark has no lyrics, whatever
/// notes it holds: where each of its lines is read without an error, the
/// error is that the end mark is missing.
pub proof fn lemma_no_end_no_lyrics(text: Seq<char>)
    requires
        forall|k: int|
            0 <= k < lines_of(text).len() ==> (#[trigger] lines_of(text)[k]).len() == 0
                || lines_of(text)[k][0] != 'E',
    ensures
        lyrics_of(text) is Err,
        (forall|k: int|
            0 <= k < lines_of(text).len() ==> !(#[trigger] line_step(
                lines_of(text)[k],
                (k + 1) as usize,
            ) is Fail)) ==> lyrics_of(text) == Err::<Seq<LineView>, Error>(
            Error::MissingEndIndicator,
        ),
{
    lemma_scan_without_end(lines_of(text), 0, Seq::empty(), first_line());
}

/// Reading a tag keeps a draft well formed.
proof fn lemma_step_keeps_wf(draft: DraftView, number: usize, tag: TagLine)
    requires
        draft.wf(),
    ensures
        draft.step(number, tag) matches Ok(next) ==> next.wf(),
{
    match draft.step(number, tag) {
        Ok(next) => {
            if next.unknown != draft.unknown {
                assert(next.unknown == draft.unknown.push((tag.key, tag.value)));
                assert(!has_key(draft.unknown, tag.key));
                assert forall|i: int, j: int| 0 <= i < j < next.unknown.len() implies (
                #[trigger] next.unknown[i]).0 != (#[trigger] next.unknown[j]).0 by {
                    if j == draft.unknown.len() {
                        assert(draft.unknown[i].0 != tag.key);
                    }
                }
            }
        },
        Err(_) => {},
    }
}

/// Reading the tags of a text keeps a draft well formed.
proof fn lemma_scan_keeps_wf(lines: Seq<Seq<char>>, i: int, draft: DraftView)
    requires
        0 <= i,
        draft.wf(),
    ensures
        header_scan(lines, i, draft) matches Ok(last) ==> last.wf(),
    decreases lines.len() - i,
{
    if i < lines.len() {
        match match_tag(lines[i]) {
            None => {},
            Some(tag) => {
                lemma_step_keeps_wf(draft, (i + 1) as usize, tag);
                match draft.step((i + 1) as usize, tag) {
                    Ok(next) => {
                        lemma_scan_keeps_wf(lines, i + 1, next);
                    },
                    Err(_) => {},
                }
            },
        }
    }
}

/// The header of a text is well formed.
pub proof fn lemma_header_is_well_formed(text: Seq<char>)
    ensures
        header_of(text) matches Ok(header) ==> header.wf(),
{
    lemma_scan_keeps_wf(lines_of(text), 0, DraftView::empty());
}

/// Reading the lines of a text keeps the lines of the lyrics well formed:
/// every note of them is.
proof fn lemma_scan_keeps_notes(
    lines: Seq<Seq<char>>,
    i: int,
    done: Seq<LineView>,
    current: LineView,
)
    requires
        0 <= i,
        current.wf(),
        forall|k: int| 0 <= k < done.len() ==> (#[trigger] done[k]).wf(),
    ensures
        lines_scan(lines, i, done, current) matches Ok(all) ==> {
            &&& all.len() > done.len()
            &&& forall|k: int| 0 <= k < all.len() ==> (#[trigger] all[k]).wf()
            &&& forall|k: int| 0 <= k < done.len() ==> all[k] == done[k]
            &&& all[done.len() as int].start == current.start
            &&& all[done.len() as int].rel == current.rel
        },
    decreases lines.len() - i,
{
    if i < lines.len() {
        match line_step(lines[i], (i + 1) as usize) {
            StepView::Skip => lemma_scan_keeps_notes(lines, i + 1, done, current),
            StepView::Add(note) => {
                lemma_added_note_is_well_formed(lines[i], (i + 1) as usize);
                lemma_scan_keeps_notes(lines, i + 1, done, with_note(current, note));
            },
            StepView::Break { start, rel } => {
                lemma_scan_keeps_notes(
                    lines,
                    i + 1,
                    done.push(current),
                    LineView { start, rel, notes: Seq::empty() },
                );
            },
            StepView::End => {},
            StepView::Fail(_) => {},
        }
    }
}

/// A note that a line adds is well formed.
proof fn lemma_added_note_is_well_formed(line: Seq<char>, number: usize)
    ensures
        line_step(line, number) matches StepView::Add(note) ==> note.wf(),
{
}

/// The lyrics of a text are well formed but for the beats at which their
/// lines begin: there is a first line, it begins at beat 0 without a second
/// offset, and every note of every line is well formed.
pub proof fn lemma_lyrics_are_well_formed(text: Seq<char>)
    ensures
        lyrics_of(text) matches Ok(lines) ==> {
            &&& lines.len() >= 1
            &&& lines[0].start == 0
            &&& lines[0].rel is None
            &&& forall|k: int| 0 <= k < lines.len() ==> (#[trigger] lines[k]).wf()
        },
{
    lemma_scan_keeps_notes(lines_of(text), 0, Seq::empty(), first_line());
}

/// A comma in a number of the header reads as the decimal point: the tempo
/// and the gaps are read from a value as they are from the same value with a
/// full stop in place of each comma.
pub proof fn lemma_comma_reads_as_point(draft: DraftView, tag: Tag, key: Seq<char>, value: Seq<char>)
    requires
        tag == Tag::Bpm || tag == Tag::Gap || tag == Tag::VideoGap,
    ensures
        draft.assign(tag, key, value) == draft.assign(tag, key, decomma(value)),
{
    assert(decomma(decomma(value)) =~= decomma(value));
}

/// A note that lasts a negative time is refused for its duration, whatever
/// its kind, its pitch and its text are.
pub proof fn lemma_negative_duration_is_refused(note: NoteLine, number: usize)
    requires
        i32_of(note.start) is Some,
        i32_of(note.duration) matches Some(duration) && duration < 0,
    ensures
        note_step(note, number) == StepView::Fail(
            Error::ValueError { line: number, field: "note duration" },
        ),
{
}

/// A change of performer is taken where the performer is the first, the
/// second or the third, and is refused for any other number.
pub proof fn lemma_performer_is_one_of_three(player: Seq<char>, number: usize)
    ensures
        match i32_of(player) {
            Some(p) if 1 <= p <= 3 => player_step(player, number) == StepView::Add(
                NoteView::PlayerChange { player: p },
            ),
            _ => player_step(player, number) == StepView::Fail(
                Error::ValueError { line: number, field: "player change" },
            ),
        },
{
}

/// The two forms of a line break exclude each other: a line that is a line
/// break with one number holds no line break with two numbers, so that the
/// order in which the forms are tried never decides.
pub proof fn lemma_break_forms_exclude_each_other(line: Seq<char>)
    requires
        match_break(line) is Some,
    ensures
        match_relative_break(line) is None,
{
    let p0 = after_space(line, 1);
    let p1 = after_int(line, p0);
    let p2 = after_run(line, p1, Class::Space);
    assert(p2 == line.len());
    assert(line.skip(p2).len() == 0);
    assert(after_int(line, p2) == p2);
}

} // verus!
