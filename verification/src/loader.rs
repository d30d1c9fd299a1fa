//! The loader: from the bytes of a song file to the song, and what the
//! references of a header point at.

use crate::parser::header_of;
use crate::parser::lyrics_of;
use crate::parser::parse_txt_header_str;
use crate::parser::parse_txt_lines_str;
use crate::structs::Header;
use crate::structs::HeaderView;
use crate::structs::TXTSong;
use crate::structs::TXTSongView;
use crate::text::chars_of;
use crate::text::string_of;
use vstd::prelude::*;
use vstd::slice::slice_subrange;

verus! {

broadcast use vstd::string::group_string_axioms;

/// An error of input or output, as the standard library reports it.
#[verifier::external_type_specification]
#[verifier::external_body]
pub struct ExIoError(std::io::Error);

/// Why a song file could not be loaded.
#[derive(Debug)]
pub enum Error {
    /// The file could not be read.
    IOError(std::io::Error),
    /// No known encoding was found for the bytes of the file.
    EncodingDetectionError,
    /// The bytes could not be decoded.
    DecodingError {
        /// What the decoder said.
        msg: String,
    },
    /// A file that the header refers to could not be found.
    CanonicalizationError(std::io::Error),
    /// The text has no header.
    HeaderParsingError(crate::parser::Error),
    /// The text has no lyrics.
    LinesParsingError(crate::parser::Error),
}

/// Why a song file could not be loaded, as mathematical values.
pub enum ErrorView {
    IOError,
    EncodingDetectionError,
    DecodingError { msg: Seq<char> },
    CanonicalizationError,
    HeaderParsingError(crate::parser::Error),
    LinesParsingError(crate::parser::Error),
}

impl View for Error {
    type V = ErrorView;

    open spec fn view(&self) -> ErrorView {
        match *self {
            Error::IOError(_) => ErrorView::IOError,
            Error::EncodingDetectionError => ErrorView::EncodingDetectionError,
            Error::DecodingError { msg } => ErrorView::DecodingError { msg: msg@ },
            Error::CanonicalizationError(_) => ErrorView::CanonicalizationError,
            Error::HeaderParsingError(e) => ErrorView::HeaderParsingError(e),
            Error::LinesParsingError(e) => ErrorView::LinesParsingError(e),
        }
    }
}

/// `pattern` occurs in `s` at the place `at`.
pub open spec fn occurs_at(s: Seq<char>, pattern: Seq<char>, at: int) -> bool {
    0 <= at && at + pattern.len() <= s.len() && s.subrange(at, at + pattern.len()) == pattern
}

/// `pattern` occurs somewhere in `s`.
pub open spec fn occurs_in(s: Seq<char>, pattern: Seq<char>) -> bool {
    exists|at: int| occurs_at(s, pattern, at)
}

/// A reference is local if it has no `://` in it, or begins with `file://`.
pub open spec fn is_local(path: Seq<char>) -> bool {
    !occurs_in(path, "://"@) || occurs_at(path, "file://"@, 0)
}

/// Whether `pattern` occurs in `s` at the place `at`.
fn found_at(s: &[char], pattern: &[char], at: usize) -> (b: bool)
    ensures
        b == occurs_at(s@, pattern@, at as int),
{
    if pattern.len() > s.len() || at > s.len() - pattern.len() {
        return false;
    }
    let mut i: usize = 0;
    while i < pattern.len()
        invariant
            i <= pattern.len(),
            at + pattern.len() <= s.len(),
            forall|k: int| 0 <= k < i ==> s@[at + k] == pattern@[k],
        decreases pattern.len() - i,
    {
        if s[at + i] != pattern[i] {
            assert(s@.subrange(at as int, at + pattern.len())[i as int] == s@[at + i]);
            return false;
        }
        i += 1;
    }
    assert(s@.subrange(at as int, at + pattern.len()) =~= pattern@);
    true
}

/// Whether `pattern` occurs somewhere in `s`.
fn found_in(s: &[char], pattern: &[char]) -> (b: bool)
    ensures
        b == occurs_in(s@, pattern@),
{
    let mut at: usize = 0;
    while at < s.len()
        invariant
            at <= s.len(),
            forall|k: int| 0 <= k < at ==> !occurs_at(s@, pattern@, k),
        decreases s.len() - at,
    {
        if found_at(s, pattern, at) {
            return true;
        }
        at += 1;
    }
    found_at(s, pattern, at)
}

/// Returns whether the path references a local file.
pub fn path_is_local(path: &str) -> (b: bool)
    ensures
        b == is_local(path@),
{
    let chars = chars_of(path);
    let mark = chars_of("://");
    let scheme = chars_of("file://");
    !found_in(chars.as_slice(), mark.as_slice()) || found_at(
        chars.as_slice(),
        scheme.as_slice(),
        0,
    )
}

/// The file that a reference of a header stands for, relative to the
/// directory of the song: the reference itself, without `file://` where it
/// begins so. None for a reference that is not local, and for one that
/// begins with `file:///`: such a reference stays as it is.
pub open spec fn local_target(path: Seq<char>) -> Option<Seq<char>> {
    if is_local(path) && !occurs_at(path, "file:///"@, 0) {
        if occurs_at(path, "file://"@, 0) {
            Some(path.skip("file://"@.len() as int))
        } else {
            Some(path)
        }
    } else {
        None
    }
}

/// Says which file a reference of a header is to be looked up as, if any.
pub fn canonicalize_path(path: &str) -> (target: Option<String>)
    ensures
        match target {
            Some(file) => local_target(path@) == Some(file@),
            None => local_target(path@) is None,
        },
{
    let chars = chars_of(path);
    let mark = chars_of("://");
    let scheme = chars_of("file://");
    let rooted = chars_of("file:///");
    let prefixed = found_at(chars.as_slice(), scheme.as_slice(), 0);
    let local = !found_in(chars.as_slice(), mark.as_slice()) || prefixed;
    if local && !found_at(chars.as_slice(), rooted.as_slice(), 0) {
        if prefixed {
            assert(chars@.skip(scheme@.len() as int) =~= chars@.subrange(
                scheme@.len() as int,
                chars@.len() as int,
            ));
            Some(string_of(slice_subrange(chars.as_slice(), scheme.len(), chars.len())))
        } else {
            Some(string_of(chars.as_slice()))
        }
    } else {
        None
    }
}

/// The references of a header that are looked up in the directory of the
/// song.
#[derive(Clone, Copy, Debug, PartialEq, Eq)]
pub enum Reference {
    Audio,
    Video,
    Cover,
    Background,
}

/// The references in the order in which they are looked up.
pub open spec fn reference_order() -> Seq<Reference> {
    seq![Reference::Audio, Reference::Video, Reference::Cover, Reference::Background]
}

/// What a header refers to, if it does.
pub open spec fn referred(header: HeaderView, which: Reference) -> Option<Seq<char>> {
    match which {
        Reference::Audio => Some(header.audio_path),
        Reference::Video => header.video_path,
        Reference::Cover => header.cover_path,
        Reference::Background => header.background_path,
    }
}

/// The file that is looked up for a reference of a header; none for a
/// reference that the header does not have or that stays as it is.
pub open spec fn lookup(header: HeaderView, which: Reference) -> Seq<(Reference, Seq<char>)> {
    match referred(header, which) {
        Some(path) => match local_target(path) {
            Some(file) => seq![(which, file)],
            None => Seq::empty(),
        },
        None => Seq::empty(),
    }
}

/// The files that are looked up for the first `count` references of a
/// header, each with the reference that it is looked up for.
pub open spec fn lookups(header: HeaderView, count: int) -> Seq<(Reference, Seq<char>)>
    decreases count,
{
    if count <= 0 {
        Seq::empty()
    } else {
        lookups(header, count - 1) + lookup(header, reference_order()[count - 1])
    }
}

/// What a list of lookups holds.
pub open spec fn lookups_view(list: Seq<(Reference, String)>) -> Seq<(Reference, Seq<char>)> {
    Seq::new(list.len(), |i: int| (list[i].0, list[i].1@))
}

/// Appends the lookup for one reference, if there is one.
fn push_lookup(list: &mut Vec<(Reference, String)>, which: Reference, path: &str)
    ensures
        lookups_view(final(list)@) == lookups_view(old(list)@) + match local_target(path@) {
            Some(file) => seq![(which, file)],
            None => Seq::empty(),
        },
{
    match canonicalize_path(path) {
        Some(file) => {
            list.push((which, file));
            assert(lookups_view(list@) =~= lookups_view(old(list)@) + seq![
                (which, local_target(path@)->0),
            ]);
        },
        None => {
            assert(lookups_view(list@) =~= lookups_view(old(list)@) + Seq::empty());
        },
    }
}

/// The files that are to be looked up in the directory of the song, each
/// with the reference of the header that it stands for: the audio file, the
/// video, the cover and the background, in this order, as far as the header
/// has them and they are local.
pub fn lookups_of(header: &Header) -> (list: Vec<(Reference, String)>)
    ensures
        lookups_view(list@) == lookups(header@, 4),
{
    let mut list: Vec<(Reference, String)> = Vec::new();
    assert(lookups_view(list@) =~= lookups(header@, 0));
    push_lookup(&mut list, Reference::Audio, header.audio_path.as_str());
    assert(lookups_view(list@) =~= lookups(header@, 1));
    if let Some(path) = &header.video_path {
        push_lookup(&mut list, Reference::Video, path.as_str());
    }
    assert(lookups_view(list@) =~= lookups(header@, 2));
    if let Some(path) = &header.cover_path {
        push_lookup(&mut list, Reference::Cover, path.as_str());
    }
    assert(lookups_view(list@) =~= lookups(header@, 3));
    if let Some(path) = &header.background_path {
        push_lookup(&mut list, Reference::Background, path.as_str());
    }
    assert(lookups_view(list@) =~= lookups(header@, 4));
    list
}

/// The header with `path` in the place of one of its references.
pub open spec fn with_reference(header: HeaderView, which: Reference, path: Seq<char>)
    -> HeaderView {
    match which {
        Reference::Audio => HeaderView { audio_path: path, ..header },
        Reference::Video => HeaderView { video_path: Some(path), ..header },
        Reference::Cover => HeaderView { cover_path: Some(path), ..header },
        Reference::Background => HeaderView { background_path: Some(path), ..header },
    }
}

/// Puts the path under which a file was found in the place of the reference
/// that it was looked up for.
pub fn set_reference(header: &mut Header, which: Reference, path: String)
    ensures
        final(header)@ == with_reference(old(header)@, which, path@),
{
    match which {
        Reference::Audio => {
            header.audio_path = path;
        },
        Reference::Video => {
            header.video_path = Some(path);
        },
        Reference::Cover => {
            header.cover_path = Some(path);
        },
        Reference::Background => {
            header.background_path = Some(path);
        },
    }
}

/// A byte that no 7-bit text holds; the no-break space of the Latin
/// encodings does not count as one.
pub open spec fn is_high(byte: u8) -> bool {
    byte >= 0x80 && byte != 0xa0
}

/// The bytes for which an encoding can be looked for: those that hold a high
/// byte, and those that hold no escape character. Text of seven bits with an
/// escape character in it is left out: the detector stops with a panic on
/// such text unless it is in one of the ISO-2022 encodings or in HZ.
pub open spec fn detectable(bytes: Seq<u8>) -> bool {
    (exists|i: int| 0 <= i < bytes.len() && is_high(#[trigger] bytes[i])) || (forall|i: int|
        0 <= i < bytes.len() ==> #[trigger] bytes[i] != 0x1b)
}

/// Whether an encoding can be looked for in `bytes`.
pub fn is_detectable(bytes: &[u8]) -> (b: bool)
    ensures
        b == detectable(bytes@),
{
    let mut escape = false;
    let mut i: usize = 0;
    while i < bytes.len()
        invariant
            i <= bytes.len(),
            forall|k: int| 0 <= k < i ==> !is_high(#[trigger] bytes@[k]),
            escape == exists|k: int| 0 <= k < i && #[trigger] bytes@[k] == 0x1b,
        decreases bytes.len() - i,
    {
        let byte = bytes[i];
        if byte >= 0x80 && byte != 0xa0 {
            return true;
        }
        if byte == 0x1b {
            escape = true;
        }
        i += 1;
    }
    !escape
}

/// The name of the character set that `chardet::detect` finds for the bytes;
/// the empty name where it finds none.
pub uninterp spec fn detected_charset(bytes: Seq<u8>) -> Seq<char>;

/// Whether `encoding::label::encoding_from_whatwg_label` knows an encoding of
/// this label.
pub uninterp spec fn encoding_known(label: Seq<char>) -> bool;

/// What the encoding of this label makes of the bytes when it decodes them
/// and passes over what it cannot decode: the text, or the decoder's message.
pub uninterp spec fn decoded(label: Seq<char>, bytes: Seq<u8>) -> Result<Seq<char>, Seq<char>>;

/// The label under which the encoding of a character set is looked up:
/// three character sets have a label of their own, any other is its own
/// label.
pub open spec fn whatwg_label(charset: Seq<char>) -> Seq<char> {
    if charset == "CP932"@ {
        "windows-31j"@
    } else if charset == "CP949"@ {
        "windows-949"@
    } else if charset == "MacCyrillic"@ {
        "x-mac-cyrillic"@
    } else {
        charset
    }
}

/// Calls `chardet::detect` and hands on the name of the character set, the
/// first part of its result. The contract gives that name a name. The
/// bytes that make the detector panic are left out.
#[verifier::external_body]
fn detect_charset(bytes: &[u8]) -> (charset: String)
    requires
        detectable(bytes@),
    ensures
        charset@ == detected_charset(bytes@),
{
    chardet::detect(bytes).0
}

/// Calls `chardet::charset2encoding`, which maps `CP932`, `CP949` and
/// `MacCyrillic` to the labels of their encodings and leaves any other name
/// as it is.
#[verifier::external_body]
fn charset_label(charset: &String) -> (label: String)
    ensures
        label@ == whatwg_label(charset@),
{
    chardet::charset2encoding(charset).to_string()
}

/// Calls `encoding::label::encoding_from_whatwg_label` and says whether it
/// found an encoding.
#[verifier::external_body]
fn label_is_known(label: &str) -> (known: bool)
    ensures
        known == encoding_known(label@),
{
    encoding::label::encoding_from_whatwg_label(label).is_some()
}

/// Calls `Encoding::decode` of the encoding that
/// `encoding::label::encoding_from_whatwg_label` gives for the label, with
/// the trap `DecoderTrap::Ignore`. The contract gives the result a name.
#[verifier::external_body]
fn decode_as(label: &str, bytes: &[u8]) -> (r: Result<String, String>)
    requires
        encoding_known(label@),
    ensures
        match r {
            Ok(text) => decoded(label@, bytes@) == Ok::<Seq<char>, Seq<char>>(text@),
            Err(msg) => decoded(label@, bytes@) == Err::<Seq<char>, Seq<char>>(msg@),
        },
{
    let codec = encoding::label::encoding_from_whatwg_label(label).unwrap();
    match codec.decode(bytes, encoding::DecoderTrap::Ignore) {
        Ok(text) => Ok(text),
        Err(msg) => Err(msg.into_owned()),
    }
}

/// What decoding makes of the bytes of a file: the text in the encoding
/// that was detected, or why there is none.
pub open spec fn text_of(bytes: Seq<u8>) -> Result<Seq<char>, ErrorView> {
    let label = whatwg_label(detected_charset(bytes));
    if !encoding_known(label) {
        Err(ErrorView::EncodingDetectionError)
    } else {
        match decoded(label, bytes) {
            Ok(text) => Ok(text),
            Err(msg) => Err(ErrorView::DecodingError { msg }),
        }
    }
}

/// Detects the encoding of the bytes of a file and decodes them.
pub fn decode_text(bytes: &[u8]) -> (r: Result<String, Error>)
    requires
        detectable(bytes@),
    ensures
        match r {
            Ok(text) => text_of(bytes@) == Ok::<Seq<char>, ErrorView>(text@),
            Err(e) => text_of(bytes@) == Err::<Seq<char>, ErrorView>(e@),
        },
{
    let charset = detect_charset(bytes);
    let label = charset_label(&charset);
    if !label_is_known(label.as_str()) {
        return Err(Error::EncodingDetectionError);
    }
    match decode_as(label.as_str(), bytes) {
        Ok(text) => Ok(text),
        Err(msg) => Err(Error::DecodingError { msg }),
    }
}

/// The song that a text holds, or why it holds none: the header is read
/// first, then the lyrics.
pub open spec fn song_of(text: Seq<char>) -> Result<TXTSongView, ErrorView> {
    match header_of(text) {
        Err(e) => Err(ErrorView::HeaderParsingError(e)),
        Ok(header) => match lyrics_of(text) {
            Err(e) => Err(ErrorView::LinesParsingError(e)),
            Ok(lines) => Ok(TXTSongView { header, lines }),
        },
    }
}

/// Parses the text of a song file.
pub fn parse_txt_str(text: &str) -> (r: Result<TXTSong, Error>)
    ensures
        match r {
            Ok(song) => song_of(text@) == Ok::<TXTSongView, ErrorView>(song@),
            Err(e) => song_of(text@) == Err::<TXTSongView, ErrorView>(e@),
        },
{
    let header = match parse_txt_header_str(text) {
        Ok(header) => header,
        Err(e) => {
            return Err(Error::HeaderParsingError(e));
        },
    };
    let lines = match parse_txt_lines_str(text) {
        Ok(lines) => lines,
        Err(e) => {
            return Err(Error::LinesParsingError(e));
        },
    };
    Ok(TXTSong { header, lines })
}

/// The song that the bytes of a file hold, or why they hold none.
pub open spec fn loaded(bytes: Seq<u8>) -> Result<TXTSongView, ErrorView> {
    match text_of(bytes) {
        Ok(text) => song_of(text),
        Err(e) => Err(e),
    }
}

/// Takes the bytes of a song file and returns the song: the bytes are
/// decoded in the encoding that is detected for them, and the text is parsed.
/// The references of the header are as the file gives them.
pub fn parse_txt_song(bytes: &[u8]) -> (r: Result<TXTSong, Error>)
    requires
        detectable(bytes@),
    ensures
        match r {
            Ok(song) => loaded(bytes@) == Ok::<TXTSongView, ErrorView>(song@),
            Err(e) => loaded(bytes@) == Err::<TXTSongView, ErrorView>(e@),
        },
{
    match decode_text(bytes) {
        Ok(text) => parse_txt_str(text.as_str()),
        Err(e) => Err(e),
    }
}

/// Takes the bytes of a song file and returns the song, as `parse_txt_song`
/// does; none for bytes in which no encoding can be looked for.
pub fn try_parse_txt_song(bytes: &[u8]) -> (r: Option<Result<TXTSong, Error>>)
    ensures
        r is Some == detectable(bytes@),
        r matches Some(outcome) ==> match outcome {
            Ok(song) => loaded(bytes@) == Ok::<TXTSongView, ErrorView>(song@),
            Err(e) => loaded(bytes@) == Err::<TXTSongView, ErrorView>(e@),
        },
{
    if is_detectable(bytes) {
        Some(parse_txt_song(bytes))
    } else {
        None
    }
}

} // verus!
