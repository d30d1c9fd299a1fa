use ultrastar_txt::loader::canonicalize_path;
use ultrastar_txt::loader::decode_text;
use ultrastar_txt::loader::is_detectable;
use ultrastar_txt::loader::lookups_of;
use ultrastar_txt::loader::set_reference;
use ultrastar_txt::loader::try_parse_txt_song;
use ultrastar_txt::loader::Reference;
use ultrastar_txt::loader::parse_txt_song;
use ultrastar_txt::loader::parse_txt_str;
use ultrastar_txt::loader::path_is_local;
use ultrastar_txt::loader::Error;
use ultrastar_txt::parser::parse_txt_header_str;
use ultrastar_txt::structs::Line;
use ultrastar_txt::structs::Note;

const SONG: &str = "#TITLE:Song\n#ARTIST:Artist\n#MP3:song.mp3\n#BPM:100\n: 0 4 60 Hel\n: 4 4 62 lo\nE";

#[test]
fn reference_without_a_scheme_is_local() {
    assert!(path_is_local("song.mp3"));
    assert!(path_is_local("dir/song.mp3"));
    assert!(path_is_local("/abs/song.mp3"));
    assert!(path_is_local(""));
    assert!(path_is_local("a:/b"));
    assert!(path_is_local("a:b//c"));
    assert!(path_is_local("file://song.mp3"));
    assert!(path_is_local("file:///abs/song.mp3"));
    assert!(path_is_local("file://"));
    assert!(path_is_local("file://a://b"));
}

#[test]
fn reference_with_another_scheme_is_remote() {
    assert!(!path_is_local("http://example.org/song.mp3"));
    assert!(!path_is_local("https://example.org/song.mp3"));
    assert!(!path_is_local("://"));
    assert!(!path_is_local("x://"));
    assert!(!path_is_local("FILE://song.mp3"));
    assert!(!path_is_local(" file://song.mp3"));
    assert!(!path_is_local("file:/a://b"));
    assert!(!path_is_local("dir/a://b"));
}

#[test]
fn local_reference_is_looked_up_without_its_scheme() {
    assert_eq!(canonicalize_path("song.mp3"), Some(String::from("song.mp3")));
    assert_eq!(canonicalize_path("dir/s\u{f6}ng.mp3"), Some(String::from("dir/s\u{f6}ng.mp3")));
    assert_eq!(canonicalize_path(""), Some(String::from("")));
    assert_eq!(canonicalize_path("file://song.mp3"), Some(String::from("song.mp3")));
    assert_eq!(canonicalize_path("file://dir/s\u{f6}ng.mp3"), Some(String::from("dir/s\u{f6}ng.mp3")));
    assert_eq!(canonicalize_path("file://"), Some(String::from("")));
    assert_eq!(canonicalize_path("file://a://b"), Some(String::from("a://b")));
}

#[test]
fn remote_and_rooted_references_stay_as_they_are() {
    assert_eq!(canonicalize_path("http://example.org/song.mp3"), None);
    assert_eq!(canonicalize_path("file:///abs/song.mp3"), None);
    assert_eq!(canonicalize_path("file:///"), None);
    assert_eq!(canonicalize_path("x://file://y"), None);
}

#[test]
fn local_references_are_looked_up_in_their_order() {
    let header = parse_txt_header_str(
        "#TITLE:T\n#ARTIST:A\n#BPM:1\n#BACKGROUND:file://b.jpg\n#COVER:c.jpg\n\
         #VIDEO:https://example.org/v.avi\n#MP3:dir/a.mp3\n",
    )
    .unwrap();
    assert_eq!(
        lookups_of(&header),
        vec![
            (Reference::Audio, String::from("dir/a.mp3")),
            (Reference::Cover, String::from("c.jpg")),
            (Reference::Background, String::from("b.jpg")),
        ]
    );
    let header = parse_txt_header_str("#TITLE:T\n#ARTIST:A\n#BPM:1\n#MP3:file:///abs/a.mp3\n").unwrap();
    assert_eq!(lookups_of(&header), vec![]);
    let header =
        parse_txt_header_str("#TITLE:T\n#ARTIST:A\n#BPM:1\n#MP3:a.mp3\n#VIDEO:v.avi\n").unwrap();
    assert_eq!(
        lookups_of(&header),
        vec![(Reference::Audio, String::from("a.mp3")), (Reference::Video, String::from("v.avi"))]
    );
}

#[test]
fn found_file_takes_the_place_of_its_reference() {
    let before = parse_txt_header_str("#TITLE:T\n#ARTIST:A\n#BPM:1\n#MP3:a.mp3\n#GENRE:Pop\n").unwrap();
    let mut header = before.clone();
    set_reference(&mut header, Reference::Audio, String::from("/songs/a.mp3"));
    assert_eq!(header.audio_path, "/songs/a.mp3");
    set_reference(&mut header, Reference::Video, String::from("/songs/v.avi"));
    assert_eq!(header.video_path.as_deref(), Some("/songs/v.avi"));
    set_reference(&mut header, Reference::Cover, String::from("/songs/c.jpg"));
    assert_eq!(header.cover_path.as_deref(), Some("/songs/c.jpg"));
    set_reference(&mut header, Reference::Background, String::from("/songs/b.jpg"));
    assert_eq!(header.background_path.as_deref(), Some("/songs/b.jpg"));
    assert_eq!(header.title, before.title);
    assert_eq!(header.artist, before.artist);
    assert_eq!(header.bpm, before.bpm);
    assert_eq!(header.genre, before.genre);
    assert_eq!(header.unknown, before.unknown);
}

#[test]
fn text_is_parsed_to_a_song() {
    let song = parse_txt_str(SONG).unwrap();
    assert_eq!(song.header.title, "Song");
    assert_eq!(song.header.audio_path, "song.mp3");
    assert_eq!(
        song.lines,
        vec![Line {
            start: 0,
            rel: None,
            notes: vec![
                Note::Regular { start: 0, duration: 4, pitch: 60, text: String::from("Hel") },
                Note::Regular { start: 4, duration: 4, pitch: 62, text: String::from("lo") },
            ],
        }]
    );
}

#[test]
fn header_is_parsed_before_the_lyrics() {
    assert!(matches!(
        parse_txt_str("#TITLE:Song\n: 0 4 60 Hel\n"),
        Err(Error::HeaderParsingError(ultrastar_txt::parser::Error::MissingEssential))
    ));
    assert!(matches!(
        parse_txt_str("#TITLE:Song\n#ARTIST:Artist\n#MP3:song.mp3\n#BPM:100\n: 0 4 60 Hel\n"),
        Err(Error::LinesParsingError(ultrastar_txt::parser::Error::MissingEndIndicator))
    ));
    assert!(matches!(
        parse_txt_str("#TITLE:Song\n#ARTIST:Artist\n#MP3:song.mp3\n#BPM:100\n: 0 -4 60 Hel\nE"),
        Err(Error::LinesParsingError(ultrastar_txt::parser::Error::ValueError {
            line: 5,
            field: "note duration"
        }))
    ));
}

#[test]
fn plain_bytes_are_decoded_and_parsed() {
    assert!(is_detectable(SONG.as_bytes()));
    assert_eq!(decode_text(SONG.as_bytes()).unwrap(), SONG);
    let song = parse_txt_song(SONG.as_bytes()).unwrap();
    assert_eq!(song.header.artist, "Artist");
    assert_eq!(song.lines.len(), 1);
    assert_eq!(song.lines[0].notes.len(), 2);
}

#[test]
fn utf8_bytes_are_decoded() {
    let text = "#TITLE:\u{c4}rger \u{fc}ber \u{d6}l \u{2013} \u{65e5}\u{672c}\u{8a9e}\n#ARTIST:Bj\u{f6}rk\n\
                #MP3:s\u{f8}ng.mp3\n#BPM:100\n: 0 4 60 \u{e9}t\u{e9}\n: 4 4 62 na\u{ef}ve\nE";
    assert!(is_detectable(text.as_bytes()));
    assert_eq!(decode_text(text.as_bytes()).unwrap(), text);
    let song = parse_txt_song(text.as_bytes()).unwrap();
    assert_eq!(song.header.artist, "Bj\u{f6}rk");
    assert_eq!(
        song.lines[0].notes[0],
        Note::Regular { start: 0, duration: 4, pitch: 60, text: String::from("\u{e9}t\u{e9}") }
    );
}

#[test]
fn utf8_bytes_after_a_byte_order_mark_are_decoded() {
    let mut bytes = vec![0xef, 0xbb, 0xbf];
    bytes.extend_from_slice(SONG.as_bytes());
    assert!(is_detectable(&bytes));
    let text = decode_text(&bytes).unwrap();
    assert!(text.ends_with(SONG));
}

#[test]
fn bytes_of_no_encoding_are_refused() {
    assert!(is_detectable(&[]));
    assert!(matches!(decode_text(&[]), Err(Error::EncodingDetectionError)));
    assert!(matches!(parse_txt_song(&[]), Err(Error::EncodingDetectionError)));
}

#[test]
fn bytes_are_parsed_where_an_encoding_can_be_looked_for() {
    assert!(try_parse_txt_song(b"escape \x1b only").is_none());
    let song = try_parse_txt_song(SONG.as_bytes()).unwrap().unwrap();
    assert_eq!(song.header.title, "Song");
    assert!(matches!(try_parse_txt_song(&[]), Some(Err(Error::EncodingDetectionError))));
    assert!(matches!(
        try_parse_txt_song(b"#TITLE:Song\n"),
        Some(Err(Error::HeaderParsingError(ultrastar_txt::parser::Error::MissingEssential)))
    ));
}

#[test]
fn seven_bit_text_with_an_escape_is_left_out() {
    assert!(is_detectable(b"plain"));
    assert!(is_detectable(b"high \xe9"));
    assert!(is_detectable(b"escape \x1b and high \xe9"));
    assert!(is_detectable(b"\xc3\xa9 then escape \x1b"));
    assert!(!is_detectable(b"escape \x1b only"));
    assert!(!is_detectable(b"\x1b"));
    assert!(!is_detectable(b"escape \x1b and no-break space \xa0"));
    assert!(is_detectable(b"no-break space \xa0"));
}

const MAC_CYRILLIC: &[u8] = b"#TITLE:\x8f\xee\xe4\xec\xee\xf1\xea\xee\xe2\xed\xfb\xe5 \x82\xe5\xf7\xe5\xf0\xe0\n\
        #ARTIST:\x82\xeb\xe0\xe4\xe8\xec\xe8\xf0 \x92\xf0\xee\xf8\xe8\xed\n\
        #MP3:\x82\xe5\xf7\xe5\xf0\xe0.mp3\n\
        #BPM:120\n\
        : 0 4 60 \x8d\xe5 \n\
        : 4 4 62 \xf1\xeb\xfb\xf8\n\
        : 8 4 64 \xed\xfb \n\
        : 12 4 60 \xe2 \xf1\xe0\n\
        : 16 4 62 \xe4\xf3 \n\
        - 24\n\
        : 24 4 60 \x84\xe0\n\
        : 28 4 62 \xe6\xe5 \n\
        : 32 4 64 \xf8\xee\n\
        : 36 4 60 \xf0\xee\n\
        : 40 4 62 \xf5\xe8\n\
        - 48\n\
        : 48 4 60 \x82\xf1\xde \n\
        : 52 4 62 \x87\xe4\xe5\xf1\xfc \n\
        : 56 4 64 \x87\xe0\n\
        : 60 4 60 \xec\xe5\xf0\n\
        : 64 4 62 \xeb\xee \n\
        : 68 4 60 \x84\xee \n\
        : 72 4 62 \x93\xf2\n\
        : 76 4 64 \xf0\xe0\n\
        - 84\n\
        : 84 4 60 \x85\xf1\xeb\xe8 \n\
        : 88 4 62 \x81 \n\
        : 92 4 64 \x87\xed\xe0\xeb\xe8 \n\
        : 96 4 60 \x82\xfb \n\
        : 100 4 62 \x8a\xe0\xea \n\
        : 104 4 64 \x8c\xed\xe5 \n\
        : 108 4 60 \x84\xee\xf0\xee\xe3\xe8 \n\
        - 116\n\
        : 116 4 60 \x8f\xee\xe4\xec\xee\xf1\xea\xee\xe2\xed\xfb\xe5 \n\
        : 120 4 62 \x82\xe5\xf7\xe5\xf0\xe0\n\
        E";

const MAC_CYRILLIC_TEXT: &str = "#TITLE:\u{41f}\u{43e}\u{434}\u{43c}\u{43e}\u{441}\u{43a}\u{43e}\u{432}\u{43d}\u{44b}\u{435} \u{412}\u{435}\u{447}\u{435}\u{440}\u{430}\n\
        #ARTIST:\u{412}\u{43b}\u{430}\u{434}\u{438}\u{43c}\u{438}\u{440} \u{422}\u{440}\u{43e}\u{448}\u{438}\u{43d}\n\
        #MP3:\u{412}\u{435}\u{447}\u{435}\u{440}\u{430}.mp3\n\
        #BPM:120\n\
        : 0 4 60 \u{41d}\u{435} \n\
        : 4 4 62 \u{441}\u{43b}\u{44b}\u{448}\n\
        : 8 4 64 \u{43d}\u{44b} \n\
        : 12 4 60 \u{432} \u{441}\u{430}\n\
        : 16 4 62 \u{434}\u{443} \n\
        - 24\n\
        : 24 4 60 \u{414}\u{430}\n\
        : 28 4 62 \u{436}\u{435} \n\
        : 32 4 64 \u{448}\u{43e}\n\
        : 36 4 60 \u{440}\u{43e}\n\
        : 40 4 62 \u{445}\u{438}\n\
        - 48\n\
        : 48 4 60 \u{412}\u{441}\u{451} \n\
        : 52 4 62 \u{417}\u{434}\u{435}\u{441}\u{44c} \n\
        : 56 4 64 \u{417}\u{430}\n\
        : 60 4 60 \u{43c}\u{435}\u{440}\n\
        : 64 4 62 \u{43b}\u{43e} \n\
        : 68 4 60 \u{414}\u{43e} \n\
        : 72 4 62 \u{423}\u{442}\n\
        : 76 4 64 \u{440}\u{430}\n\
        - 84\n\
        : 84 4 60 \u{415}\u{441}\u{43b}\u{438} \n\
        : 88 4 62 \u{411} \n\
        : 92 4 64 \u{417}\u{43d}\u{430}\u{43b}\u{438} \n\
        : 96 4 60 \u{412}\u{44b} \n\
        : 100 4 62 \u{41a}\u{430}\u{43a} \n\
        : 104 4 64 \u{41c}\u{43d}\u{435} \n\
        : 108 4 60 \u{414}\u{43e}\u{440}\u{43e}\u{433}\u{438} \n\
        - 116\n\
        : 116 4 60 \u{41f}\u{43e}\u{434}\u{43c}\u{43e}\u{441}\u{43a}\u{43e}\u{432}\u{43d}\u{44b}\u{435} \n\
        : 120 4 62 \u{412}\u{435}\u{447}\u{435}\u{440}\u{430}\n\
        E";

#[test]
fn bytes_are_decoded_under_the_label_of_their_character_set() {
    assert_eq!(chardet::detect(MAC_CYRILLIC).0, "MacCyrillic");
    assert!(is_detectable(MAC_CYRILLIC));
    assert_eq!(decode_text(MAC_CYRILLIC).unwrap(), MAC_CYRILLIC_TEXT);
    let song = parse_txt_song(MAC_CYRILLIC).unwrap();
    assert_eq!(song.header.artist, "\u{412}\u{43b}\u{430}\u{434}\u{438}\u{43c}\u{438}\u{440} \u{422}\u{440}\u{43e}\u{448}\u{438}\u{43d}");
    assert_eq!(song.lines.len(), 5);
}
