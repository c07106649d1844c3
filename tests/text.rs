use lyricweb::convert::{abc_author, lines_to_open_lyrics, make_verse};
use lyricweb::lyrics::{
    authors_as_string, first_line, lyrics_as_text, set_authors_from_string, simplify_contents,
    song_matches_filter, title_for_song,
};
use lyricweb::state::{ParseSlideIndexError, SlideIndex};
use lyricweb::types::{
    Author, LyricEntry, Lines, Lyrics, Properties, Song, Title, Titles, VerseContent,
};

fn text(s: &str) -> VerseContent {
    VerseContent::Text(s.to_string())
}

fn titled(title: &str) -> Song {
    Song {
        properties: Properties {
            titles: Titles {
                titles: vec![Title {
                    title: title.to_string(),
                    ..Default::default()
                }],
            },
            ..Default::default()
        },
        lyrics: Lyrics::default(),
    }
}

#[test]
fn simplify_collapses_white_space_and_follows_breaks() {
    let contents = vec![
        text("\n   First  line "),
        VerseContent::Comment("Some comment".to_string()),
        VerseContent::Chord {
            name: Some("G".to_string()),
            root: None,
            bass: None,
            structure: None,
            upbeat: None,
            contents: vec![text("and"), text(" more ")],
        },
        VerseContent::Br,
        VerseContent::Tag {
            name: "b".to_string(),
            contents: vec![text("Second\tline")],
        },
    ];
    assert_eq!(
        simplify_contents(&contents),
        vec!["First  line andmore".to_string(), "Second line".to_string()]
    );
    assert_eq!(simplify_contents(&vec![]), Vec::<String>::new());
    assert_eq!(simplify_contents(&vec![VerseContent::Br]), vec!["".to_string()]);
}

#[test]
fn authors_round_trip_through_text() {
    let mut song = titled("Song");
    set_authors_from_string(&mut song, " Ann (words) , Bob,Cy (music))");
    assert_eq!(
        song.properties.authors.authors,
        vec![
            Author { author_type: Some("words".to_string()), lang: None, name: "Ann".to_string() },
            Author { author_type: None, lang: None, name: "Bob".to_string() },
            Author { author_type: Some("music".to_string()), lang: None, name: "Cy".to_string() },
        ]
    );
    assert_eq!(authors_as_string(&song), "Ann (words), Bob, Cy (music)");
    assert_eq!(title_for_song(&song), "Song");
}

#[test]
fn lyrics_text_lists_verses() {
    let mut song = titled("Song");
    song.lyrics.lyrics = vec![
        LyricEntry::Verse {
            name: "v1".to_string(),
            lang: None,
            translit: None,
            lines: vec![Lines {
                contents: vec![text("a"), VerseContent::Br, text("b")],
                ..Default::default()
            }],
        },
        LyricEntry::Instrument { name: "i".to_string(), lines: vec![] },
        LyricEntry::Verse {
            name: "c".to_string(),
            lang: None,
            translit: None,
            lines: vec![Lines { contents: vec![text("x")], ..Default::default() }],
        },
    ];
    assert_eq!(lyrics_as_text(&song), "v1:\na\nb\n\nc:\nx\n");
    assert_eq!(first_line(&song, 0, 0), Some("a".to_string()));
    assert_eq!(first_line(&song, 1, 0), None);
    assert_eq!(first_line(&song, 0, 1), None);
    assert_eq!(first_line(&song, 5, 0), None);
}

#[test]
fn filter_ignores_case() {
    let song = titled("Amazing Grace");
    assert!(song_matches_filter(&song, "GRACE"));
    assert!(song_matches_filter(&song, "zing g"));
    assert!(song_matches_filter(&song, ""));
    assert!(!song_matches_filter(&song, "graces"));
}

#[test]
fn slide_index_text_form() {
    let idx = SlideIndex { playlist_id: 3, entry_index: 40, page_index: 0 };
    assert_eq!(idx.to_string(), "3,40,0");
    assert_eq!("3,40,0".parse::<SlideIndex>(), Ok(idx));
    assert_eq!(
        SlideIndex::parse("+1,2,3"),
        Ok(SlideIndex { playlist_id: 1, entry_index: 2, page_index: 3 })
    );
    assert_eq!(SlideIndex::parse("1,2"), Err(ParseSlideIndexError::MissingComma));
    assert_eq!(SlideIndex::parse(""), Err(ParseSlideIndexError::MissingComma));
    assert!(matches!(SlideIndex::parse("a,2,3"), Err(ParseSlideIndexError::ParseInt(_))));
    assert!(matches!(SlideIndex::parse("1,2,3,4"), Err(ParseSlideIndexError::ParseInt(_))));
    assert!(matches!(SlideIndex::parse("4294967296,0,0"), Err(ParseSlideIndexError::ParseInt(_))));
    assert!(matches!(SlideIndex::parse("1, 2,3"), Err(ParseSlideIndexError::ParseInt(_))));
}

#[test]
fn converted_lines_skip_empty_ones() {
    let lines = lines_to_open_lyrics(vec!["a".to_string(), "".to_string(), "b".to_string()]);
    assert_eq!(lines.contents, vec![text("a"), VerseContent::Br, text("b")]);
    assert_eq!(lines.part, None);
    assert_eq!(lines_to_open_lyrics(vec![]).contents, vec![]);
    match make_verse("v2".to_string(), vec!["x".to_string()]) {
        LyricEntry::Verse { name, lines, .. } => {
            assert_eq!(name, "v2");
            assert_eq!(lines.len(), 1);
            assert_eq!(lines[0].contents, vec![text("x")]);
        }
        LyricEntry::Instrument { .. } => panic!("expected a verse"),
    }
    assert_eq!(abc_author("words", "none"), None);
    assert_eq!(
        abc_author("music", "Ann"),
        Some(Author { author_type: Some("music".to_string()), lang: None, name: "Ann".to_string() })
    );
}
