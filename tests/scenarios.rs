use lyricweb::content::{SlideContent, SlideLine};
use lyricweb::slides::{slides_for_song, Slide};
use lyricweb::state::{Playlist, PlaylistEntry, SlideIndex, State};
use lyricweb::types::{
    Author, Authors, Lines, LyricEntry, Lyrics, Properties, Song, Title, Titles, VerseContent,
};

fn page(text: &str) -> Lines {
    Lines {
        break_optional: None,
        part: None,
        repeat: None,
        contents: vec![VerseContent::Text(text.to_string())],
    }
}

fn verse(name: &str, pages: Vec<Lines>) -> LyricEntry {
    LyricEntry::Verse {
        name: name.to_string(),
        lang: None,
        translit: None,
        lines: pages,
    }
}

fn song(title: &str, entries: Vec<LyricEntry>) -> Song {
    Song {
        properties: Properties {
            titles: Titles {
                titles: vec![Title {
                    title: title.to_string(),
                    ..Default::default()
                }],
            },
            ..Default::default()
        },
        lyrics: Lyrics { lyrics: entries },
    }
}

fn lyrics_slide(entry: usize, page: usize, last: bool) -> Slide {
    Slide::Lyrics {
        song_id: 1,
        lyric_entry_index: entry,
        lines_index: page,
        last_page: last,
    }
}

#[test]
fn verse_order_repeats_chorus() {
    let mut s = song(
        "Song",
        vec![
            verse("v1", vec![page("one")]),
            verse("c", vec![page("chorus")]),
            verse("v2", vec![page("two")]),
        ],
    );
    s.properties.verse_order = Some("v1 c v2 c".to_string());
    assert_eq!(
        slides_for_song(1, &s),
        vec![
            Slide::SongStart { song_id: 1 },
            lyrics_slide(0, 0, false),
            lyrics_slide(1, 0, false),
            lyrics_slide(2, 0, false),
            lyrics_slide(1, 0, true),
        ]
    );
}

#[test]
fn unmatched_verse_order_leaves_only_start_page() {
    let mut s = song("Song", vec![verse("v1", vec![page("one")])]);
    s.properties.verse_order = Some("x y".to_string());
    assert_eq!(slides_for_song(1, &s), vec![Slide::SongStart { song_id: 1 }]);
}

#[test]
fn expansion_count_without_and_with_verse_order() {
    let mut s = song(
        "Song",
        vec![
            verse("v1", vec![page("a"), page("b")]),
            verse("v2", vec![page("c"), page("d"), page("e")]),
            LyricEntry::Instrument {
                name: "i".to_string(),
                lines: vec![],
            },
        ],
    );
    assert_eq!(slides_for_song(1, &s).len(), 1 + 2 + 3 + 1);
    s.properties.verse_order = Some("v2 i v2 missing".to_string());
    assert_eq!(slides_for_song(1, &s).len(), 1 + 3 + 1 + 3);
}

#[test]
fn exactly_one_last_page_at_the_end() {
    let mut s = song(
        "Song",
        vec![verse("v1", vec![page("a"), page("b")]), verse("c", vec![page("c")])],
    );
    s.properties.verse_order = Some("c v1 c".to_string());
    let slides = slides_for_song(1, &s);
    let marked: Vec<usize> = slides
        .iter()
        .enumerate()
        .filter(|(_, slide)| matches!(slide, Slide::Lyrics { last_page: true, .. }))
        .map(|(i, _)| i)
        .collect();
    assert_eq!(marked, vec![slides.len() - 1]);
}

#[test]
fn adding_a_song_twice_gives_the_same_id() {
    let mut state = State::new();
    let s = song("Song", vec![verse("v1", vec![page("one")])]);
    let other = song("Other", vec![]);
    assert_eq!(state.add_song(other), 0);
    let first = state.add_song(s.clone());
    let second = state.add_song(s.clone());
    assert_eq!(first, 1);
    assert_eq!(second, first);
    assert_eq!(state.songs.len(), 2);
}

#[test]
fn removing_a_song_rewrites_references() {
    let mut state = State::new();
    let id = state.add_song(song("Song", vec![verse("v1", vec![page("one")])]));
    let keep = state.add_song(song("Keep", vec![]));
    state.add_playlist(Playlist {
        name: "A".to_string(),
        entries: vec![
            PlaylistEntry::Song { song_id: id },
            PlaylistEntry::Text("t".to_string()),
            PlaylistEntry::Song { song_id: keep },
        ],
    });
    state.add_playlist(Playlist {
        name: "B".to_string(),
        entries: vec![PlaylistEntry::Song { song_id: id }],
    });
    state.remove_song(id);
    assert!(!state.songs.contains_key(&id));
    assert_eq!(
        state.playlists[&0].entries,
        vec![
            PlaylistEntry::Text("Song removed".to_string()),
            PlaylistEntry::Text("t".to_string()),
            PlaylistEntry::Song { song_id: keep },
        ]
    );
    assert_eq!(
        state.playlists[&1].entries,
        vec![PlaylistEntry::Text("Song removed".to_string())]
    );
    assert_eq!(state.slides(1).len(), 1);
    state.remove_song(42);
    assert_eq!(state.songs.len(), 1);
}

#[test]
fn moving_entries_within_bounds_only() {
    let mut state = State::new();
    let entries = vec![
        PlaylistEntry::Text("a".to_string()),
        PlaylistEntry::Text("b".to_string()),
        PlaylistEntry::Text("c".to_string()),
    ];
    let id = state.add_playlist(Playlist {
        name: "P".to_string(),
        entries: entries.clone(),
    });
    assert!(!state.move_entry_index(id, 0, -1));
    assert!(!state.move_entry_index(id, 2, 1));
    assert!(!state.move_entry_index(id, 3, -1));
    assert!(!state.move_entry_index(id + 1, 0, 1));
    assert_eq!(state.playlists[&id].entries, entries);
    assert!(state.move_entry_index(id, 0, 2));
    assert_eq!(
        state.playlists[&id].entries,
        vec![
            PlaylistEntry::Text("c".to_string()),
            PlaylistEntry::Text("b".to_string()),
            PlaylistEntry::Text("a".to_string()),
        ]
    );
}

#[test]
fn merge_into_empty_state_remaps_song_ids() {
    let mut other = State::new();
    other.songs.insert(5, song("X", vec![verse("v1", vec![page("one")])]));
    other.playlists.insert(
        3,
        Playlist {
            name: "P".to_string(),
            entries: vec![PlaylistEntry::Song { song_id: 5 }],
        },
    );
    other.theme.body_size = 9;
    let mut state = State::new();
    state.merge(other);
    assert_eq!(state.songs.len(), 1);
    assert!(state.songs.contains_key(&0));
    assert_eq!(state.playlists.len(), 1);
    assert_eq!(
        state.playlists[&0].entries,
        vec![PlaylistEntry::Song { song_id: 0 }]
    );
    assert_eq!(state.theme.body_size, 9);
}

#[test]
fn merging_twice_adds_nothing_new() {
    let mut other = State::new();
    other.songs.insert(5, song("X", vec![]));
    other.playlists.insert(
        3,
        Playlist {
            name: "P".to_string(),
            entries: vec![
                PlaylistEntry::Song { song_id: 5 },
                PlaylistEntry::Song { song_id: 7 },
            ],
        },
    );
    let mut state = State::new();
    state.add_song(song("Y", vec![]));
    state.merge(other.clone());
    state.merge(other);
    assert_eq!(state.songs.len(), 2);
    assert_eq!(state.playlists.len(), 1);
    assert_eq!(
        state.playlists[&0].entries,
        vec![
            PlaylistEntry::Song { song_id: 1 },
            PlaylistEntry::Text("Invalid song id 7".to_string()),
        ]
    );
}

fn single_song_state(s: Song) -> State {
    let mut state = State::new();
    state.songs.insert(1, s);
    state.playlists.insert(
        0,
        Playlist {
            name: "P".to_string(),
            entries: vec![PlaylistEntry::Song { song_id: 1 }],
        },
    );
    state
}

fn texts(content: &SlideContent) -> Vec<String> {
    content.lines.iter().map(|line| line.text.clone()).collect()
}

#[test]
fn verse_number_prefix_on_first_page_only() {
    let mut s = song(
        "Song",
        vec![
            verse("v3", vec![page("First line"), page("Second page")]),
            verse("c", vec![page("Chorus")]),
        ],
    );
    s.properties.authors = Authors {
        authors: vec![
            Author {
                author_type: Some("words".to_string()),
                lang: None,
                name: "Ann".to_string(),
            },
            Author {
                author_type: None,
                lang: None,
                name: "Bob".to_string(),
            },
        ],
    };
    let state = single_song_state(s);
    let first = SlideContent::for_index(&state, SlideIndex { playlist_id: 0, entry_index: 0, page_index: 1 }).unwrap();
    assert_eq!(texts(&first), vec!["3. First line".to_string()]);
    assert_eq!(first.title, Some("Song".to_string()));
    assert_eq!(first.credit, None);
    let second = SlideContent::for_index(&state, SlideIndex { playlist_id: 0, entry_index: 0, page_index: 2 }).unwrap();
    assert_eq!(texts(&second), vec!["Second page".to_string()]);
    assert_eq!(second.title, None);
    let chorus = SlideContent::for_index(&state, SlideIndex { playlist_id: 0, entry_index: 0, page_index: 3 }).unwrap();
    assert_eq!(texts(&chorus), vec!["Chorus".to_string()]);
    assert_eq!(chorus.credit, Some("Ann (words), Bob".to_string()));
    assert_eq!(
        SlideContent::for_index(&state, SlideIndex { playlist_id: 0, entry_index: 0, page_index: 0 }),
        None
    );
}

#[test]
fn part_repeat_and_instrumental_lines() {
    let mut p = page("Sing");
    p.part = Some("men".to_string());
    p.repeat = Some(3);
    let s = song(
        "Song",
        vec![
            verse("b", vec![p]),
            LyricEntry::Instrument {
                name: "i1".to_string(),
                lines: vec![],
            },
        ],
    );
    let state = single_song_state(s);
    let content = SlideContent::for_slide(
        &state,
        &Slide::Lyrics { song_id: 1, lyric_entry_index: 0, lines_index: 0, last_page: false },
    )
    .unwrap();
    assert_eq!(
        content.lines,
        vec![
            SlideLine { text: "(men)".to_string(), bold: true, italic: false },
            SlideLine { text: "Sing".to_string(), bold: false, italic: false },
            SlideLine { text: "x3".to_string(), bold: true, italic: false },
        ]
    );
    let instrumental = SlideContent::for_slide(
        &state,
        &Slide::Lyrics { song_id: 1, lyric_entry_index: 1, lines_index: 0, last_page: true },
    )
    .unwrap();
    assert_eq!(texts(&instrumental), vec!["(instrumental i1)".to_string()]);
    assert_eq!(instrumental.credit, Some("".to_string()));
    let text = SlideContent::for_slide(&state, &Slide::Text("hello".to_string())).unwrap();
    assert_eq!(texts(&text), vec!["hello".to_string()]);
    assert_eq!(text.title, None);
    assert_eq!(text.theme, state.theme);
    assert_eq!(
        SlideContent::for_slide(
            &state,
            &Slide::Lyrics { song_id: 2, lyric_entry_index: 0, lines_index: 0, last_page: false }
        ),
        None
    );
}

#[test]
fn removing_entries_moves_the_selection() {
    let mut state = State::new();
    let id = state.add_playlist(Playlist {
        name: "P".to_string(),
        entries: vec![
            PlaylistEntry::Text("a".to_string()),
            PlaylistEntry::Text("b".to_string()),
        ],
    });
    let last = SlideIndex { playlist_id: id, entry_index: 1, page_index: 3 };
    assert_eq!(
        state.remove_entry(last),
        Some(SlideIndex { playlist_id: id, entry_index: 0, page_index: 0 })
    );
    assert_eq!(state.playlists[&id].entries, vec![PlaylistEntry::Text("a".to_string())]);
    assert_eq!(state.remove_entry(SlideIndex { playlist_id: id, entry_index: 5, page_index: 0 }), None);
    assert_eq!(state.playlists[&id].entries.len(), 1);
    assert_eq!(state.remove_entry(SlideIndex { playlist_id: id, entry_index: 0, page_index: 0 }), None);
    assert!(state.playlists[&id].entries.is_empty());
}

#[test]
fn removing_a_playlist_selects_the_first_left() {
    let mut state = State::new();
    let a = state.add_playlist(Playlist::new("a"));
    let b = state.add_playlist(Playlist::new("b"));
    let c = state.add_playlist(Playlist::new("c"));
    assert_eq!(state.remove_playlist(a), Some(b));
    assert_eq!(state.remove_playlist(c), Some(b));
    assert_eq!(state.remove_playlist(b), None);
    assert!(state.playlists.is_empty());
}

#[test]
fn songs_listed_by_title() {
    let mut state = State::new();
    state.add_song(song("Zebra", vec![]));
    state.add_song(song("Apple", vec![verse("v1", vec![page("x")])]));
    state.add_song(song("Mango", vec![]));
    let listed: Vec<(u32, String)> = state
        .songs_by_title()
        .into_iter()
        .map(|(id, s)| (id, s.properties.titles.titles[0].title.clone()))
        .collect();
    assert_eq!(
        listed,
        vec![(1, "Apple".to_string()), (2, "Mango".to_string()), (0, "Zebra".to_string())]
    );
    assert_eq!(state.songs.len(), 3);
}
