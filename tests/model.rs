use lyricweb::slides::Slide;
use lyricweb::state::{Playlist, PlaylistEntry, SlideIndex, State};
use lyricweb::types::{Lines, LyricEntry, Lyrics, Properties, Song};
use std::collections::BTreeMap;

fn empty_lines() -> Lines {
    Lines {
        break_optional: None,
        part: None,
        repeat: None,
        contents: vec![],
    }
}

fn state_with(songs: Vec<(u32, Song)>, entries: Vec<PlaylistEntry>) -> State {
    let mut state = State::new();
    state.songs = songs.into_iter().collect::<BTreeMap<_, _>>();
    state.playlists.insert(
        0,
        Playlist {
            name: "Playlist".to_string(),
            entries,
        },
    );
    state
}

fn verse_and_instrument_song() -> Song {
    Song {
        properties: Properties::default(),
        lyrics: Lyrics {
            lyrics: vec![
                LyricEntry::Verse {
                    name: "v1".to_string(),
                    lang: None,
                    translit: None,
                    lines: vec![empty_lines(), empty_lines()],
                },
                LyricEntry::Instrument {
                    name: "i1".to_string(),
                    lines: vec![],
                },
            ],
        },
    }
}

fn index(entry_index: usize, page_index: usize) -> SlideIndex {
    SlideIndex {
        playlist_id: 0,
        entry_index,
        page_index,
    }
}

#[test]
fn slides_empty() {
    let state = state_with(vec![], vec![]);
    assert_eq!(state.slides(0), vec![]);
    assert_eq!(state.slide(index(0, 0)), None);
}

#[test]
fn slides_text() {
    let state = state_with(
        vec![],
        vec![
            PlaylistEntry::Text("foo".to_string()),
            PlaylistEntry::Text("bar".to_string()),
        ],
    );
    assert_eq!(
        state.slides(0),
        vec![
            (index(0, 0), Slide::Text("foo".to_string())),
            (index(1, 0), Slide::Text("bar".to_string())),
        ]
    );
    assert_eq!(state.slide(index(0, 0)), Some(Slide::Text("foo".to_string())));
    assert_eq!(state.slide(index(0, 1)), None);
    assert_eq!(state.slide(index(1, 0)), Some(Slide::Text("bar".to_string())));
    assert_eq!(state.slide(index(2, 0)), None);
}

#[test]
fn slides_song() {
    let state = state_with(
        vec![(0, verse_and_instrument_song())],
        vec![PlaylistEntry::Song { song_id: 0 }],
    );
    assert_eq!(
        state.slides(0),
        vec![
            (index(0, 0), Slide::SongStart { song_id: 0 }),
            (
                index(0, 1),
                Slide::Lyrics {
                    song_id: 0,
                    lyric_entry_index: 0,
                    lines_index: 0,
                    last_page: false,
                }
            ),
            (
                index(0, 2),
                Slide::Lyrics {
                    song_id: 0,
                    lyric_entry_index: 0,
                    lines_index: 1,
                    last_page: false,
                }
            ),
            (
                index(0, 3),
                Slide::Lyrics {
                    song_id: 0,
                    lyric_entry_index: 1,
                    lines_index: 0,
                    last_page: true,
                }
            ),
        ]
    );
    assert_eq!(
        state.slide(index(0, 0)),
        Some(Slide::SongStart { song_id: 0 })
    );
    assert_eq!(
        state.slide(index(0, 1)),
        Some(Slide::Lyrics {
            song_id: 0,
            lyric_entry_index: 0,
            lines_index: 0,
            last_page: false,
        })
    );
    assert_eq!(state.slide(index(0, 4)), None);
    assert_eq!(state.slide(index(1, 0)), None);
    assert_eq!(state.slide(index(1, 1)), None);
}

#[test]
fn find_entry() {
    let state = state_with(
        vec![(0, verse_and_instrument_song())],
        vec![
            PlaylistEntry::Song { song_id: 0 },
            PlaylistEntry::Text("Text".to_string()),
            PlaylistEntry::Song { song_id: 0 },
        ],
    );

    assert_eq!(state.slide_index_for_index(0, 0), Some(index(0, 0)));
    assert_eq!(state.slide_index_for_index(0, 1), Some(index(0, 1)));
    assert_eq!(state.slide_index_for_index(0, 2), Some(index(0, 2)));
    assert_eq!(state.slide_index_for_index(0, 3), Some(index(0, 3)));
    assert_eq!(state.slide_index_for_index(0, 4), Some(index(1, 0)));
    assert_eq!(state.slide_index_for_index(0, 5), Some(index(2, 0)));
}

#[test]
fn slide_index_past_end_and_unknown_playlist() {
    let state = state_with(
        vec![(0, verse_and_instrument_song())],
        vec![PlaylistEntry::Song { song_id: 0 }, PlaylistEntry::Text("Text".to_string())],
    );
    assert_eq!(state.slide_index_for_index(0, 5), None);
    assert_eq!(state.slide_index_for_index(7, 0), None);
    assert_eq!(state.slides(7), vec![]);
    assert_eq!(state.slide(SlideIndex { playlist_id: 7, entry_index: 0, page_index: 0 }), None);
}

#[test]
fn every_enumerated_slide_decodes_to_itself() {
    let mut song = verse_and_instrument_song();
    song.properties.verse_order = Some("i1 v1 x v1".to_string());
    let state = state_with(
        vec![(3, song)],
        vec![
            PlaylistEntry::Text("intro".to_string()),
            PlaylistEntry::Song { song_id: 3 },
            PlaylistEntry::Song { song_id: 9 },
        ],
    );
    let slides = state.slides(0);
    assert_eq!(slides.len(), 1 + 1 + 1 + 2 + 2);
    for (idx, slide) in &slides {
        assert_eq!(state.slide(*idx), Some(slide.clone()));
    }
    assert_eq!(state.slide(index(1, 6)), None);
    assert_eq!(state.slide(index(2, 0)), None);
}
