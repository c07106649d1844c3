use lyricweb::convert::{
    lyric_line_to_string, split_chorus, verses_to_entries, LyricLine, LyricSymbol, SymbolAlignment,
};
use lyricweb::types::{LyricEntry, VerseContent};

#[test]
fn lyric_line_empty() {
    assert_eq!(lyric_line_to_string(&LyricLine::new(vec![])), "");
}

#[test]
fn lyric_line_spaces() {
    assert_eq!(
        lyric_line_to_string(&LyricLine::new(vec![
            LyricSymbol::Space(" ".to_string()),
            LyricSymbol::Syllable("foo".to_string()),
            LyricSymbol::SymbolAlignment(SymbolAlignment::Skip),
            LyricSymbol::Syllable("bar".to_string()),
            LyricSymbol::Space("  ".to_string()),
            LyricSymbol::Syllable("ba".to_string()),
            LyricSymbol::SymbolAlignment(SymbolAlignment::Break),
            LyricSymbol::Space("  ".to_string()),
            LyricSymbol::Syllable("z".to_string()),
            LyricSymbol::Space(" ".to_string()),
        ])),
        "foobar baz"
    );
}

#[test]
fn lyric_line_ending_inside_a_word_gets_a_hyphen() {
    assert_eq!(
        lyric_line_to_string(&LyricLine::new(vec![
            LyricSymbol::Syllable("hal".to_string()),
            LyricSymbol::SymbolAlignment(SymbolAlignment::Break),
        ])),
        "hal-"
    );
}

#[test]
fn long_first_verse_yields_a_chorus() {
    let mut verses = vec![
        vec!["a".to_string(), "b".to_string(), "c1".to_string(), "c2".to_string()],
        vec!["d".to_string(), "e".to_string()],
        vec!["f".to_string()],
    ];
    let chorus = split_chorus(&mut verses);
    assert_eq!(verses[0], vec!["a".to_string(), "b".to_string()]);
    let entries = verses_to_entries(verses, chorus);
    let names: Vec<&str> = entries.iter().map(|e| e.name()).collect();
    assert_eq!(names, vec!["v1", "c", "v2", "v3"]);
    match &entries[1] {
        LyricEntry::Verse { lines, .. } => assert_eq!(
            lines[0].contents,
            vec![
                VerseContent::Text("c1".to_string()),
                VerseContent::Br,
                VerseContent::Text("c2".to_string()),
            ]
        ),
        LyricEntry::Instrument { .. } => panic!("expected a verse"),
    }

    let mut even = vec![vec!["a".to_string()], vec!["b".to_string()]];
    assert_eq!(split_chorus(&mut even), None);
    let mut single = vec![vec!["a".to_string(), "b".to_string()]];
    assert_eq!(split_chorus(&mut single), None);
    assert_eq!(single.len(), 1);
}
