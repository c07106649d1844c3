//! Building blocks for turning lyrics read from other formats into the song model.
use vstd::prelude::*;
use crate::lyrics::views;
use crate::slides::chars_eq;
use crate::text::{append_decimal, chars_of, decimal, trim, trimmed};
use crate::types::{Author, Lines, LyricEntry, VerseContent};

verus! {

broadcast use vstd::string::group_string_axioms;

/// The non-empty lines, in order.
pub open spec fn kept_lines(v: Seq<Seq<char>>) -> Seq<Seq<char>>
    decreases v.len(),
{
    if v.len() == 0 {
        seq![]
    } else if v.last().len() == 0 {
        kept_lines(v.drop_last())
    } else {
        kept_lines(v.drop_last()).push(v.last())
    }
}

/// `c` holds the lines as text runs, with a line break between each two.
pub open spec fn runs_of(c: Seq<VerseContent>, lines: Seq<Seq<char>>) -> bool {
    &&& lines.len() == 0 ==> c.len() == 0
    &&& lines.len() > 0 ==> c.len() == 2 * lines.len() - 1
    &&& forall|i: int|
        0 <= i < lines.len() ==> (#[trigger] c[2 * i]) is Text && c[2 * i]->Text_0@ == lines[i]
    &&& forall|i: int| 0 <= i < lines.len() - 1 ==> (#[trigger] c[2 * i + 1]) is Br
}

/// Converts the lines of a verse to one page of lyrics: the non-empty lines as text runs
/// separated by line breaks, with no other attribute.
pub fn lines_to_open_lyrics(verse_lyrics: Vec<String>) -> (r: Lines)
    ensures
        runs_of(r.contents@, kept_lines(views(verse_lyrics@))),
        r.break_optional is None && r.part is None && r.repeat is None,
{
    let ghost all = views(verse_lyrics@);
    let mut contents: Vec<VerseContent> = Vec::new();
    let mut i: usize = 0;
    assert(all.take(0) =~= Seq::<Seq<char>>::empty());
    while i < verse_lyrics.len()
        invariant
            i <= verse_lyrics.len(),
            all == views(verse_lyrics@),
            runs_of(contents@, kept_lines(all.take(i as int))),
        decreases verse_lyrics.len() - i,
    {
        assert(all.take(i + 1).drop_last() =~= all.take(i as int));
        assert(all[i as int] == verse_lyrics@[i as int]@);
        let line = &verse_lyrics[i];
        if !line.as_str().is_empty() {
            let ghost before = contents@;
            let ghost kept = kept_lines(all.take(i as int));
            if contents.len() != 0 {
                contents.push(VerseContent::Br);
            }
            contents.push(VerseContent::Text(line.clone()));
            proof {
                let now = kept.push(line@);
                assert(kept_lines(all.take(i + 1)) == now);
                assert forall|k: int| 0 <= k < now.len() implies (#[trigger] contents@[2 * k]) is Text
                    && contents@[2 * k]->Text_0@ == now[k] by {
                    if k < kept.len() {
                        assert(contents@[2 * k] == before[2 * k]);
                    }
                }
                assert forall|k: int| 0 <= k < now.len() - 1 implies (#[trigger] contents@[2 * k
                    + 1]) is Br by {
                    if k < kept.len() - 1 {
                        assert(contents@[2 * k + 1] == before[2 * k + 1]);
                    }
                }
            }
        }
        i += 1;
    }
    assert(all.take(verse_lyrics.len() as int) =~= all);
    Lines { break_optional: None, part: None, repeat: None, contents }
}

/// Returns a verse with the given name and a single page made of the given lines.
pub fn make_verse(name: String, lines: Vec<String>) -> (r: LyricEntry)
    ensures
        r matches LyricEntry::Verse { name: n, lang, translit, lines: pages } && n == name
            && lang is None && translit is None && pages.len() == 1 && runs_of(
            pages@[0].contents@,
            kept_lines(views(lines@)),
        ),
{
    let page = lines_to_open_lyrics(lines);
    let mut pages: Vec<Lines> = Vec::new();
    pages.push(page);
    LyricEntry::Verse { name, lines: pages, lang: None, translit: None }
}

/// Returns an author with the given kind of contribution, or `None` where the name is the
/// literal "none".
pub fn abc_author(author_type: &str, name: &str) -> (r: Option<Author>)
    ensures
        name@ == "none"@ ==> r is None,
        name@ != "none"@ ==> (r matches Some(a) && a.name@ == name@ && a.lang is None
            && (a.author_type matches Some(t) && t@ == author_type@)),
{
    let none = chars_of("none");
    if chars_eq(&chars_of(name), &none) {
        None
    } else {
        Some(
            Author {
                author_type: Some(author_type.to_string()),
                lang: None,
                name: name.to_string(),
            },
        )
    }
}

/// How a lyric symbol of ABC notation is aligned to the notes.
#[derive(Clone, Copy, Debug, PartialEq, Eq)]
pub enum SymbolAlignment {
    /// A break between syllables within a word.
    Break,
    /// The previous syllable is held for an extra note.
    Extend,
    /// One note is skipped.
    Skip,
    /// Appears as a space; aligns several words under one note.
    Space,
    /// Appears as a hyphen; aligns several syllables under one note.
    Hyphen,
    /// Advances to the next bar.
    Bar,
}

/// One symbol of a lyric line of ABC notation.
#[derive(Clone, Debug, PartialEq)]
pub enum LyricSymbol {
    Syllable(String),
    SymbolAlignment(SymbolAlignment),
    Space(String),
}

/// A lyric line of ABC notation.
#[derive(Clone, Debug, PartialEq)]
pub struct LyricLine {
    pub symbols: Vec<LyricSymbol>,
}

impl LyricLine {
    pub fn new(symbols: Vec<LyricSymbol>) -> (r: LyricLine)
        ensures
            r.symbols == symbols,
    {
        LyricLine { symbols }
    }
}

/// The text assembled from the symbols, and whether a space may follow it: syllables are
/// appended, a space is kept only after a syllable, and a break forbids the next space.
pub open spec fn assembled(symbols: Seq<LyricSymbol>) -> (Seq<char>, bool)
    decreases symbols.len(),
{
    if symbols.len() == 0 {
        (Seq::empty(), false)
    } else {
        let (line, spaced) = assembled(symbols.drop_last());
        match symbols.last() {
            LyricSymbol::Syllable(s) => (line + s@, true),
            LyricSymbol::Space(_) => if spaced {
                (line.push(' '), false)
            } else {
                (line, false)
            },
            LyricSymbol::SymbolAlignment(SymbolAlignment::Break) => (line, false),
            LyricSymbol::SymbolAlignment(_) => (line, spaced),
        }
    }
}

/// The text of a lyric line: the assembled text, with a hyphen appended where it ends inside a
/// word, trimmed.
pub open spec fn lyric_text(symbols: Seq<LyricSymbol>) -> Seq<char> {
    let (line, spaced) = assembled(symbols);
    let ends_in_space = line.len() > 0 && line.last() == ' ';
    trim(
        if !spaced && !ends_in_space && line.len() > 0 {
            line.push('-')
        } else {
            line
        },
    )
}

/// Returns the text of a lyric line of ABC notation.
pub fn lyric_line_to_string(lyric_line: &LyricLine) -> (r: String)
    ensures
        r@ == lyric_text(lyric_line.symbols@),
{
    let symbols = &lyric_line.symbols;
    let mut line = String::new();
    let mut include_space = false;
    let mut last_is_space = false;
    let mut i: usize = 0;
    assert(symbols@.take(0) =~= Seq::<LyricSymbol>::empty());
    while i < symbols.len()
        invariant
            i <= symbols.len(),
            (line@, include_space) == assembled(symbols@.take(i as int)),
            last_is_space == (line@.len() > 0 && line@.last() == ' '),
        decreases symbols.len() - i,
    {
        assert(symbols@.take(i + 1).drop_last() =~= symbols@.take(i as int));
        match &symbols[i] {
            LyricSymbol::Syllable(syllable) => {
                let cs = chars_of(syllable.as_str());
                line.append(syllable.as_str());
                if cs.len() > 0 {
                    last_is_space = cs[cs.len() - 1] == ' ';
                }
                include_space = true;
            },
            LyricSymbol::Space(_) => {
                if include_space {
                    line.append(" ");
                    proof {
                        reveal_strlit(" ");
                    }
                    last_is_space = true;
                    include_space = false;
                }
            },
            LyricSymbol::SymbolAlignment(SymbolAlignment::Break) => {
                include_space = false;
            },
            LyricSymbol::SymbolAlignment(_) => {},
        }
        i += 1;
    }
    assert(symbols@.take(symbols.len() as int) =~= symbols@);
    let ghost before = line@;
    if !include_space && !last_is_space && !line.as_str().is_empty() {
        line.append("-");
        proof {
            reveal_strlit("-");
        }
        assert(line@ =~= before.push('-'));
    }
    assert(line@ == if !include_space && !(before.len() > 0 && before.last() == ' ')
        && before.len() > 0 {
        before.push('-')
    } else {
        before
    });
    trimmed(line.as_str())
}

/// The largest line count among the verses from index `i` on, or 0 if there are none.
pub open spec fn max_lines_from(verses: Seq<Vec<String>>, i: int) -> nat
    decreases verses.len() - i,
{
    if i < 0 || i >= verses.len() {
        0
    } else {
        let rest = max_lines_from(verses, i + 1);
        if verses[i].len() > rest {
            verses[i].len() as nat
        } else {
            rest
        }
    }
}

/// The first verse has more lines than every other verse, and there is another verse.
pub open spec fn first_verse_longer(verses: Seq<Vec<String>>) -> bool {
    verses.len() >= 2 && verses[0].len() > max_lines_from(verses, 1)
}

/// Where the first of several verses is longer than all the others, its lines beyond the
/// longest other verse are taken out of it and returned as a chorus named "c"; otherwise the
/// verses are left as they are and there is no chorus.
pub fn split_chorus(verses: &mut Vec<Vec<String>>) -> (r: Option<LyricEntry>)
    ensures
        !first_verse_longer(old(verses)@) ==> r is None && final(verses)@ == old(verses)@,
        first_verse_longer(old(verses)@) ==> {
            let keep = max_lines_from(old(verses)@, 1) as int;
            &&& final(verses)@ == old(verses)@.update(
                0,
                final(verses)@[0],
            )
            &&& final(verses)@[0]@ == old(verses)@[0]@.take(keep)
            &&& r matches Some(LyricEntry::Verse { name, lang, translit, lines })
            &&& name@ == "c"@ && lang is None && translit is None && lines.len() == 1
            &&& runs_of(lines@[0].contents@, kept_lines(views(old(verses)@[0]@.skip(keep))))
        },
{
    if verses.len() < 2 {
        return None;
    }
    let mut rest_max: usize = 0;
    let mut i: usize = verses.len();
    while i > 1
        invariant
            1 <= i <= verses.len(),
            rest_max == max_lines_from(verses@, i as int),
        decreases i,
    {
        i -= 1;
        if verses[i].len() > rest_max {
            rest_max = verses[i].len();
        }
    }
    if verses[0].len() <= rest_max {
        return None;
    }
    let ghost before = verses@;
    let mut first = verses.remove(0);
    let tail = first.split_off(rest_max);
    verses.insert(0, first);
    proof {
        reveal_strlit("c");
    }
    let chorus = make_verse("c".to_string(), tail);
    assert(verses@ =~= before.update(0, verses@[0]));
    Some(chorus)
}

/// The entries for the verses of a tune: verse `i` (from 0) becomes a verse named `v` and the
/// number `i + 1`, with the chorus, if there is one, placed second.
pub fn verses_to_entries(verses: Vec<Vec<String>>, chorus: Option<LyricEntry>) -> (r: Vec<
    LyricEntry,
>)
    requires
        chorus is Some ==> verses.len() >= 1,
    ensures
        r.len() == verses.len() + if chorus is Some {
            1int
        } else {
            0int
        },
        forall|i: int|
            0 <= i < verses.len() ==> {
                let at = if i > 0 && chorus is Some {
                    i + 1
                } else {
                    i
                };
                &&& r@[at] matches LyricEntry::Verse { name, lines, .. }
                &&& name@ == "v"@ + decimal((i + 1) as nat)
                &&& lines.len() == 1
                &&& runs_of(lines@[0].contents@, kept_lines(views((#[trigger] verses@[i])@)))
            },
        chorus matches Some(c) ==> r@[1] == c,
{
    let ghost all = verses@;
    let mut verses = verses;
    let mut out: Vec<LyricEntry> = Vec::new();
    let n = verses.len();
    let mut i: usize = 0;
    while i < n
        invariant
            i <= n == all.len(),
            verses@ == all.skip(i as int),
            out.len() == i,
            forall|k: int|
                0 <= k < i ==> {
                    &&& (#[trigger] out@[k]) matches LyricEntry::Verse { name, lines, .. }
                    &&& name@ == "v"@ + decimal((k + 1) as nat)
                    &&& lines.len() == 1
                    &&& runs_of(lines@[0].contents@, kept_lines(views(all[k]@)))
                },
        decreases n - i,
    {
        let lines = verses.remove(0);
        assert(lines == all[i as int]);
        let mut name = String::new();
        name.append("v");
        append_decimal(&mut name, i as u64 + 1);
        proof {
            reveal_strlit("v");
        }
        out.push(make_verse(name, lines));
        assert(verses@ =~= all.skip(i + 1));
        i += 1;
    }
    match chorus {
        Some(c) => {
            let ghost before = out@;
            out.insert(1, c);
            assert forall|k: int| #![trigger all[k]] 0 <= k < n implies {
                let at = if k > 0 {
                    k + 1
                } else {
                    k
                };
                &&& out@[at] matches LyricEntry::Verse { name, lines, .. }
                &&& name@ == "v"@ + decimal((k + 1) as nat)
                &&& lines.len() == 1
                &&& runs_of(lines@[0].contents@, kept_lines(views(all[k]@)))
            } by {
                if k > 0 {
                    assert(out@[k + 1] == before[k]);
                } else {
                    assert(out@[0] == before[0]);
                }
            }
        },
        None => {},
    }
    out
}

} // verus!
