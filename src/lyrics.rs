//! Plain-text views of a song's lyrics and metadata.
use vstd::prelude::*;
use crate::text::{
    append_spaced, chars_of, is_white, occurs_in, spaced, split_on, text_contains, trim,
    trim_bounds, trim_end_char, trimmed, white, find_char, first_from, trim_end_bound,
};
use crate::types::{lemma_nested_decreases, nested, Author, LyricEntry, Properties, Song, VerseContent};

verus! {

broadcast use vstd::string::group_string_axioms;

/// The views of a list of strings.
pub open spec fn views(v: Seq<String>) -> Seq<Seq<char>> {
    v.map_values(|s: String| s@)
}

/// Adds a text run to the last line, starting a line if there is none: its white space is
/// collapsed to spaces and trimmed, and one space is kept where the run ends in white space.
pub open spec fn add_text(acc: Seq<Seq<char>>, t: Seq<char>) -> Seq<Seq<char>> {
    let lines = if acc.len() == 0 {
        seq![Seq::empty()]
    } else {
        acc
    };
    let tail = if t.len() > 0 && is_white(t.last()) {
        seq![' ']
    } else {
        Seq::empty()
    };
    lines.update(lines.len() - 1, lines.last() + spaced(trim(t)) + tail)
}

/// Adds one piece of verse content to the lines: text joins the last line, a line break starts
/// a new line, a comment adds nothing, and a chord or tag adds its nested content.
pub open spec fn add_content(c: VerseContent, acc: Seq<Seq<char>>) -> Seq<Seq<char>>
    decreases c, 1int, 0int,
{
    match c {
        VerseContent::Text(t) => add_text(acc, t@),
        VerseContent::Br => acc.push(Seq::empty()),
        VerseContent::Comment(_) => acc,
        _ => add_nested(c, nested(c).len() as int, acc),
    }
}

/// Adds the first `n` pieces of the nested content of `c` to the lines.
pub open spec fn add_nested(c: VerseContent, n: int, acc: Seq<Seq<char>>) -> Seq<Seq<char>>
    decreases c, 0int, n
    via add_nested_decreases
{
    if n <= 0 || n > nested(c).len() {
        acc
    } else {
        add_content(nested(c)[n - 1], add_nested(c, n - 1, acc))
    }
}

#[via_fn]
proof fn add_nested_decreases(c: VerseContent, n: int, acc: Seq<Seq<char>>) {
    if !(n <= 0 || n > nested(c).len()) {
        lemma_nested_decreases(c, n - 1);
    }
}

/// Adds a list of verse content to the lines, in order.
pub open spec fn add_contents(cs: Seq<VerseContent>, acc: Seq<Seq<char>>) -> Seq<Seq<char>>
    decreases cs.len(),
{
    if cs.len() == 0 {
        acc
    } else {
        add_content(cs.last(), add_contents(cs.drop_last(), acc))
    }
}

/// The plain lines of a list of verse content, each trimmed.
pub open spec fn simple_lines(cs: Seq<VerseContent>) -> Seq<Seq<char>> {
    add_contents(cs, seq![]).map_values(|l: Seq<char>| trim(l))
}

fn add_simple_text(text: &str, lines: &mut Vec<String>)
    ensures
        views(final(lines)@) == add_text(views(old(lines)@), text@),
{
    if lines.len() == 0 {
        lines.push(String::new());
    }
    let ghost start = views(lines@);
    assert(start == if views(old(lines)@).len() == 0 {
        seq![Seq::<char>::empty()]
    } else {
        views(old(lines)@)
    });
    let mut line = lines.pop().unwrap();
    let ghost rest = views(lines@);
    assert(rest =~= start.drop_last());
    assert(line@ == start.last());
    let cs = chars_of(text);
    let (a, b) = trim_bounds(&cs);
    append_spaced(&mut line, text, &cs, a, b);
    assert(line@ == start.last() + spaced(trim(text@)));
    if cs.len() > 0 && white(cs[cs.len() - 1]) {
        line.append(" ");
        proof {
            reveal_strlit(" ");
        }
    }
    let ghost tail = if text@.len() > 0 && is_white(text@.last()) {
        seq![' ']
    } else {
        Seq::<char>::empty()
    };
    assert(line@ =~= start.last() + spaced(trim(text@)) + tail);
    lines.push(line);
    assert(views(lines@) =~= rest.push(start.last() + spaced(trim(text@)) + tail));
    assert(views(lines@) =~= add_text(views(old(lines)@), text@));
}

fn add_simple_nested(content: &VerseContent, lines: &mut Vec<String>)
    requires
        content is Chord || content is Tag,
    ensures
        views(final(lines)@) == add_nested(
            *content,
            nested(*content).len() as int,
            views(old(lines)@),
        ),
    decreases content, 0int,
{
    let contents = match content {
        VerseContent::Chord { contents, .. } => contents,
        VerseContent::Tag { contents, .. } => contents,
        _ => {
            return;
        },
    };
    let ghost start = views(lines@);
    let mut i: usize = 0;
    while i < contents.len()
        invariant
            i <= contents.len(),
            contents@ == nested(*content),
            views(lines@) == add_nested(*content, i as int, start),
        decreases contents.len() - i,
    {
        proof {
            lemma_nested_decreases(*content, i as int);
        }
        add_simple_content(&contents[i], lines);
        i += 1;
    }
}

fn add_simple_content(content: &VerseContent, lines: &mut Vec<String>)
    ensures
        views(final(lines)@) == add_content(*content, views(old(lines)@)),
    decreases content, 1int,
{
    match content {
        VerseContent::Text(text) => add_simple_text(text.as_str(), lines),
        VerseContent::Br => {
            lines.push(String::new());
            assert(views(lines@) =~= views(old(lines)@).push(Seq::empty()));
        },
        VerseContent::Comment(_) => {},
        _ => add_simple_nested(content, lines),
    }
}

/// Converts the contents of a verse to a list of lines, ignoring chords, tags and comments.
pub fn simplify_contents(contents: &Vec<VerseContent>) -> (r: Vec<String>)
    ensures
        views(r@) == simple_lines(contents@),
{
    let mut lines: Vec<String> = Vec::new();
    let mut i: usize = 0;
    assert(contents@.take(0) =~= Seq::<VerseContent>::empty());
    assert(views(lines@) =~= seq![]);
    while i < contents.len()
        invariant
            i <= contents.len(),
            views(lines@) == add_contents(contents@.take(i as int), seq![]),
        decreases contents.len() - i,
    {
        assert(contents@.take(i + 1).drop_last() =~= contents@.take(i as int));
        add_simple_content(&contents[i], &mut lines);
        i += 1;
    }
    assert(contents@.take(contents.len() as int) =~= contents@);
    let ghost all = views(lines@);
    let mut out: Vec<String> = Vec::new();
    let mut k: usize = 0;
    while k < lines.len()
        invariant
            k <= lines.len(),
            all == views(lines@),
            views(out@) == all.take(k as int).map_values(|l: Seq<char>| trim(l)),
        decreases lines.len() - k,
    {
        let t = trimmed(lines[k].as_str());
        assert(all[k as int] == lines@[k as int]@);
        let ghost prev = views(out@);
        out.push(t);
        assert(views(out@) =~= prev.push(t@));
        assert(views(out@) =~= all.take(k + 1).map_values(|l: Seq<char>| trim(l)));
        k += 1;
    }
    assert(all.take(lines.len() as int) =~= all);
    out
}

/// The primary title of a song: its first title.
pub open spec fn primary_title(song: Song) -> Seq<char> {
    song.properties.titles.titles@[0].title@
}

/// Returns the title to use for the given song.
pub fn title_for_song(song: &Song) -> (r: &str)
    requires
        song.properties.titles.titles.len() > 0,
    ensures
        r@ == primary_title(*song),
{
    song.properties.titles.titles[0].title.as_str()
}

/// What `str::to_lowercase` returns for a string with these characters.
pub uninterp spec fn lower_of(s: Seq<char>) -> Seq<char>;

/// Relies on `str::to_lowercase`: its result depends on the characters alone, and an empty
/// string stays empty.
#[verifier::external_body]
fn lowercase(s: &str) -> (r: String)
    ensures
        r@ == lower_of(s@),
        s@.len() == 0 ==> r@.len() == 0,
{
    s.to_lowercase()
}

/// Returns whether the given song should be displayed when the given search filter is entered:
/// whether the lower-case filter occurs in the lower-case title.
pub fn song_matches_filter(song: &Song, filter: &str) -> (r: bool)
    requires
        song.properties.titles.titles.len() > 0,
    ensures
        r == occurs_in(lower_of(filter@), lower_of(primary_title(*song))),
{
    let title = lowercase(title_for_song(song));
    let part = lowercase(filter);
    text_contains(title.as_str(), part.as_str())
}

/// The first plain line of page `lines_index` of lyric entry `lyric_entry_index`, where that
/// entry is a verse with such a page and the page has a line.
pub open spec fn spec_first_line(song: Song, lyric_entry_index: int, lines_index: int) -> Option<
    Seq<char>,
> {
    let l = song.lyrics.lyrics@;
    if 0 <= lyric_entry_index < l.len() {
        match l[lyric_entry_index] {
            LyricEntry::Verse { lines, .. } => if 0 <= lines_index < lines.len() && simple_lines(
                lines@[lines_index].contents@,
            ).len() > 0 {
                Some(simple_lines(lines@[lines_index].contents@)[0])
            } else {
                None
            },
            LyricEntry::Instrument { .. } => None,
        }
    } else {
        None
    }
}

/// Returns the first line of the given lyric entry and lines of the given song, if any.
pub fn first_line(song: &Song, lyric_entry_index: usize, lines_index: usize) -> (r: Option<String>)
    ensures
        match r {
            Some(line) => spec_first_line(*song, lyric_entry_index as int, lines_index as int)
                == Some(line@),
            None => spec_first_line(*song, lyric_entry_index as int, lines_index as int) is None,
        },
{
    if lyric_entry_index >= song.lyrics.lyrics.len() {
        return None;
    }
    match &song.lyrics.lyrics[lyric_entry_index] {
        LyricEntry::Verse { lines, .. } => {
            if lines_index >= lines.len() {
                return None;
            }
            let mut simple = simplify_contents(&lines[lines_index].contents);
            if simple.len() == 0 {
                None
            } else {
                let first = simple.swap_remove(0);
                Some(first)
            }
        },
        LyricEntry::Instrument { .. } => None,
    }
}

/// The parts joined with `sep` between each two.
pub open spec fn join(parts: Seq<Seq<char>>, sep: Seq<char>) -> Seq<char>
    decreases parts.len(),
{
    if parts.len() == 0 {
        Seq::empty()
    } else if parts.len() == 1 {
        parts[0]
    } else {
        join(parts.drop_last(), sep) + sep + parts.last()
    }
}

/// An author as displayed: the name, followed by the kind of contribution in parentheses if
/// there is one.
pub open spec fn author_text(a: Author) -> Seq<char> {
    match a.author_type {
        Some(t) => a.name@ + " ("@ + t@ + ")"@,
        None => a.name@,
    }
}

/// The authors of a song as displayed, separated by commas.
pub open spec fn authors_text(song: Song) -> Seq<char> {
    join(song.properties.authors.authors@.map_values(|a: Author| author_text(a)), ", "@)
}

/// Returns the authors of the given song as a single string, for displaying or editing.
pub fn authors_as_string(song: &Song) -> (r: String)
    ensures
        r@ == authors_text(*song),
{
    let authors = &song.properties.authors.authors;
    let ghost parts = authors@.map_values(|a: Author| author_text(a));
    let mut out = String::new();
    let mut i: usize = 0;
    assert(parts.take(0) =~= Seq::<Seq<char>>::empty());
    while i < authors.len()
        invariant
            i <= authors.len(),
            parts == authors@.map_values(|a: Author| author_text(a)),
            out@ == join(parts.take(i as int), ", "@),
        decreases authors.len() - i,
    {
        assert(parts.take(i + 1).drop_last() =~= parts.take(i as int));
        if i > 0 {
            out.append(", ");
        }
        let author = &authors[i];
        out.append(author.name.as_str());
        match &author.author_type {
            Some(t) => {
                out.append(" (");
                out.append(t.as_str());
                out.append(")");
            },
            None => {},
        }
        proof {
            if i == 0 {
                assert(out@ =~= parts.take(1)[0]);
            } else {
                assert(out@ =~= join(parts.take(i as int), ", "@) + ", "@ + parts[i as int]);
            }
        }
        i += 1;
    }
    assert(parts.take(authors.len() as int) =~= parts);
    out
}

/// The lines of each page of a verse, each followed by a line break.
pub open spec fn pages_text(pages: Seq<crate::types::Lines>) -> Seq<char>
    decreases pages.len(),
{
    if pages.len() == 0 {
        Seq::empty()
    } else {
        pages_text(pages.drop_last()) + lines_text(simple_lines(pages.last().contents@))
    }
}

/// Each line followed by a line break.
pub open spec fn lines_text(lines: Seq<Seq<char>>) -> Seq<char>
    decreases lines.len(),
{
    if lines.len() == 0 {
        Seq::empty()
    } else {
        lines_text(lines.drop_last()) + lines.last() + "\n"@
    }
}

/// The verses of a song as editable text: each verse's name and a colon on a line, then its
/// lines; verses are separated by an empty line and instrumentals are left out.
pub open spec fn lyrics_text(entries: Seq<LyricEntry>) -> Seq<char>
    decreases entries.len(),
{
    if entries.len() == 0 {
        Seq::empty()
    } else {
        let prev = lyrics_text(entries.drop_last());
        match entries.last() {
            LyricEntry::Verse { name, lines, .. } => (if prev.len() > 0 {
                prev + "\n"@
            } else {
                prev
            }) + name@ + ":\n"@ + pages_text(lines@),
            LyricEntry::Instrument { .. } => prev,
        }
    }
}

/// Returns the full lyrics of the given song as a single string, for editing.
pub fn lyrics_as_text(song: &Song) -> (r: String)
    ensures
        r@ == lyrics_text(song.lyrics.lyrics@),
{
    let entries = &song.lyrics.lyrics;
    let mut text = String::new();
    let mut i: usize = 0;
    assert(entries@.take(0) =~= Seq::<LyricEntry>::empty());
    while i < entries.len()
        invariant
            i <= entries.len(),
            text@ == lyrics_text(entries@.take(i as int)),
        decreases entries.len() - i,
    {
        assert(entries@.take(i + 1).drop_last() =~= entries@.take(i as int));
        if let LyricEntry::Verse { name, lines, .. } = &entries[i] {
            if !text.as_str().is_empty() {
                text.append("\n");
            }
            proof {
                assert(text@.len() == 0 <==> lyrics_text(entries@.take(i as int)).len() == 0);
            }
            text.append(name.as_str());
            text.append(":\n");
            let ghost with_name = text@;
            let mut k: usize = 0;
            assert(lines@.take(0) =~= Seq::<crate::types::Lines>::empty());
            while k < lines.len()
                invariant
                    k <= lines.len(),
                    text@ == with_name + pages_text(lines@.take(k as int)),
                decreases lines.len() - k,
            {
                assert(lines@.take(k + 1).drop_last() =~= lines@.take(k as int));
                let simple = simplify_contents(&lines[k].contents);
                let ghost before = text@;
                let mut m: usize = 0;
                assert(views(simple@).take(0) =~= Seq::<Seq<char>>::empty());
                while m < simple.len()
                    invariant
                        m <= simple.len(),
                        text@ == before + lines_text(views(simple@).take(m as int)),
                    decreases simple.len() - m,
                {
                    assert(views(simple@).take(m + 1).drop_last() =~= views(simple@).take(
                        m as int,
                    ));
                    text.append(simple[m].as_str());
                    text.append("\n");
                    assert(text@ =~= before + lines_text(views(simple@).take(m + 1)));
                    m += 1;
                }
                assert(views(simple@).take(simple.len() as int) =~= views(simple@));
                assert(text@ =~= with_name + pages_text(lines@.take(k + 1)));
                k += 1;
            }
            assert(lines@.take(lines.len() as int) =~= lines@);
        }
        i += 1;
    }
    assert(entries@.take(entries.len() as int) =~= entries@);
    text
}

/// `a` is the author that `piece` describes: once trimmed, a piece of the form `name(type)`
/// gives the trimmed name and the trimmed type without its closing parentheses; any other piece
/// is a name alone.
pub open spec fn author_from(a: Author, piece: Seq<char>) -> bool {
    let t = trim(piece);
    &&& a.lang is None
    &&& match first_from(t, '(', 0) {
        Some(k) if k + 1 < t.len() && t.last() == ')' => {
            &&& a.name@ == trim(t.subrange(0, k))
            &&& a.author_type matches Some(ty) && ty@ == trim(
                trim_end_char(t.subrange(k + 1, t.len() as int), ')'),
            )
        },
        _ => a.name@ == t && a.author_type is None,
    }
}

fn author_from_piece(piece: &str) -> (r: Author)
    ensures
        author_from(r, piece@),
{
    let t = trimmed(piece);
    let cs = chars_of(t.as_str());
    match find_char(&cs, '(') {
        Some(k) => {
            if k + 1 < cs.len() && cs[cs.len() - 1] == ')' {
                let name = trimmed(t.as_str().substring_char(0, k));
                let e = trim_end_bound(&cs, ')', k + 1);
                let kind = trimmed(t.as_str().substring_char(k + 1, e));
                return Author { author_type: Some(kind), lang: None, name };
            }
        },
        None => {},
    }
    Author { author_type: None, lang: None, name: t }
}

/// Sets the authors of the given song from a string of the format returned by
/// `authors_as_string`: one author per comma-separated piece.
pub fn set_authors_from_string(song: &mut Song, authors: &str)
    ensures
        final(song).lyrics == old(song).lyrics,
        final(song).properties == (Properties {
            authors: final(song).properties.authors,
            ..old(song).properties
        }),
        final(song).properties.authors.authors.len() == split_on(authors@, ',').len(),
        forall|j: int|
            0 <= j < final(song).properties.authors.authors.len() ==> author_from(
                #[trigger] final(song).properties.authors.authors@[j],
                split_on(authors@, ',')[j],
            ),
{
    let cs = chars_of(authors);
    let mut out: Vec<Author> = Vec::new();
    let ghost mut done: Seq<Seq<char>> = seq![];
    let mut start: usize = 0;
    let mut i: usize = 0;
    assert(cs@.take(0) =~= Seq::<char>::empty());
    assert(cs@.subrange(0, 0) =~= Seq::<char>::empty());
    while i < cs.len()
        invariant
            cs@ == authors@,
            start <= i <= cs.len(),
            split_on(cs@.take(i as int), ',') == done.push(cs@.subrange(start as int, i as int)),
            out.len() == done.len(),
            forall|j: int| 0 <= j < out.len() ==> author_from(#[trigger] out@[j], done[j]),
        decreases cs.len() - i,
    {
        assert(cs@.take(i + 1).drop_last() =~= cs@.take(i as int));
        if cs[i] == ',' {
            let piece = authors.substring_char(start, i);
            out.push(author_from_piece(piece));
            proof {
                done = done.push(cs@.subrange(start as int, i as int));
            }
            start = i + 1;
            assert(cs@.subrange(start as int, i + 1) =~= Seq::<char>::empty());
        } else {
            assert(cs@.subrange(start as int, i + 1) =~= cs@.subrange(start as int, i as int).push(
                cs@[i as int],
            ));
        }
        i += 1;
    }
    assert(cs@.take(cs.len() as int) =~= cs@);
    let piece = authors.substring_char(start, cs.len());
    out.push(author_from_piece(piece));
    proof {
        done = done.push(cs@.subrange(start as int, cs.len() as int));
    }
    song.properties.authors.authors = out;
}

} // verus!
