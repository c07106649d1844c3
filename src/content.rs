//! The render-ready content of a resolved slide.
use vstd::prelude::*;
use crate::lyrics::{authors_as_string, authors_text, primary_title, simple_lines, simplify_contents, views};
use crate::slides::{Slide, SlideView};
use crate::state::{SlideIndex, State, Theme};
use crate::text::{append_decimal, chars_of, decimal};
use crate::types::{LyricEntry, Lines, Song};

verus! {

broadcast use {vstd::string::group_string_axioms, vstd::std_specs::btree::group_btree_axioms};

/// One line of a slide.
#[derive(Clone, Debug, Default, PartialEq)]
pub struct SlideLine {
    pub text: String,
    pub bold: bool,
    pub italic: bool,
}

impl View for SlideLine {
    type V = (Seq<char>, bool, bool);

    open spec fn view(&self) -> (Seq<char>, bool, bool) {
        (self.text@, self.bold, self.italic)
    }
}

/// The contents of a slide ready to render.
#[derive(Clone, Debug, PartialEq)]
pub struct SlideContent {
    pub title: Option<String>,
    pub lines: Vec<SlideLine>,
    pub credit: Option<String>,
    pub theme: Theme,
}

/// The contents of a slide as plain values: title, lines and credit.
pub struct ContentView {
    pub title: Option<Seq<char>>,
    pub lines: Seq<(Seq<char>, bool, bool)>,
    pub credit: Option<Seq<char>>,
}

pub open spec fn opt_view(s: Option<String>) -> Option<Seq<char>> {
    match s {
        Some(t) => Some(t@),
        None => None,
    }
}

impl View for SlideContent {
    type V = ContentView;

    open spec fn view(&self) -> ContentView {
        ContentView {
            title: opt_view(self.title),
            lines: self.lines@.map_values(|l: SlideLine| l@),
            credit: opt_view(self.credit),
        }
    }
}

/// The prefix of the first line of a verse page: the number of a verse named `v<number>`,
/// a dot and a space, on the verse's first page only.
pub open spec fn verse_prefix(name: Seq<char>, lines_index: int) -> Seq<char> {
    if name.len() > 0 && name[0] == 'v' && lines_index == 0 {
        name.subrange(1, name.len() as int) + ". "@
    } else {
        Seq::empty()
    }
}

/// The lines of one verse page: the part in parentheses in bold if there is one, the plain
/// lines with the verse prefix before the first, and the repeat count in bold if there is one.
pub open spec fn verse_page_lines(name: Seq<char>, page: Lines, lines_index: int) -> Seq<
    (Seq<char>, bool, bool),
> {
    let part = match page.part {
        Some(p) => seq![("("@ + p@ + ")"@, true, false)],
        None => seq![],
    };
    let simple = simple_lines(page.contents@);
    let body = Seq::new(
        simple.len(),
        |i: int|
            (if i == 0 {
                verse_prefix(name, lines_index) + simple[i]
            } else {
                simple[i]
            }, false, false),
    );
    let repeat = match page.repeat {
        Some(n) => seq![("x"@ + decimal(n as nat), true, false)],
        None => seq![],
    };
    part + body + repeat
}

/// The content of a lyric page of a song, where the entry and page exist: the song's title on
/// the song's first entry and page, the page's lines, and the authors on the last page.
pub open spec fn song_page_view(
    song: Song,
    lyric_entry_index: int,
    lines_index: int,
    last_page: bool,
) -> Option<ContentView> {
    let l = song.lyrics.lyrics@;
    let title = if lyric_entry_index == 0 && lines_index == 0
        && song.properties.titles.titles.len() > 0 {
        Some(primary_title(song))
    } else {
        None
    };
    let credit = if last_page {
        Some(authors_text(song))
    } else {
        None
    };
    if 0 <= lyric_entry_index < l.len() {
        match l[lyric_entry_index] {
            LyricEntry::Verse { name, lines, .. } => if 0 <= lines_index < lines.len() {
                Some(
                    ContentView {
                        title,
                        lines: verse_page_lines(name@, lines@[lines_index], lines_index),
                        credit,
                    },
                )
            } else {
                None
            },
            LyricEntry::Instrument { name, .. } => Some(
                ContentView {
                    title,
                    lines: seq![("(instrumental "@ + name@ + ")"@, false, false)],
                    credit,
                },
            ),
        }
    } else {
        None
    }
}

/// The content of a slide of the given state: none for a song's start page or for a song or
/// page that does not exist, and a single plain line for a text slide.
pub open spec fn slide_view(state: State, slide: SlideView) -> Option<ContentView> {
    match slide {
        SlideView::SongStart { .. } => None,
        SlideView::Lyrics { song_id, lyric_entry_index, lines_index, last_page } => {
            if state.songs@.contains_key(song_id) {
                song_page_view(state.songs@[song_id], lyric_entry_index, lines_index, last_page)
            } else {
                None
            }
        },
        SlideView::Text(t) => Some(
            ContentView { title: None, lines: seq![(t, false, false)], credit: None },
        ),
    }
}

fn plain_line(text: String) -> (r: SlideLine)
    ensures
        r@ == (text@, false, false),
{
    SlideLine { text, bold: false, italic: false }
}

fn verse_lines(name: &String, page: &Lines, lines_index: usize) -> (r: Vec<SlideLine>)
    ensures
        r@.map_values(|l: SlideLine| l@) == verse_page_lines(name@, *page, lines_index as int),
{
    let mut out: Vec<SlideLine> = Vec::new();
    if let Some(part) = &page.part {
        let mut text = String::new();
        text.append("(");
        text.append(part.as_str());
        text.append(")");
        out.push(SlideLine { text, bold: true, italic: false });
    }
    let ghost part_lines = out@.map_values(|l: SlideLine| l@);
    assert(part_lines =~= match page.part {
        Some(p) => seq![("("@ + p@ + ")"@, true, false)],
        None => seq![],
    });
    let mut prefix = String::new();
    let cs = chars_of(name.as_str());
    if cs.len() > 0 && cs[0] == 'v' && lines_index == 0 {
        prefix.append(name.as_str().substring_char(1, cs.len()));
        prefix.append(". ");
    }
    assert(prefix@ == verse_prefix(name@, lines_index as int));
    let simple = simplify_contents(&page.contents);
    let ghost sv = views(simple@);
    let ghost body = Seq::new(
        sv.len(),
        |i: int|
            (if i == 0 {
                verse_prefix(name@, lines_index as int) + sv[i]
            } else {
                sv[i]
            }, false, false),
    );
    let mut i: usize = 0;
    while i < simple.len()
        invariant
            i <= simple.len(),
            sv == views(simple@),
            prefix@ == verse_prefix(name@, lines_index as int),
            body == Seq::new(
                sv.len(),
                |i: int|
                    (if i == 0 {
                        verse_prefix(name@, lines_index as int) + sv[i]
                    } else {
                        sv[i]
                    }, false, false),
            ),
            out@.map_values(|l: SlideLine| l@) == part_lines + body.take(i as int),
        decreases simple.len() - i,
    {
        let mut text = String::new();
        if i == 0 {
            text.append(prefix.as_str());
        }
        text.append(simple[i].as_str());
        assert(sv[i as int] == simple@[i as int]@);
        assert(text@ =~= body[i as int].0);
        let ghost prev = out@.map_values(|l: SlideLine| l@);
        let line = plain_line(text);
        assert(line@ == body[i as int]);
        out.push(line);
        assert(out@.map_values(|l: SlideLine| l@) =~= prev.push(line@));
        assert(body.take(i + 1) =~= body.take(i as int).push(body[i as int]));
        assert(out@.map_values(|l: SlideLine| l@) =~= part_lines + body.take(i + 1));
        i += 1;
    }
    assert(body.take(simple.len() as int) =~= body);
    let ghost before_repeat = out@.map_values(|l: SlideLine| l@);
    if let Some(repeat) = page.repeat {
        let mut text = String::new();
        text.append("x");
        append_decimal(&mut text, repeat as u64);
        out.push(SlideLine { text, bold: true, italic: false });
        assert(out@.map_values(|l: SlideLine| l@) =~= before_repeat + seq![
            ("x"@ + decimal(repeat as nat), true, false),
        ]);
    } else {
        assert(out@.map_values(|l: SlideLine| l@) =~= before_repeat + seq![]);
    }
    assert(body == Seq::new(
        simple_lines(page.contents@).len(),
        |i: int|
            (if i == 0 {
                verse_prefix(name@, lines_index as int) + simple_lines(page.contents@)[i]
            } else {
                simple_lines(page.contents@)[i]
            }, false, false),
    ));
    assert(out@.map_values(|l: SlideLine| l@) =~= verse_page_lines(
        name@,
        *page,
        lines_index as int,
    ));
    out
}

impl SlideContent {
    /// Returns the content of the slide at the given coordinate, if it has one.
    pub fn for_index(state: &State, index: SlideIndex) -> (r: Option<Self>)
        ensures
            match r {
                Some(c) => state.spec_slide(index@) matches Some(s) && slide_view(*state, s)
                    == Some(c@),
                None => state.spec_slide(index@) matches Some(s) ==> slide_view(*state, s) is None,
            },
    {
        match state.slide(index) {
            Some(slide) => Self::for_slide(state, &slide),
            None => None,
        }
    }

    /// Returns the content of the given slide, with the state's theme.
    pub fn for_slide(state: &State, slide: &Slide) -> (r: Option<Self>)
        ensures
            match r {
                Some(c) => slide_view(*state, slide@) == Some(c@) && c.theme.spec_fields()
                    == state.theme.spec_fields(),
                None => slide_view(*state, slide@) is None,
            },
    {
        let theme = state.theme.copy();
        match slide {
            Slide::SongStart { .. } => None,
            Slide::Lyrics { song_id, lyric_entry_index, lines_index, last_page } => {
                match state.songs.get(song_id) {
                    Some(song) => Self::song_page(
                        song,
                        *lyric_entry_index,
                        *lines_index,
                        *last_page,
                        theme,
                    ),
                    None => None,
                }
            },
            Slide::Text(text) => {
                let mut lines: Vec<SlideLine> = Vec::new();
                lines.push(plain_line(text.clone()));
                let r = Self { title: None, lines, credit: None, theme };
                assert(r@.lines =~= seq![(text@, false, false)]);
                Some(r)
            },
        }
    }

    fn song_page(
        song: &Song,
        lyric_entry_index: usize,
        lines_index: usize,
        last_page: bool,
        theme: Theme,
    ) -> (r: Option<Self>)
        ensures
            match r {
                Some(c) => song_page_view(
                    *song,
                    lyric_entry_index as int,
                    lines_index as int,
                    last_page,
                ) == Some(c@) && c.theme == theme,
                None => song_page_view(
                    *song,
                    lyric_entry_index as int,
                    lines_index as int,
                    last_page,
                ) is None,
            },
    {
        if lyric_entry_index >= song.lyrics.lyrics.len() {
            return None;
        }
        let title = if lyric_entry_index == 0 && lines_index == 0
            && song.properties.titles.titles.len() > 0 {
            Some(song.properties.titles.titles[0].title.clone())
        } else {
            None
        };
        let credit = if last_page {
            Some(authors_as_string(song))
        } else {
            None
        };
        let lines = match &song.lyrics.lyrics[lyric_entry_index] {
            LyricEntry::Verse { name, lines, .. } => {
                if lines_index >= lines.len() {
                    return None;
                }
                verse_lines(name, &lines[lines_index], lines_index)
            },
            LyricEntry::Instrument { name, .. } => {
                let mut text = String::new();
                text.append("(instrumental ");
                text.append(name.as_str());
                text.append(")");
                let mut v: Vec<SlideLine> = Vec::new();
                v.push(plain_line(text));
                assert(v@.map_values(|l: SlideLine| l@) =~= seq![
                    ("(instrumental "@ + name@ + ")"@, false, false),
                ]);
                v
            },
        };
        Some(Self { title, lines, credit, theme })
    }
}

} // verus!
