//! Expansion of a song into the ordered pages that a presenter steps through.
use vstd::prelude::*;
use crate::text::{chars_of, split_on};
use crate::types::{LyricEntry, Song};

verus! {

/// What a slide shows, as a mathematical value.
pub enum SlideView {
    SongStart { song_id: u32 },
    Lyrics { song_id: u32, lyric_entry_index: int, lines_index: int, last_page: bool },
    Text(Seq<char>),
}

/// The number of pages that one visit of a lyric entry yields: one per element of a verse's
/// lines, and exactly one for an instrumental break.
pub open spec fn page_count(e: LyricEntry) -> nat {
    match e {
        LyricEntry::Verse { lines, .. } => lines@.len(),
        LyricEntry::Instrument { .. } => 1,
    }
}


/// The index of the first entry from `i` on whose name is `name`.
pub open spec fn first_named_from(l: Seq<LyricEntry>, name: Seq<char>, i: int) -> Option<int>
    decreases l.len() - i,
{
    if i < 0 || i >= l.len() {
        None
    } else if l[i].spec_name() == name {
        Some(i)
    } else {
        first_named_from(l, name, i + 1)
    }
}

/// The index of the first entry whose name is `name`.
pub open spec fn first_named(l: Seq<LyricEntry>, name: Seq<char>) -> Option<int> {
    first_named_from(l, name, 0)
}

/// The entries that the tokens name, in token order; a token that names no entry is skipped.
pub open spec fn resolve(l: Seq<LyricEntry>, tokens: Seq<Seq<char>>) -> Seq<int>
    decreases tokens.len(),
{
    if tokens.len() == 0 {
        seq![]
    } else {
        let prev = resolve(l, tokens.drop_last());
        match first_named(l, tokens.last()) {
            Some(i) => prev.push(i),
            None => prev,
        }
    }
}

/// The indices of the lyric entries of a song in the order in which they are presented.
pub open spec fn visits(song: Song) -> Seq<int> {
    match song.properties.verse_order {
        Some(order) => resolve(song.lyrics.lyrics@, split_on(order@, ' ')),
        None => Seq::new(song.lyrics.lyrics.len() as nat, |i: int| i),
    }
}

/// The pages of one visit of entry `v`: the pairs of the entry's index and each page index.
pub open spec fn visit_pages(l: Seq<LyricEntry>, v: int) -> Seq<(int, int)> {
    Seq::new(page_count(l[v]), |p: int| (v, p))
}

/// The pages of a sequence of visits, in order.
pub open spec fn pages_of(l: Seq<LyricEntry>, vs: Seq<int>) -> Seq<(int, int)>
    decreases vs.len(),
{
    if vs.len() == 0 {
        seq![]
    } else {
        pages_of(l, vs.drop_last()) + visit_pages(l, vs.last())
    }
}

/// The lyric pages of a song: pairs of a lyric entry index and a page index within that entry.
pub open spec fn song_pages(song: Song) -> Seq<(int, int)> {
    pages_of(song.lyrics.lyrics@, visits(song))
}

/// The lyric slide at position `k` of the song's pages.
pub open spec fn lyric_slide(song_id: u32, pages: Seq<(int, int)>, k: int) -> SlideView {
    SlideView::Lyrics {
        song_id,
        lyric_entry_index: pages[k].0,
        lines_index: pages[k].1,
        last_page: k == pages.len() - 1,
    }
}

/// The slides of a song: a start page, then one slide per lyric page, the last one marked.
pub open spec fn song_slides(song_id: u32, song: Song) -> Seq<SlideView> {
    let pages = song_pages(song);
    seq![SlideView::SongStart { song_id }] + Seq::new(
        pages.len(),
        |k: int| lyric_slide(song_id, pages, k),
    )
}

/// A resolved slide.
#[derive(Clone, Debug, PartialEq, Eq)]
pub enum Slide {
    /// The title page of a song.
    SongStart { song_id: u32 },
    /// One page of a song's lyrics. `last_page` marks the final page of the song.
    Lyrics { song_id: u32, lyric_entry_index: usize, lines_index: usize, last_page: bool },
    /// A free text entry of a playlist.
    Text(String),
}

impl View for Slide {
    type V = SlideView;

    open spec fn view(&self) -> SlideView {
        match self {
            Slide::SongStart { song_id } => SlideView::SongStart { song_id: *song_id },
            Slide::Lyrics { song_id, lyric_entry_index, lines_index, last_page } =>
                SlideView::Lyrics {
                song_id: *song_id,
                lyric_entry_index: *lyric_entry_index as int,
                lines_index: *lines_index as int,
                last_page: *last_page,
            },
            Slide::Text(text) => SlideView::Text(text@),
        }
    }
}

/// Whether two character sequences are equal.
pub fn chars_eq(a: &Vec<char>, b: &Vec<char>) -> (r: bool)
    ensures
        r == (a@ == b@),
{
    if a.len() != b.len() {
        return false;
    }
    let mut i: usize = 0;
    while i < a.len()
        invariant
            i <= a.len() == b.len(),
            forall|j: int| 0 <= j < i ==> a@[j] == b@[j],
        decreases a.len() - i,
    {
        if a[i] != b[i] {
            return false;
        }
        i += 1;
    }
    assert(a@ =~= b@);
    true
}

/// Returns the number of pages that one visit of the entry yields.
pub fn entry_page_count(e: &LyricEntry) -> (r: usize)
    ensures
        r == page_count(*e),
{
    match e {
        LyricEntry::Verse { lines, .. } => lines.len(),
        LyricEntry::Instrument { .. } => 1,
    }
}

/// Returns the index of the first lyric entry named `name`.
pub fn find_entry(l: &Vec<LyricEntry>, name: &Vec<char>) -> (r: Option<usize>)
    ensures
        match r {
            Some(i) => first_named(l@, name@) == Some(i as int),
            None => first_named(l@, name@) is None,
        },
{
    let mut i: usize = 0;
    while i < l.len()
        invariant
            i <= l.len(),
            first_named_from(l@, name@, 0) == first_named_from(l@, name@, i as int),
        decreases l.len() - i,
    {
        let entry_name = chars_of(l[i].name());
        if chars_eq(&entry_name, name) {
            return Some(i);
        }
        i += 1;
    }
    None
}

/// Appends the entry that `token` names to `out`, if there is one.
fn push_resolved(out: &mut Vec<usize>, l: &Vec<LyricEntry>, token: &Vec<char>, done: Ghost<Seq<Seq<char>>>)
    requires
        old(out)@.map_values(|v: usize| v as int) == resolve(l@, done@),
        forall|k: int| 0 <= k < old(out).len() ==> old(out)[k] < l.len(),
    ensures
        final(out)@.map_values(|v: usize| v as int) == resolve(l@, done@.push(token@)),
        forall|k: int| 0 <= k < final(out).len() ==> final(out)[k] < l.len(),
{
    let ghost toks = done@.push(token@);
    assert(toks.drop_last() =~= done@);
    assert(toks.last() == token@);
    match find_entry(l, token) {
        Some(i) => {
            proof {
                lemma_first_named_bound(l@, token@, 0);
            }
            out.push(i);
            assert(out@.map_values(|v: usize| v as int) =~= resolve(l@, done@).push(i as int));
        },
        None => {},
    }
}

proof fn lemma_first_named_bound(l: Seq<LyricEntry>, name: Seq<char>, i: int)
    ensures
        first_named_from(l, name, i) matches Some(k) ==> i <= k < l.len(),
    decreases l.len() - i,
{
    if 0 <= i < l.len() && l[i].spec_name() != name {
        lemma_first_named_bound(l, name, i + 1);
    }
}

/// Returns the indices of the lyric entries of the song in the order in which they are
/// presented: the verse order's tokens resolved to entries if the song has one, else every
/// entry once in stored order.
pub fn visit_order(song: &Song) -> (r: Vec<usize>)
    ensures
        r@.map_values(|v: usize| v as int) == visits(*song),
        forall|k: int| 0 <= k < r.len() ==> r[k] < song.lyrics.lyrics.len(),
{
    let l = &song.lyrics.lyrics;
    match &song.properties.verse_order {
        None => {
            let mut out: Vec<usize> = Vec::new();
            let mut i: usize = 0;
            while i < l.len()
                invariant
                    i <= l.len(),
                    out.len() == i,
                    forall|k: int| 0 <= k < i ==> out[k] == k,
                decreases l.len() - i,
            {
                out.push(i);
                i += 1;
            }
            assert(out@.map_values(|v: usize| v as int) =~= visits(*song));
            out
        },
        Some(order) => {
            let chars = chars_of(order.as_str());
            let mut out: Vec<usize> = Vec::new();
            let mut cur: Vec<char> = Vec::new();
            let ghost mut done: Seq<Seq<char>> = seq![];
            let mut i: usize = 0;
            assert(chars@.take(0) =~= Seq::<char>::empty());
            while i < chars.len()
                invariant
                    i <= chars.len(),
                    split_on(chars@.take(i as int), ' ') == done.push(cur@),
                    out@.map_values(|v: usize| v as int) == resolve(l@, done),
                    forall|k: int| 0 <= k < out.len() ==> out[k] < l.len(),
                decreases chars.len() - i,
            {
                let c = chars[i];
                assert(chars@.take(i + 1).drop_last() =~= chars@.take(i as int));
                if c == ' ' {
                    push_resolved(&mut out, l, &cur, Ghost(done));
                    proof {
                        done = done.push(cur@);
                    }
                    cur = Vec::new();
                    assert(split_on(chars@.take(i + 1), ' ') =~= done.push(cur@));
                } else {
                    cur.push(c);
                    assert(split_on(chars@.take(i + 1), ' ') =~= done.push(cur@));
                }
                i += 1;
            }
            assert(chars@.take(chars.len() as int) =~= chars@);
            push_resolved(&mut out, l, &cur, Ghost(done));
            out
        },
    }
}

/// Expands a song into its slides: a start page, then one page per element of each visited
/// verse's lines and one page per visited instrumental, with the final page marked as last.
pub fn slides_for_song(song_id: u32, song: &Song) -> (r: Vec<Slide>)
    ensures
        r@.map_values(|s: Slide| s@) == song_slides(song_id, *song),
{
    let l = &song.lyrics.lyrics;
    let vs = visit_order(song);
    let ghost vis = vs@.map_values(|v: usize| v as int);
    let mut r: Vec<Slide> = Vec::new();
    r.push(Slide::SongStart { song_id });
    let mut j: usize = 0;
    assert(vis.take(0) =~= Seq::<int>::empty());
    while j < vs.len()
        invariant
            j <= vs.len(),
            vis == vs@.map_values(|v: usize| v as int),
            vis == visits(*song),
            forall|k: int| 0 <= k < vs.len() ==> vs[k] < l.len(),
            r.len() == 1 + pages_of(l@, vis.take(j as int)).len(),
            r@[0]@ == (SlideView::SongStart { song_id }),
            forall|k: int|
                1 <= k < r.len() ==> (#[trigger] r@[k])@ == (SlideView::Lyrics {
                    song_id,
                    lyric_entry_index: pages_of(l@, vis.take(j as int))[k - 1].0,
                    lines_index: pages_of(l@, vis.take(j as int))[k - 1].1,
                    last_page: false,
                }),
        decreases vs.len() - j,
    {
        let v = vs[j];
        let count = entry_page_count(&l[v]);
        let ghost before = pages_of(l@, vis.take(j as int));
        assert(vis.take(j + 1).drop_last() =~= vis.take(j as int));
        assert(vis.take(j + 1).last() == v as int);
        let ghost after = pages_of(l@, vis.take(j + 1));
        assert(after == before + visit_pages(l@, v as int));
        let mut p: usize = 0;
        while p < count
            invariant
                p <= count == page_count(l@[v as int]),
                after == before + visit_pages(l@, v as int),
                r.len() == 1 + before.len() + p,
                r@[0]@ == (SlideView::SongStart { song_id }),
                forall|k: int|
                    1 <= k < r.len() ==> (#[trigger] r@[k])@ == (SlideView::Lyrics {
                        song_id,
                        lyric_entry_index: after[k - 1].0,
                        lines_index: after[k - 1].1,
                        last_page: false,
                    }),
            decreases count - p,
        {
            r.push(Slide::Lyrics { song_id, lyric_entry_index: v, lines_index: p, last_page: false });
            p += 1;
        }
        j += 1;
    }
    assert(vis.take(vs.len() as int) =~= vis);
    if r.len() > 1 {
        let last = r.pop().unwrap();
        if let Slide::Lyrics { song_id, lyric_entry_index, lines_index, .. } = last {
            r.push(Slide::Lyrics { song_id, lyric_entry_index, lines_index, last_page: true });
        }
    }
    assert(r@.map_values(|s: Slide| s@) =~= song_slides(song_id, *song));
    r
}

/// Returns a copy of a slide.
pub fn copy_slide(s: &Slide) -> (r: Slide)
    ensures
        r@ == s@,
{
    match s {
        Slide::SongStart { song_id } => Slide::SongStart { song_id: *song_id },
        Slide::Lyrics { song_id, lyric_entry_index, lines_index, last_page } => Slide::Lyrics {
            song_id: *song_id,
            lyric_entry_index: *lyric_entry_index,
            lines_index: *lines_index,
            last_page: *last_page,
        },
        Slide::Text(t) => Slide::Text(t.clone()),
    }
}

/// The pages of two runs of visits are the pages of each, one after the other.
pub proof fn lemma_pages_concat(l: Seq<LyricEntry>, a: Seq<int>, b: Seq<int>)
    ensures
        pages_of(l, a + b) == pages_of(l, a) + pages_of(l, b),
    decreases b.len(),
{
    if b.len() == 0 {
        assert(a + b =~= a);
        assert(pages_of(l, a) + pages_of(l, b) =~= pages_of(l, a));
    } else {
        assert((a + b).drop_last() =~= a + b.drop_last());
        assert((a + b).last() == b.last());
        lemma_pages_concat(l, a, b.drop_last());
        assert(pages_of(l, a + b) =~= pages_of(l, a) + pages_of(l, b));
    }
}

/// A run of visits has no pages exactly when each visited entry has none.
pub proof fn lemma_pages_none(l: Seq<LyricEntry>, b: Seq<int>)
    ensures
        pages_of(l, b).len() == 0 <==> forall|t: int| 0 <= t < b.len() ==> page_count(l[b[t]]) == 0,
    decreases b.len(),
{
    if b.len() > 0 {
        lemma_pages_none(l, b.drop_last());
        if pages_of(l, b).len() == 0 {
            assert forall|t: int| 0 <= t < b.len() implies page_count(l[b[t]]) == 0 by {
                if t < b.len() - 1 {
                    assert(b.drop_last()[t] == b[t]);
                }
            }
        }
        if forall|t: int| 0 <= t < b.len() ==> page_count(l[b[t]]) == 0 {
            assert forall|t: int| 0 <= t < b.drop_last().len() implies page_count(
                l[b.drop_last()[t]],
            ) == 0 by {
                assert(b.drop_last()[t] == b[t]);
            }
        }
    }
}

/// Returns the slide at position `page` of the song's expansion, found by walking the visit
/// order without building the expansion.
pub fn song_slide_at(song_id: u32, song: &Song, page: usize) -> (r: Option<Slide>)
    ensures
        match r {
            Some(s) => page < song_slides(song_id, *song).len() && s@ == song_slides(
                song_id,
                *song,
            )[page as int],
            None => page >= song_slides(song_id, *song).len(),
        },
{
    if page == 0 {
        return Some(Slide::SongStart { song_id });
    }
    let l = &song.lyrics.lyrics;
    let vs = visit_order(song);
    let ghost vis = vs@.map_values(|v: usize| v as int);
    let mut left: usize = page - 1;
    let mut j: usize = 0;
    assert(vis.take(0) =~= Seq::<int>::empty());
    while j < vs.len()
        invariant
            j <= vs.len(),
            vis == vs@.map_values(|v: usize| v as int),
            vis == visits(*song),
            l@ == song.lyrics.lyrics@,
            forall|k: int| 0 <= k < vs.len() ==> vs[k] < l.len(),
            pages_of(l@, vis.take(j as int)).len() + left == page - 1,
        decreases vs.len() - j,
    {
        let v = vs[j];
        let count = entry_page_count(&l[v]);
        let ghost before = pages_of(l@, vis.take(j as int));
        assert(vis.take(j + 1).drop_last() =~= vis.take(j as int));
        assert(vis.take(j + 1).last() == v as int);
        assert(pages_of(l@, vis.take(j + 1)) == before + visit_pages(l@, v as int));
        if left < count {
            let mut rest_empty = true;
            let mut m: usize = j + 1;
            while m < vs.len()
                invariant
                    j + 1 <= m <= vs.len(),
                    vis == vs@.map_values(|v: usize| v as int),
                    vis == visits(*song),
                    l@ == song.lyrics.lyrics@,
                    before == pages_of(l@, vis.take(j as int)),
                    before.len() + left == page - 1,
                    pages_of(l@, vis.take(j + 1)) == before + visit_pages(l@, v as int),
                    left < count == page_count(l@[v as int]),
                    v == vs[j as int],
                    forall|k: int| 0 <= k < vs.len() ==> vs[k] < l.len(),
                    rest_empty <==> forall|t: int| j + 1 <= t < m ==> page_count(l@[vis[t]]) == 0,
                decreases vs.len() - m,
            {
                assert(vis[m as int] == vs[m as int] as int);
                if entry_page_count(&l[vs[m]]) != 0 {
                    rest_empty = false;
                }
                m += 1;
            }
            let last_page = left + 1 == count && rest_empty;
            proof {
                let rest = vis.skip(j + 1);
                assert(vis =~= vis.take(j + 1) + rest);
                lemma_pages_concat(l@, vis.take(j + 1), rest);
                lemma_pages_none(l@, rest);
                let pages = song_pages(*song);
                assert(pages == pages_of(l@, vis));
                assert(pages == pages_of(l@, vis.take(j + 1)) + pages_of(l@, rest));
                assert(pages[page - 1] == (v as int, left as int));
                if rest_empty {
                    assert forall|t: int| 0 <= t < rest.len() implies page_count(l@[rest[t]]) == 0 by {
                        assert(rest[t] == vis[t + j + 1]);
                    }
                } else {
                    let t = choose|t: int| j + 1 <= t < vs.len() && page_count(l@[vis[t]]) != 0;
                    assert(rest[t - j - 1] == vis[t]);
                }
            }
            return Some(
                Slide::Lyrics { song_id, lyric_entry_index: v, lines_index: left, last_page },
            );
        }
        left = left - count;
        j += 1;
    }
    assert(vis.take(vs.len() as int) =~= vis);
    None
}

/// The total page count of a sequence of visits.
pub open spec fn visit_total(l: Seq<LyricEntry>, vs: Seq<int>) -> nat
    decreases vs.len(),
{
    if vs.len() == 0 {
        0
    } else {
        visit_total(l, vs.drop_last()) + page_count(l[vs.last()])
    }
}

/// The page counts of all entries added up: the number of lines elements of each verse plus one
/// for each instrumental.
pub open spec fn entries_total(l: Seq<LyricEntry>) -> nat
    decreases l.len(),
{
    if l.len() == 0 {
        0
    } else {
        entries_total(l.drop_last()) + page_count(l.last())
    }
}

proof fn lemma_pages_len(l: Seq<LyricEntry>, vs: Seq<int>)
    ensures
        pages_of(l, vs).len() == visit_total(l, vs),
    decreases vs.len(),
{
    if vs.len() > 0 {
        lemma_pages_len(l, vs.drop_last());
    }
}

proof fn lemma_all_visits_total(l: Seq<LyricEntry>, n: int)
    requires
        0 <= n <= l.len(),
    ensures
        visit_total(l, Seq::new(n as nat, |i: int| i)) == entries_total(l.take(n)),
    decreases n,
{
    if n > 0 {
        lemma_all_visits_total(l, n - 1);
        assert(Seq::new(n as nat, |i: int| i).drop_last() =~= Seq::new((n - 1) as nat, |i: int| i));
        assert(l.take(n).drop_last() =~= l.take(n - 1));
    }
}

/// Expansion count: a song expands to its start slide plus the page counts of the entries it
/// visits. Without a verse order that is every entry once, so the count is one plus the number
/// of lines elements of each verse plus one per instrumental; with a verse order it is one plus
/// the page counts of the entries that its tokens resolve to.
pub proof fn lemma_expansion_count(song_id: u32, song: Song)
    ensures
        song_slides(song_id, song).len() == 1 + visit_total(song.lyrics.lyrics@, visits(song)),
        song.properties.verse_order is None ==> song_slides(song_id, song).len() == 1
            + entries_total(song.lyrics.lyrics@),
        song.properties.verse_order matches Some(order) ==> song_slides(song_id, song).len() == 1
            + visit_total(song.lyrics.lyrics@, resolve(song.lyrics.lyrics@, split_on(order@, ' '))),
{
    let l = song.lyrics.lyrics@;
    lemma_pages_len(l, visits(song));
    if song.properties.verse_order is None {
        lemma_all_visits_total(l, l.len() as int);
        assert(l.take(l.len() as int) =~= l);
    }
}

/// Last-page uniqueness: in the expansion of a song with at least one lyric page, the final
/// slide is a lyric slide marked as the last page, and no other slide is so marked.
pub proof fn lemma_last_page_unique(song_id: u32, song: Song)
    requires
        song_pages(song).len() > 0,
    ensures
        song_slides(song_id, song).last() matches SlideView::Lyrics { last_page, .. } && last_page,
        forall|k: int|
            0 <= k < song_slides(song_id, song).len() && (#[trigger] song_slides(
                song_id,
                song,
            )[k] matches SlideView::Lyrics { last_page, .. } && last_page) ==> k == song_slides(
                song_id,
                song,
            ).len() - 1,
{
    let ss = song_slides(song_id, song);
    let pages = song_pages(song);
    assert(ss.last() == lyric_slide(song_id, pages, pages.len() - 1));
    assert forall|k: int|
        0 <= k < ss.len() && (#[trigger] ss[k] matches SlideView::Lyrics { last_page, .. }
            && last_page) implies k == ss.len() - 1 by {
        if k > 0 {
            assert(ss[k] == lyric_slide(song_id, pages, k - 1));
        }
    }
}

} // verus!
