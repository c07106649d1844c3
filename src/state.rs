//! The presentation state: song and playlist catalogs, and slide addressing.
use vstd::prelude::*;
use std::collections::BTreeMap;
use vstd::std_specs::cmp::OrdSpec;
use vstd::std_specs::iter::IteratorSpec;
use crate::slides::{Slide, SlideView, copy_slide, song_slide_at, song_slides, slides_for_song};
use crate::text::{append_decimal, chars_of, decimal, find_char, first_from};
use crate::types::{lemma_song_equals_refl, lemma_song_equals_sym_trans, seq_eq, SameAs, Song};

verus! {

broadcast use {vstd::std_specs::btree::group_btree_axioms, vstd::laws_cmp::group_laws_cmp};

/// One element of a playlist: a reference to a song of the catalog, or a free text.
#[derive(Clone, Debug, PartialEq)]
pub enum PlaylistEntry {
    Song { song_id: u32 },
    Text(String),
}

/// A named, ordered list of entries.
#[derive(Clone, Debug, PartialEq)]
pub struct Playlist {
    pub name: String,
    pub entries: Vec<PlaylistEntry>,
}

impl PlaylistEntry {
    pub open spec fn equals(&self, o: &PlaylistEntry) -> bool {
        match (self, o) {
            (PlaylistEntry::Song { song_id: a }, PlaylistEntry::Song { song_id: b }) => a == b,
            (PlaylistEntry::Text(a), PlaylistEntry::Text(b)) => a@ == b@,
            _ => false,
        }
    }
}

impl SameAs for PlaylistEntry {
    open spec fn equals_spec(&self, o: &Self) -> bool {
        self.equals(o)
    }

    fn same_as(&self, o: &Self) -> (r: bool) {
        match (self, o) {
            (PlaylistEntry::Song { song_id: a }, PlaylistEntry::Song { song_id: b }) => *a == *b,
            (PlaylistEntry::Text(a), PlaylistEntry::Text(b)) => *a == *b,
            _ => false,
        }
    }
}

impl Playlist {
    /// Structural equality: the same name and equal entries in the same order.
    pub open spec fn equals(&self, o: &Playlist) -> bool {
        self.name@ == o.name@ && seq_eq(self.entries@, o.entries@)
    }

    /// Returns an empty playlist with the given name.
    pub fn new(name: &str) -> (r: Playlist)
        ensures
            r.name@ == name@,
            r.entries@.len() == 0,
    {
        Playlist { name: name.to_string(), entries: Vec::new() }
    }
}

impl SameAs for Playlist {
    open spec fn equals_spec(&self, o: &Self) -> bool {
        self.equals(o)
    }

    fn same_as(&self, o: &Self) -> (r: bool) {
        self.name == o.name && crate::types::same_vec(&self.entries, &o.entries)
    }
}

/// Structural equality of playlists is symmetric.
pub proof fn lemma_playlist_equals_symmetric(a: Playlist, b: Playlist)
    ensures
        a.equals(&b) == b.equals(&a),
{
    if a.equals(&b) {
        assert forall|i: int| 0 <= i < b.entries.len() implies (#[trigger] b.entries@[i]).equals_spec(
            &a.entries@[i],
        ) by {
            assert(a.entries@[i].equals_spec(&b.entries@[i]));
        }
    }
    if b.equals(&a) {
        assert forall|i: int| 0 <= i < a.entries.len() implies (#[trigger] a.entries@[i]).equals_spec(
            &b.entries@[i],
        ) by {
            assert(b.entries@[i].equals_spec(&a.entries@[i]));
        }
    }
}

/// `id` is the smallest id of a song of the catalog that is structurally equal to `s`.
pub open spec fn canonical_id(songs: Map<u32, Song>, s: Song, id: u32) -> bool {
    &&& songs.contains_key(id)
    &&& songs[id].equals(&s)
    &&& forall|k: u32| songs.contains_key(k) && songs[k].equals(&s) ==> id <= k
}

/// `f` is entry `e` carried from song catalog `from` to song catalog `to`: a reference to a
/// song of `from` refers to the smallest id of an equal song of `to`, a reference to any other
/// id becomes a text naming that id, and a text is kept.
pub open spec fn entry_carried(
    e: PlaylistEntry,
    f: PlaylistEntry,
    from: Map<u32, Song>,
    to: Map<u32, Song>,
) -> bool {
    match e {
        PlaylistEntry::Song { song_id } => if from.contains_key(song_id) {
            f matches PlaylistEntry::Song { song_id: n } && canonical_id(to, from[song_id], n)
        } else {
            f is Text && f->Text_0@ == "Invalid song id "@ + decimal(song_id as nat)
        },
        PlaylistEntry::Text(t) => f is Text && f->Text_0@ == t@,
    }
}

/// `q` is playlist `p` with each entry carried from `from` to `to`.
pub open spec fn carried(p: Playlist, q: Playlist, from: Map<u32, Song>, to: Map<u32, Song>) -> bool {
    &&& q.name@ == p.name@
    &&& q.entries.len() == p.entries.len()
    &&& forall|i: int|
        0 <= i < p.entries.len() ==> entry_carried(
            #[trigger] p.entries@[i],
            q.entries@[i],
            from,
            to,
        )
}

/// The coordinate of a slide: a playlist, an entry of it, and a page of that entry.
#[derive(Clone, Copy, Debug, PartialEq, Eq)]
pub struct SlideIndex {
    /// The id of the playlist.
    pub playlist_id: u32,
    /// The index of the song or text entry within the playlist.
    pub entry_index: usize,
    /// The index of the page within the entry.
    pub page_index: usize,
}

impl View for SlideIndex {
    type V = (u32, int, int);

    open spec fn view(&self) -> (u32, int, int) {
        (self.playlist_id, self.entry_index as int, self.page_index as int)
    }
}

/// std's `ParseIntError`, the error of a failed `str::parse` of an integer, carried as it is.
#[verifier::external_type_specification]
#[verifier::external_body]
pub struct ExParseIntError(std::num::ParseIntError);

/// Whether `d` is one or more ASCII digits.
pub open spec fn is_digits(d: Seq<char>) -> bool {
    d.len() > 0 && forall|i: int| 0 <= i < d.len() ==> '0' <= #[trigger] d[i] <= '9'
}

/// The number that a string of ASCII digits denotes.
pub open spec fn digits_value(d: Seq<char>) -> nat
    decreases d.len(),
{
    if d.len() == 0 {
        0
    } else {
        digits_value(d.drop_last()) * 10 + (d.last() as nat - '0' as nat) as nat
    }
}

/// The number that `str::parse` reads from `s` for an unsigned integer type before its range is
/// checked: an optional `+` followed by ASCII digits; nothing for any other string.
pub open spec fn unsigned_value(s: Seq<char>) -> Option<nat> {
    let d = if s.len() > 0 && s[0] == '+' {
        s.drop_first()
    } else {
        s
    };
    if is_digits(d) {
        Some(digits_value(d))
    } else {
        None
    }
}

/// Relies on `str::parse::<u32>` (`u32::from_str`): it accepts exactly an optional `+` followed
/// by ASCII digits whose value fits in `u32`, and returns that value.
#[verifier::external_body]
fn parse_u32(s: &str) -> (r: Result<u32, std::num::ParseIntError>)
    ensures
        match r {
            Ok(v) => unsigned_value(s@) == Some(v as nat),
            Err(_) => !(unsigned_value(s@) matches Some(v) && v <= u32::MAX),
        },
{
    s.parse::<u32>()
}

/// Relies on `str::parse::<usize>` (`usize::from_str`): it accepts exactly an optional `+`
/// followed by ASCII digits whose value fits in `usize`, and returns that value.
#[verifier::external_body]
fn parse_usize(s: &str) -> (r: Result<usize, std::num::ParseIntError>)
    ensures
        match r {
            Ok(v) => unsigned_value(s@) == Some(v as nat),
            Err(_) => !(unsigned_value(s@) matches Some(v) && v <= usize::MAX),
        },
{
    s.parse::<usize>()
}

/// Why a string is not the text form of a slide coordinate.
#[derive(Debug, PartialEq, Eq)]
pub enum ParseSlideIndexError {
    /// The string has fewer than two commas.
    MissingComma,
    /// One of the three parts is not a number of its type.
    ParseInt(std::num::ParseIntError),
}

/// The three parts of the text form of a slide coordinate: the text before the first comma,
/// between the first and the second, and after the second.
pub open spec fn index_parts(s: Seq<char>) -> Option<(Seq<char>, Seq<char>, Seq<char>)> {
    match first_from(s, ',', 0) {
        None => None,
        Some(a) => {
            let rest = s.subrange(a + 1, s.len() as int);
            match first_from(rest, ',', 0) {
                None => None,
                Some(b) => Some(
                    (s.subrange(0, a), rest.subrange(0, b), rest.subrange(b + 1, rest.len() as int)),
                ),
            }
        },
    }
}

/// The parts denote numbers that fit the coordinate's fields.
pub open spec fn parts_fit(p: (Seq<char>, Seq<char>, Seq<char>)) -> bool {
    &&& unsigned_value(p.0) matches Some(v) && v <= u32::MAX
    &&& unsigned_value(p.1) matches Some(v) && v <= usize::MAX
    &&& unsigned_value(p.2) matches Some(v) && v <= usize::MAX
}

impl SlideIndex {
    /// The text form of a coordinate: its three numbers in decimal, separated by commas.
    pub open spec fn spec_text(&self) -> Seq<char> {
        decimal(self.playlist_id as nat) + ","@ + decimal(self.entry_index as nat) + ","@
            + decimal(self.page_index as nat)
    }

    /// Returns the text form of the coordinate, "playlist_id,entry_index,page_index".
    pub fn to_string(&self) -> (r: String)
        ensures
            r@ == self.spec_text(),
    {
        let mut out = String::new();
        append_decimal(&mut out, self.playlist_id as u64);
        out.append(",");
        append_decimal(&mut out, self.entry_index as u64);
        out.append(",");
        append_decimal(&mut out, self.page_index as u64);
        out
    }

    /// Reads a coordinate from its text form "playlist_id,entry_index,page_index". Fails with
    /// `MissingComma` where there are fewer than two commas, and with `ParseInt` where a part
    /// is not a number of its field's type; the third part runs to the end of the string.
    pub fn parse(s: &str) -> (r: Result<SlideIndex, ParseSlideIndexError>)
        ensures
            (r matches Err(ParseSlideIndexError::MissingComma)) <==> index_parts(s@) is None,
            index_parts(s@) matches Some(p) ==> (r is Ok <==> parts_fit(p)),
            r matches Ok(idx) ==> index_parts(s@) matches Some(p) && unsigned_value(p.0) == Some(
                idx.playlist_id as nat,
            ) && unsigned_value(p.1) == Some(idx.entry_index as nat) && unsigned_value(p.2)
                == Some(idx.page_index as nat),
    {
        let cs = chars_of(s);
        let a = match find_char(&cs, ',') {
            Some(a) => a,
            None => {
                return Err(ParseSlideIndexError::MissingComma);
            },
        };
        let rest = s.substring_char(a + 1, cs.len());
        let rcs = chars_of(rest);
        let b = match find_char(&rcs, ',') {
            Some(b) => b,
            None => {
                return Err(ParseSlideIndexError::MissingComma);
            },
        };
        let first = s.substring_char(0, a);
        let second = rest.substring_char(0, b);
        let third = rest.substring_char(b + 1, rcs.len());
        let playlist_id = match parse_u32(first) {
            Ok(v) => v,
            Err(e) => {
                return Err(ParseSlideIndexError::ParseInt(e));
            },
        };
        let entry_index = match parse_usize(second) {
            Ok(v) => v,
            Err(e) => {
                return Err(ParseSlideIndexError::ParseInt(e));
            },
        };
        let page_index = match parse_usize(third) {
            Ok(v) => v,
            Err(e) => {
                return Err(ParseSlideIndexError::ParseInt(e));
            },
        };
        Ok(SlideIndex { playlist_id, entry_index, page_index })
    }
}

impl std::str::FromStr for SlideIndex {
    type Err = ParseSlideIndexError;

    fn from_str(s: &str) -> Result<SlideIndex, ParseSlideIndexError> {
        SlideIndex::parse(s)
    }
}

/// The slides of one playlist entry, given the song catalog. A song that is not in the
/// catalog has no slides.
pub open spec fn entry_slides(songs: Map<u32, Song>, e: PlaylistEntry) -> Seq<SlideView> {
    match e {
        PlaylistEntry::Song { song_id } => if songs.contains_key(song_id) {
            song_slides(song_id, songs[song_id])
        } else {
            seq![]
        },
        PlaylistEntry::Text(t) => seq![SlideView::Text(t@)],
    }
}

/// The addressed slides of entry `i` of playlist `pid`.
pub open spec fn addressed(songs: Map<u32, Song>, pid: u32, i: int, e: PlaylistEntry) -> Seq<
    ((u32, int, int), SlideView),
> {
    Seq::new(entry_slides(songs, e).len(), |p: int| ((pid, i, p), entry_slides(songs, e)[p]))
}

/// The addressed slides of the entries `es` of playlist `pid`, concatenated in entry order.
pub open spec fn entries_slides(songs: Map<u32, Song>, pid: u32, es: Seq<PlaylistEntry>) -> Seq<
    ((u32, int, int), SlideView),
>
    decreases es.len(),
{
    if es.len() == 0 {
        seq![]
    } else {
        entries_slides(songs, pid, es.drop_last()) + addressed(
            songs,
            pid,
            es.len() - 1,
            es.last(),
        )
    }
}

/// Returns the keys of a map in increasing order.
pub fn keys_of<V>(m: &BTreeMap<u32, V>) -> (r: Vec<u32>)
    ensures
        r.len() == m@.dom().len(),
        forall|i: int, j: int| 0 <= i < j < r.len() ==> r[i] < r[j],
        forall|k: u32| #[trigger] m@.contains_key(k) ==> exists|t: int| 0 <= t < r.len() && r[t] == k,
        forall|t: int| 0 <= t < r.len() ==> m@.contains_key(#[trigger] r[t]),
{
    let keys = m.keys();
    let ghost ks = vstd::std_specs::btree::spec_keys_iter(m).remaining();
    let mut r: Vec<u32> = Vec::new();
    for k in it: keys
        invariant
            it.seq() == ks,
            r@ == ks.take(it.index() as int).unref(),
    {
        proof {
            assert(ks.take(it.index() + 1).unref() =~= ks.take(it.index() as int).unref().push(*k));
        }
        r.push(*k);
    }
    proof {
        assert(ks.take(ks.len() as int) =~= ks);
        assert(vstd::laws_cmp::obeys_cmp::<u32>());
        assert(vstd::laws_cmp::obeys_cmp::<&u32>());
        assert(vstd::std_specs::btree::increasing_seq(ks));
        vstd::std_specs::btree::axiom_increasing_seq_meaning::<&u32>(ks);
        assert forall|i: int, j: int| 0 <= i < j < r.len() implies r[i] < r[j] by {
            assert(<&u32 as OrdSpec>::cmp_spec(&ks[i], &ks[j]) is Less);
            assert(<u32 as OrdSpec>::cmp_spec(ks[i], ks[j]) is Less);
        }
        assert(ks.unref().to_set() == m@.dom());
        assert forall|k: u32| #[trigger] m@.contains_key(k) implies exists|t: int|
            0 <= t < r.len() && r[t] == k by {
            assert(ks.unref().to_set().contains(k));
            assert(r@.contains(k));
        }
        assert forall|t: int| 0 <= t < r.len() implies m@.contains_key(#[trigger] r[t]) by {
            assert(r@.contains(r[t]));
            assert(ks.unref().to_set().contains(r[t]));
        }
    }
    r
}

/// Every id of the set leaves room for a larger one.
pub open spec fn ids_fit(ids: Set<u32>) -> bool {
    forall|k: u32| ids.contains(k) ==> k < u32::MAX
}

/// `id` is the id allocated next in a catalog with the given ids: one more than the largest,
/// or 0 for an empty catalog.
pub open spec fn is_next_id(ids: Set<u32>, id: u32) -> bool {
    &&& ids.is_empty() ==> id == 0
    &&& !ids.is_empty() ==> id > 0 && ids.contains((id - 1) as u32)
    &&& forall|k: u32| ids.contains(k) ==> k < id
}

/// Returns the id to allocate next in a catalog.
pub fn next_id<V>(m: &BTreeMap<u32, V>) -> (r: u32)
    requires
        ids_fit(m@.dom()),
    ensures
        is_next_id(m@.dom(), r),
{
    let ids = keys_of(m);
    if ids.len() == 0 {
        assert forall|k: u32| !m@.dom().contains(k) by {
            if m@.contains_key(k) {
            }
        }
        assert(m@.dom() =~= Set::<u32>::empty());
        0
    } else {
        let last = ids[ids.len() - 1];
        assert forall|k: u32| m@.dom().contains(k) implies k < last + 1 by {
            assert(m@.contains_key(k));
            let t = choose|t: int| 0 <= t < ids.len() && ids[t] == k;
            if t < ids.len() - 1 {
                assert(ids[t] < ids[ids.len() - 1]);
            }
        }
        assert(m@.contains_key(ids[ids.len() - 1]));
        last + 1
    }
}

/// Some song of the catalog is structurally equal to `song`.
pub open spec fn has_equal(songs: Map<u32, Song>, song: Song) -> bool {
    exists|k: u32| songs.contains_key(k) && songs[k].equals(&song)
}

/// `new` and `id` are what adding `song` to catalog `old` gives: if an equal song is there, the
/// catalog is unchanged and `id` is the smallest id of such a song; otherwise `song` is inserted
/// under the next id.
pub open spec fn song_added(old: Map<u32, Song>, song: Song, id: u32, new: Map<u32, Song>) -> bool {
    &&& has_equal(old, song) ==> new == old && canonical_id(old, song, id)
    &&& !has_equal(old, song) ==> new == old.insert(id, song) && is_next_id(old.dom(), id)
}

/// Dedup idempotence: adding a song and then a structurally equal one gives the same id both
/// times, and the second addition leaves the catalog, and so its size, as the first left it.
pub proof fn lemma_add_song_idempotent(
    m0: Map<u32, Song>,
    first: Song,
    id1: u32,
    m1: Map<u32, Song>,
    second: Song,
    id2: u32,
    m2: Map<u32, Song>,
)
    requires
        second.equals(&first),
        song_added(m0, first, id1, m1),
        song_added(m1, second, id2, m2),
    ensures
        id2 == id1,
        m2 == m1,
        m2.dom().len() == m1.dom().len(),
{
    lemma_song_equals_refl(first);
    lemma_song_equals_sym_trans(second, first, second);
    assert forall|k: u32| m1.contains_key(k) implies (m1[k].equals(&first) <==> m1[k].equals(
        &second,
    )) by {
        lemma_song_equals_sym_trans(m1[k], first, second);
        lemma_song_equals_sym_trans(m1[k], second, first);
    }
    if has_equal(m0, first) {
        assert(m1[id1].equals(&second));
        assert(id1 <= id2 && id2 <= id1);
    } else {
        assert(m1.contains_key(id1) && m1[id1].equals(&second));
        assert(has_equal(m1, second));
        if id2 != id1 {
            assert(m0.contains_key(id2) && m0[id2].equals(&first));
        }
    }
}

/// `new` is `old` with each reference to song `id` replaced by the placeholder text.
pub open spec fn references_replaced(
    old: Seq<PlaylistEntry>,
    new: Seq<PlaylistEntry>,
    id: u32,
) -> bool {
    &&& new.len() == old.len()
    &&& forall|i: int|
        0 <= i < old.len() ==> if old[i] == (PlaylistEntry::Song { song_id: id }) {
            new[i] is Text && new[i]->Text_0@ == "Song removed"@
        } else {
            new[i] == old[i]
        }
}

/// `new` is `old` with the entries at `i` and `j` exchanged.
pub open spec fn swapped(old: Seq<PlaylistEntry>, new: Seq<PlaylistEntry>, i: int, j: int) -> bool {
    new == old.update(i, old[j]).update(j, old[i])
}

/// Returns entry `e` with its song reference carried through `mapping`, from the ids of
/// catalog `from` to those of catalog `to`.
fn carry_entry(
    e: &PlaylistEntry,
    mapping: &BTreeMap<u32, u32>,
    from: Ghost<Map<u32, Song>>,
    to: Ghost<Map<u32, Song>>,
) -> (r: PlaylistEntry)
    requires
        forall|j: u32| mapping@.contains_key(j) <==> from@.contains_key(j),
        forall|j: u32|
            #[trigger] mapping@.contains_key(j) ==> canonical_id(to@, from@[j], mapping@[j]),
    ensures
        entry_carried(*e, r, from@, to@),
{
    match e {
        PlaylistEntry::Song { song_id } => match mapping.get(song_id) {
            Some(n) => PlaylistEntry::Song { song_id: *n },
            None => {
                let mut text = String::new();
                text.append("Invalid song id ");
                append_decimal(&mut text, *song_id as u64);
                PlaylistEntry::Text(text)
            },
        },
        PlaylistEntry::Text(t) => PlaylistEntry::Text(t.clone()),
    }
}

/// A playlist that is structurally equal to a carried playlist is carried too.
proof fn lemma_carried_equal(p: Playlist, q: Playlist, q2: Playlist, from: Map<u32, Song>, to: Map<
    u32,
    Song,
>)
    requires
        carried(p, q, from, to),
        q2.equals(&q),
    ensures
        carried(p, q2, from, to),
{
    assert forall|i: int| 0 <= i < p.entries.len() implies entry_carried(
        #[trigger] p.entries@[i],
        q2.entries@[i],
        from,
        to,
    ) by {
        assert(q2.entries@[i].equals_spec(&q.entries@[i]));
        assert(entry_carried(p.entries@[i], q.entries@[i], from, to));
    }
}

/// The key by which songs are listed: the primary title, or nothing for a song without one.
pub open spec fn title_key(song: Song) -> Seq<char> {
    if song.properties.titles.titles.len() > 0 {
        song.properties.titles.titles@[0].title@
    } else {
        Seq::empty()
    }
}

/// `a` comes no later than `b` in the lexicographic order of character codes.
pub open spec fn lex_le(a: Seq<char>, b: Seq<char>) -> bool
    decreases a.len(),
{
    if a.len() == 0 {
        true
    } else if b.len() == 0 {
        false
    } else if a[0] != b[0] {
        (a[0] as u32) < (b[0] as u32)
    } else {
        lex_le(a.drop_first(), b.drop_first())
    }
}

proof fn lemma_lex_total(a: Seq<char>, b: Seq<char>)
    ensures
        lex_le(a, b) || lex_le(b, a),
    decreases a.len(),
{
    if a.len() > 0 && b.len() > 0 {
        if a[0] == b[0] {
            lemma_lex_total(a.drop_first(), b.drop_first());
        } else {
            vstd::utf8::char_u32_cast(a[0], a[0] as u32);
            vstd::utf8::char_u32_cast(b[0], b[0] as u32);
        }
    }
}

/// Each key comes no later than the next.
pub open spec fn sorted_keys(ks: Seq<Seq<char>>) -> bool {
    forall|t: int| 0 <= t < ks.len() - 1 ==> lex_le(#[trigger] ks[t], ks[t + 1])
}

proof fn lemma_insert_sorted(ks: Seq<Seq<char>>, pos: int, key: Seq<char>)
    requires
        sorted_keys(ks),
        0 <= pos <= ks.len(),
        pos > 0 ==> lex_le(ks[pos - 1], key),
        pos < ks.len() ==> lex_le(key, ks[pos]),
    ensures
        sorted_keys(ks.insert(pos, key)),
{
    let out = ks.insert(pos, key);
    assert forall|t: int| 0 <= t < out.len() - 1 implies lex_le(#[trigger] out[t], out[t + 1]) by {
        if t + 1 < pos {
            assert(out[t] == ks[t] && out[t + 1] == ks[t + 1]);
        } else if t + 1 == pos {
            assert(out[t] == ks[t] && out[t + 1] == key);
        } else if t == pos {
            assert(out[t] == key && out[t + 1] == ks[t]);
        } else {
            assert(out[t] == ks[t - 1] && out[t + 1] == ks[t]);
        }
    }
}

fn lex_le_chars(a: &Vec<char>, b: &Vec<char>) -> (r: bool)
    ensures
        r == lex_le(a@, b@),
{
    let mut i: usize = 0;
    assert(a@.skip(0) =~= a@);
    assert(b@.skip(0) =~= b@);
    while i < a.len() && i < b.len() && a[i] == b[i]
        invariant
            i <= a.len(),
            i <= b.len(),
            lex_le(a@, b@) == lex_le(a@.skip(i as int), b@.skip(i as int)),
        decreases a.len() - i,
    {
        assert(a@.skip(i as int).drop_first() =~= a@.skip(i + 1));
        assert(b@.skip(i as int).drop_first() =~= b@.skip(i + 1));
        i += 1;
    }
    if i == a.len() {
        true
    } else if i == b.len() {
        false
    } else {
        (a[i] as u32) < (b[i] as u32)
    }
}

fn title_chars(song: &Song) -> (r: Vec<char>)
    ensures
        r@ == title_key(*song),
{
    if song.properties.titles.titles.len() > 0 {
        chars_of(song.properties.titles.titles[0].title.as_str())
    } else {
        Vec::new()
    }
}

/// The presentation styling. Purely cosmetic.
#[derive(Clone, Debug, PartialEq)]
pub struct Theme {
    pub title_size: u32,
    pub title_colour: String,
    pub body_size: u32,
    pub body_colour: String,
    pub background_colour: String,
    pub font: String,
}

impl Theme {
    /// The theme as plain values.
    pub open spec fn spec_fields(&self) -> (u32, Seq<char>, u32, Seq<char>, Seq<char>, Seq<char>) {
        (
            self.title_size,
            self.title_colour@,
            self.body_size,
            self.body_colour@,
            self.background_colour@,
            self.font@,
        )
    }

    /// Returns a copy of the theme.
    pub fn copy(&self) -> (r: Theme)
        ensures
            r.spec_fields() == self.spec_fields(),
    {
        Theme {
            title_size: self.title_size,
            title_colour: self.title_colour.clone(),
            body_size: self.body_size,
            body_colour: self.body_colour.clone(),
            background_colour: self.background_colour.clone(),
            font: self.font.clone(),
        }
    }
}

impl Default for Theme {
    fn default() -> (r: Theme)
        ensures
            r.title_size == 5 && r.body_size == 3,
            r.title_colour@ == "#000000"@,
            r.body_colour@ == "#000000"@,
            r.background_colour@ == "#ffffff"@,
            r.font@ == "sans-serif"@,
    {
        Theme {
            title_size: 5,
            title_colour: "#000000".to_string(),
            body_size: 3,
            body_colour: "#000000".to_string(),
            background_colour: "#ffffff".to_string(),
            font: "sans-serif".to_string(),
        }
    }
}

/// The songs and playlists of a presentation, and its styling.
#[derive(Clone, Debug, PartialEq)]
pub struct State {
    pub songs: BTreeMap<u32, Song>,
    pub playlists: BTreeMap<u32, Playlist>,
    pub theme: Theme,
}

impl State {
    /// The slides of playlist `pid` with their coordinates, in order; none for an unknown id.
    pub open spec fn spec_slides(&self, pid: u32) -> Seq<((u32, int, int), SlideView)> {
        if self.playlists@.contains_key(pid) {
            entries_slides(self.songs@, pid, self.playlists@[pid].entries@)
        } else {
            seq![]
        }
    }

    /// The slide at a coordinate, if the coordinate addresses one.
    pub open spec fn spec_slide(&self, idx: (u32, int, int)) -> Option<SlideView> {
        let (pid, e, p) = idx;
        if self.playlists@.contains_key(pid) && 0 <= e < self.playlists@[pid].entries.len() {
            let slides = entry_slides(self.songs@, self.playlists@[pid].entries@[e]);
            if 0 <= p < slides.len() {
                Some(slides[p])
            } else {
                None
            }
        } else {
            None
        }
    }

    /// Returns the slides of the given playlist with their coordinates, in playlist order; a
    /// song entry yields its expansion and a text entry one slide. An unknown playlist yields
    /// none.
    pub fn slides(&self, playlist_id: u32) -> (r: Vec<(SlideIndex, Slide)>)
        ensures
            r@.map_values(|x: (SlideIndex, Slide)| (x.0@, x.1@)) == self.spec_slides(playlist_id),
    {
        let mut r: Vec<(SlideIndex, Slide)> = Vec::new();
        let playlist = match self.playlists.get(&playlist_id) {
            Some(playlist) => playlist,
            None => {
                assert(r@.map_values(|x: (SlideIndex, Slide)| (x.0@, x.1@)) =~= seq![]);
                return r;
            },
        };
        let es = &playlist.entries;
        let ghost songs = self.songs@;
        let mut i: usize = 0;
        assert(es@.take(0) =~= Seq::<PlaylistEntry>::empty());
        assert(r@.map_values(|x: (SlideIndex, Slide)| (x.0@, x.1@)) =~= seq![]);
        while i < es.len()
            invariant
                i <= es.len(),
                songs == self.songs@,
                *es == self.playlists@[playlist_id].entries,
                self.playlists@.contains_key(playlist_id),
                r@.map_values(|x: (SlideIndex, Slide)| (x.0@, x.1@)) == entries_slides(
                    songs,
                    playlist_id,
                    es@.take(i as int),
                ),
            decreases es.len() - i,
        {
            let ghost before = r@.map_values(|x: (SlideIndex, Slide)| (x.0@, x.1@));
            let ghost block = addressed(songs, playlist_id, i as int, es@[i as int]);
            assert(es@.take(i + 1).drop_last() =~= es@.take(i as int));
            assert(entries_slides(songs, playlist_id, es@.take(i + 1)) == before + block);
            match &es[i] {
                PlaylistEntry::Song { song_id } => {
                    match self.songs.get(song_id) {
                        Some(song) => {
                            let ss = slides_for_song(*song_id, song);
                            let mut p: usize = 0;
                            while p < ss.len()
                                invariant
                                    p <= ss.len(),
                                    ss@.map_values(|s: Slide| s@) == song_slides(
                                        *song_id,
                                        songs[*song_id],
                                    ),
                                    songs.contains_key(*song_id),
                                    es@[i as int] == (PlaylistEntry::Song { song_id: *song_id }),
                                    block == addressed(songs, playlist_id, i as int, es@[i as int]),
                                    r@.map_values(|x: (SlideIndex, Slide)| (x.0@, x.1@)) == before
                                        + block.take(p as int),
                                decreases ss.len() - p,
                            {
                                let s = copy_slide(&ss[p]);
                                let idx = SlideIndex { playlist_id, entry_index: i, page_index: p };
                                let ghost prev = r@;
                                proof {
                                    assert(ss@.map_values(|s: Slide| s@)[p as int] == ss@[p as int]@);
                                    assert(block[p as int] == (idx@, s@));
                                    assert(block.take(p + 1) =~= block.take(p as int).push(block[p as int]));
                                }
                                r.push((idx, s));
                                assert(r@.map_values(|x: (SlideIndex, Slide)| (x.0@, x.1@))
                                    =~= prev.map_values(|x: (SlideIndex, Slide)| (x.0@, x.1@)).push((idx@, s@)));
                                p += 1;
                            }
                            assert(block.take(ss.len() as int) =~= block);
                        },
                        None => {
                            assert(block =~= seq![]);
                            assert(before + block =~= before);
                        },
                    }
                },
                PlaylistEntry::Text(text) => {
                    let idx = SlideIndex { playlist_id, entry_index: i, page_index: 0 };
                    r.push((idx, Slide::Text(text.clone())));
                    assert(r@.map_values(|x: (SlideIndex, Slide)| (x.0@, x.1@)) =~= before + block);
                },
            }
            i += 1;
        }
        assert(es@.take(es.len() as int) =~= es@);
        r
    }

    /// Returns the slide at the given coordinate, or `None` where the coordinate addresses no
    /// slide. A song page is found by walking the song's visit order, without enumerating the
    /// playlist.
    pub fn slide(&self, index: SlideIndex) -> (r: Option<Slide>)
        ensures
            match r {
                Some(s) => self.spec_slide(index@) == Some(s@),
                None => self.spec_slide(index@) is None,
            },
    {
        let playlist = match self.playlists.get(&index.playlist_id) {
            Some(playlist) => playlist,
            None => {
                return None;
            },
        };
        if index.entry_index >= playlist.entries.len() {
            return None;
        }
        match &playlist.entries[index.entry_index] {
            PlaylistEntry::Text(text) => {
                if index.page_index == 0 {
                    Some(Slide::Text(text.clone()))
                } else {
                    None
                }
            },
            PlaylistEntry::Song { song_id } => match self.songs.get(song_id) {
                Some(song) => song_slide_at(*song_id, song, index.page_index),
                None => None,
            },
        }
    }

    /// Adds a song to the catalog and returns its id. If a structurally equal song is already
    /// there, nothing is added and the smallest id of such a song is returned; otherwise the
    /// song gets the next id.
    pub fn add_song(&mut self, song: Song) -> (r: u32)
        requires
            ids_fit(old(self).songs@.dom()),
        ensures
            final(self).playlists@ == old(self).playlists@,
            final(self).theme == old(self).theme,
            song_added(old(self).songs@, song, r, final(self).songs@),
    {
        let ids = keys_of(&self.songs);
        let mut i: usize = 0;
        while i < ids.len()
            invariant
                i <= ids.len(),
                forall|a: int, b: int| 0 <= a < b < ids.len() ==> ids[a] < ids[b],
                forall|k: u32| #[trigger] self.songs@.contains_key(k) ==> exists|t: int| 0 <= t < ids.len() && ids[t] == k,
                forall|t: int| 0 <= t < ids.len() ==> self.songs@.contains_key(#[trigger] ids[t]),
                forall|t: int| 0 <= t < i ==> !self.songs@[ids[t]].equals(&song),
            decreases ids.len() - i,
        {
            let id = ids[i];
            let existing = self.songs.get(&id).unwrap();
            if existing.same_as(&song) {
                assert forall|k: u32|
                    self.songs@.contains_key(k) && self.songs@[k].equals(&song) implies id <= k by {
                    assert(self.songs@.contains_key(k));
                    let t = choose|t: int| 0 <= t < ids.len() && ids[t] == k;
                    if t < i {
                    } else if t > i {
                        assert(ids[i as int] < ids[t]);
                    }
                }
                return id;
            }
            i += 1;
        }
        assert(!has_equal(self.songs@, song)) by {
            if has_equal(self.songs@, song) {
                let k = choose|k: u32| self.songs@.contains_key(k) && self.songs@[k].equals(&song);
                assert(self.songs@.contains_key(k));
                let t = choose|t: int| 0 <= t < ids.len() && ids[t] == k;
            }
        }
        let id = next_id(&self.songs);
        self.songs.insert(id, song);
        id
    }

    /// Adds a playlist under the next playlist id and returns that id.
    pub fn add_playlist(&mut self, playlist: Playlist) -> (r: u32)
        requires
            ids_fit(old(self).playlists@.dom()),
        ensures
            final(self).playlists@ == old(self).playlists@.insert(r, playlist),
            is_next_id(old(self).playlists@.dom(), r),
            final(self).songs@ == old(self).songs@,
            final(self).theme == old(self).theme,
    {
        let id = next_id(&self.playlists);
        self.playlists.insert(id, playlist);
        id
    }

    /// Removes a song from the catalog, replacing every playlist entry that refers to it, in
    /// every playlist, with the text "Song removed".
    pub fn remove_song(&mut self, song_id: u32)
        ensures
            final(self).songs@ == old(self).songs@.remove(song_id),
            final(self).playlists@.dom() == old(self).playlists@.dom(),
            forall|pid: u32|
                #![trigger final(self).playlists@[pid]]
                old(self).playlists@.contains_key(pid) ==> {
                    &&& final(self).playlists@[pid].name == old(self).playlists@[pid].name
                    &&& references_replaced(
                        old(self).playlists@[pid].entries@,
                        final(self).playlists@[pid].entries@,
                        song_id,
                    )
                },
            forall|pid: u32, i: int|
                final(self).playlists@.contains_key(pid) && 0 <= i < final(self).playlists@[pid].entries.len() ==> final(self).playlists@[pid].entries@[i]
                    != (PlaylistEntry::Song { song_id }),
            final(self).theme == old(self).theme,
    {
        let ghost old_playlists = self.playlists@;
        self.songs.remove(&song_id);
        let ids = keys_of(&self.playlists);
        let mut n: usize = 0;
        while n < ids.len()
            invariant
                n <= ids.len(),
                forall|a: int, b: int| 0 <= a < b < ids.len() ==> ids[a] < ids[b],
                forall|k: u32| #[trigger] old_playlists.contains_key(k) ==> exists|t: int| 0 <= t < ids.len() && ids[t] == k,
                forall|t: int| 0 <= t < ids.len() ==> old_playlists.contains_key(#[trigger] ids[t]),
                self.playlists@.dom() == old_playlists.dom(),
                self.songs@ == old(self).songs@.remove(song_id),
                self.theme == old(self).theme,
                forall|t: int|
                    n <= t < ids.len() ==> self.playlists@[#[trigger] ids[t]] == old_playlists[ids[t]],
                forall|t: int|
                    0 <= t < n ==> {
                        &&& self.playlists@[#[trigger] ids[t]].name == old_playlists[ids[t]].name
                        &&& references_replaced(
                            old_playlists[ids[t]].entries@,
                            self.playlists@[ids[t]].entries@,
                            song_id,
                        )
                    },
            decreases ids.len() - n,
        {
            let pid = ids[n];
            let mut playlist = self.playlists.remove(&pid).unwrap();
            let ghost before = playlist.entries@;
            assert(before == old_playlists[pid].entries@);
            let mut i: usize = 0;
            while i < playlist.entries.len()
                invariant
                    i <= playlist.entries.len() == before.len(),
                    before == old_playlists[pid].entries@,
                    playlist.name == old_playlists[pid].name,
                    forall|t: int|
                        0 <= t < i ==> if before[t] == (PlaylistEntry::Song { song_id }) {
                            playlist.entries@[t] is Text && playlist.entries@[t]->Text_0@
                                == "Song removed"@
                        } else {
                            playlist.entries@[t] == before[t]
                        },
                    forall|t: int| i <= t < before.len() ==> playlist.entries@[t] == before[t],
                decreases before.len() - i,
            {
                let refers = match &playlist.entries[i] {
                    PlaylistEntry::Song { song_id: id } => *id == song_id,
                    PlaylistEntry::Text(_) => false,
                };
                if refers {
                    playlist.entries.set(i, PlaylistEntry::Text("Song removed".to_string()));
                }
                i += 1;
            }
            self.playlists.insert(pid, playlist);
            proof {
                assert forall|t: int| n < t < ids.len() implies self.playlists@[#[trigger] ids[t]]
                    == old_playlists[ids[t]] by {
                    assert(ids[n as int] < ids[t]);
                }
                assert forall|t: int| 0 <= t < n implies self.playlists@[#[trigger] ids[t]].name
                    == old_playlists[ids[t]].name by {
                    assert(ids[t] < ids[n as int]);
                }
            }
            n += 1;
        }
        proof {
            assert forall|pid: u32| #![trigger self.playlists@[pid]]
                old_playlists.contains_key(pid) implies {
                &&& self.playlists@[pid].name == old_playlists[pid].name
                &&& references_replaced(
                    old_playlists[pid].entries@,
                    self.playlists@[pid].entries@,
                    song_id,
                )
            } by {
                assert(old_playlists.contains_key(pid));
                let t = choose|t: int| 0 <= t < ids.len() && ids[t] == pid;
            }
            assert forall|pid: u32, i: int|
                self.playlists@.contains_key(pid) && 0 <= i < self.playlists@[pid].entries.len()
                implies self.playlists@[pid].entries@[i] != (PlaylistEntry::Song { song_id }) by {
                assert(old_playlists.contains_key(pid));
                let t = choose|t: int| 0 <= t < ids.len() && ids[t] == pid;
            }
        }
    }

    /// Exchanges entry `entry_index` of a playlist with the entry `offset` places away. Returns
    /// whether it did; where the playlist is unknown or either position is out of range, nothing
    /// changes.
    pub fn move_entry_index(&mut self, playlist_id: u32, entry_index: usize, offset: isize) -> (r:
        bool)
        ensures
            r == (old(self).playlists@.contains_key(playlist_id) && entry_index < old(self).playlists@[playlist_id].entries.len() && 0 <= entry_index + offset < old(self).playlists@[playlist_id].entries.len()),
            r ==> {
                &&& final(self).playlists@.dom() == old(self).playlists@.dom()
                &&& forall|pid: u32|
                    old(self).playlists@.contains_key(pid) && pid != playlist_id
                        ==> final(self).playlists@[pid] == old(self).playlists@[pid]
                &&& final(self).playlists@[playlist_id].name == old(self).playlists@[playlist_id].name
                &&& swapped(
                    old(self).playlists@[playlist_id].entries@,
                    final(self).playlists@[playlist_id].entries@,
                    entry_index as int,
                    entry_index + offset,
                )
            },
            !r ==> final(self).playlists@ == old(self).playlists@,
            final(self).songs@ == old(self).songs@,
            final(self).theme == old(self).theme,
    {
        let len = match self.playlists.get(&playlist_id) {
            Some(playlist) => playlist.entries.len(),
            None => {
                return false;
            },
        };
        let target: i128 = entry_index as i128 + offset as i128;
        if entry_index >= len || target < 0 || target >= len as i128 {
            return false;
        }
        let j = target as usize;
        let mut playlist = self.playlists.remove(&playlist_id).unwrap();
        let ghost before = playlist.entries@;
        if j != entry_index {
            let mut held = PlaylistEntry::Text(String::new());
            playlist.entries.set_and_swap(entry_index, &mut held);
            playlist.entries.set_and_swap(j, &mut held);
            playlist.entries.set_and_swap(entry_index, &mut held);
        }
        assert(playlist.entries@ =~= before.update(entry_index as int, before[j as int]).update(
            j as int,
            before[entry_index as int],
        ));
        self.playlists.insert(playlist_id, playlist);
        true
    }

    /// Returns the coordinate of the slide at the given position of the playlist's enumerated
    /// slides, or `None` past the end or for an unknown playlist.
    pub fn slide_index_for_index(&self, playlist_id: u32, slide_index: usize) -> (r: Option<
        SlideIndex,
    >)
        ensures
            match r {
                Some(idx) => slide_index < self.spec_slides(playlist_id).len() && idx@ == self.spec_slides(
                    playlist_id,
                )[slide_index as int].0,
                None => slide_index >= self.spec_slides(playlist_id).len(),
            },
    {
        let playlist = match self.playlists.get(&playlist_id) {
            Some(playlist) => playlist,
            None => {
                return None;
            },
        };
        let es = &playlist.entries;
        let ghost songs = self.songs@;
        let ghost all = entries_slides(songs, playlist_id, es@);
        let mut left: usize = slide_index;
        let mut i: usize = 0;
        assert(es@.take(0) =~= Seq::<PlaylistEntry>::empty());
        while i < es.len()
            invariant
                i <= es.len(),
                songs == self.songs@,
                all == entries_slides(songs, playlist_id, es@),
                self.playlists@.contains_key(playlist_id),
                *es == self.playlists@[playlist_id].entries,
                entries_slides(songs, playlist_id, es@.take(i as int)).len() + left == slide_index,
            decreases es.len() - i,
        {
            let count: usize = match &es[i] {
                PlaylistEntry::Song { song_id } => match self.songs.get(song_id) {
                    Some(song) => slides_for_song(*song_id, song).len(),
                    None => 0,
                },
                PlaylistEntry::Text(_) => 1,
            };
            let ghost block = addressed(songs, playlist_id, i as int, es@[i as int]);
            assert(count == block.len());
            assert(es@.take(i + 1).drop_last() =~= es@.take(i as int));
            let ghost pre = entries_slides(songs, playlist_id, es@.take(i as int));
            assert(entries_slides(songs, playlist_id, es@.take(i + 1)) == pre + block);
            if left < count {
                proof {
                    lemma_entries_prefix(songs, playlist_id, es@, i + 1);
                    assert(all[slide_index as int] == (pre + block)[slide_index as int]);
                    assert((pre + block)[slide_index as int] == block[left as int]);
                    assert(block[left as int].0 == (playlist_id, i as int, left as int));
                    assert(self.spec_slides(playlist_id) == all);
                }
                return Some(SlideIndex { playlist_id, entry_index: i, page_index: left });
            }
            left = left - count;
            i += 1;
        }
        assert(es@.take(es.len() as int) =~= es@);
        None
    }

    /// Imports another state. Each of its songs is added as `add_song` adds it, which maps
    /// its id to the id of an equal song here; each of its playlists, with its song references
    /// carried through that mapping, is added unless an equal playlist is already here; and its
    /// theme replaces this one.
    pub fn merge(&mut self, other: State)
        requires
            other.songs@.dom().len() < u32::MAX,
            other.playlists@.dom().len() < u32::MAX,
            forall|k: u32|
                old(self).songs@.contains_key(k) ==> k + other.songs@.dom().len() < u32::MAX,
            forall|k: u32|
                old(self).playlists@.contains_key(k) ==> k + other.playlists@.dom().len()
                    < u32::MAX,
        ensures
            final(self).theme == other.theme,
            forall|k: u32|
                #[trigger] old(self).songs@.contains_key(k) ==> final(self).songs@.contains_key(k)
                    && final(self).songs@[k] == old(self).songs@[k],
            forall|k: u32|
                #[trigger] final(self).songs@.contains_key(k) && !old(self).songs@.contains_key(k)
                    ==> exists|j: u32|
                    other.songs@.contains_key(j) && final(self).songs@[k] == other.songs@[j],
            forall|j: u32|
                other.songs@.contains_key(j) ==> exists|n: u32|
                    canonical_id(final(self).songs@, other.songs@[j], n),
            forall|k: u32|
                #[trigger] old(self).playlists@.contains_key(k) ==> final(self).playlists@.contains_key(k)
                    && final(self).playlists@[k] == old(self).playlists@[k],
            forall|pid: u32|
                other.playlists@.contains_key(pid) ==> exists|q: u32|
                    final(self).playlists@.contains_key(q) && carried(
                        other.playlists@[pid],
                        final(self).playlists@[q],
                        other.songs@,
                        final(self).songs@,
                    ),
            forall|q: u32|
                #[trigger] final(self).playlists@.contains_key(q) && !old(self).playlists@.contains_key(q) ==> {
                    &&& exists|pid: u32|
                        other.playlists@.contains_key(pid) && carried(
                            other.playlists@[pid],
                            final(self).playlists@[q],
                            other.songs@,
                            final(self).songs@,
                        )
                    &&& forall|q2: u32|
                        final(self).playlists@.contains_key(q2) && q2 != q ==> !final(self).playlists@[q2].equals(&final(self).playlists@[q])
                },
    {
        let ghost old_songs = self.songs@;
        let ghost old_playlists = self.playlists@;
        let ghost from = other.songs@;
        let ghost from_playlists = other.playlists@;
        let State { songs: mut other_songs, playlists: mut other_playlists, theme } = other;
        let ids = keys_of(&other_songs);
        let mut mapping: BTreeMap<u32, u32> = BTreeMap::new();
        let mut n: usize = 0;
        while n < ids.len()
            invariant
                n <= ids.len() == from.dom().len(),
                ids.len() < u32::MAX,
                forall|a: int, b: int| 0 <= a < b < ids.len() ==> ids[a] < ids[b],
                forall|k: u32|
                    #[trigger] from.contains_key(k) ==> exists|t: int| 0 <= t < ids.len() && ids[t] == k,
                forall|t: int| 0 <= t < ids.len() ==> from.contains_key(#[trigger] ids[t]),
                forall|t: int|
                    n <= t < ids.len() ==> other_songs@.contains_key(#[trigger] ids[t])
                        && other_songs@[ids[t]] == from[ids[t]],
                forall|k: u32| self.songs@.contains_key(k) ==> k + (ids.len() - n) < u32::MAX,
                forall|k: u32|
                    #[trigger] old_songs.contains_key(k) ==> self.songs@.contains_key(k)
                        && self.songs@[k] == old_songs[k],
                forall|k: u32|
                    #[trigger] self.songs@.contains_key(k) && !old_songs.contains_key(k)
                        ==> exists|j: u32| from.contains_key(j) && self.songs@[k] == from[j],
                forall|j: u32|
                    #[trigger] mapping@.contains_key(j) <==> exists|t: int| 0 <= t < n && ids[t] == j,
                forall|j: u32|
                    #[trigger] mapping@.contains_key(j) ==> canonical_id(
                        self.songs@,
                        from[j],
                        mapping@[j],
                    ),
                self.playlists@ == old_playlists,
            decreases ids.len() - n,
        {
            let id = ids[n];
            let song = other_songs.remove(&id).unwrap();
            let ghost before = self.songs@;
            proof {
                lemma_song_equals_refl(song);
            }
            let new_id = self.add_song(song);
            proof {
                assert forall|j: u32| #[trigger] mapping@.contains_key(j) implies canonical_id(
                    self.songs@,
                    from[j],
                    mapping@[j],
                ) by {
                    assert(canonical_id(before, from[j], mapping@[j]));
                }
                assert(canonical_id(self.songs@, from[id], new_id));
                assert forall|k: u32| old_songs.contains_key(k) implies self.songs@.contains_key(k)
                    && self.songs@[k] == old_songs[k] by {
                    assert(before.contains_key(k));
                }
                assert forall|t: int| n + 1 <= t < ids.len() implies other_songs@.contains_key(
                    #[trigger] ids[t],
                ) && other_songs@[ids[t]] == from[ids[t]] by {
                    assert(ids[n as int] < ids[t]);
                }
                assert forall|k: u32| #[trigger] self.songs@.contains_key(k) && !old_songs.contains_key(k)
                    implies exists|j: u32| from.contains_key(j) && self.songs@[k] == from[j] by {
                    if !before.contains_key(k) {
                        assert(self.songs@[k] == from[id]);
                    }
                }
            }
            mapping.insert(id, new_id);
            proof {
                assert forall|j: u32| #[trigger] mapping@.contains_key(j) <==> exists|t: int|
                    0 <= t < n + 1 && ids[t] == j by {
                    if j == id {
                        assert(ids[n as int] == j);
                    }
                }
            }
            n += 1;
        }
        proof {
            assert forall|j: u32| mapping@.contains_key(j) <==> from.contains_key(j) by {
                if from.contains_key(j) {
                    let t = choose|t: int| 0 <= t < ids.len() && ids[t] == j;
                }
            }
        }
        let ghost to = self.songs@;
        let pids = keys_of(&other_playlists);
        let mut m: usize = 0;
        while m < pids.len()
            invariant
                m <= pids.len() == from_playlists.dom().len(),
                pids.len() < u32::MAX,
                forall|a: int, b: int| 0 <= a < b < pids.len() ==> pids[a] < pids[b],
                forall|k: u32|
                    #[trigger] from_playlists.contains_key(k) ==> exists|t: int|
                        0 <= t < pids.len() && pids[t] == k,
                forall|t: int| 0 <= t < pids.len() ==> from_playlists.contains_key(#[trigger] pids[t]),
                forall|t: int|
                    m <= t < pids.len() ==> other_playlists@.contains_key(#[trigger] pids[t])
                        && other_playlists@[pids[t]] == from_playlists[pids[t]],
                forall|k: u32| self.playlists@.contains_key(k) ==> k + (pids.len() - m) < u32::MAX,
                self.songs@ == to,
                forall|k: u32|
                    #[trigger] old_songs.contains_key(k) ==> to.contains_key(k) && to[k]
                        == old_songs[k],
                forall|k: u32|
                    #[trigger] to.contains_key(k) && !old_songs.contains_key(k) ==> exists|j: u32|
                        from.contains_key(j) && to[k] == from[j],
                forall|j: u32| mapping@.contains_key(j) <==> from.contains_key(j),
                forall|j: u32|
                    #[trigger] mapping@.contains_key(j) ==> canonical_id(to, from[j], mapping@[j]),
                forall|k: u32|
                    #[trigger] old_playlists.contains_key(k) ==> self.playlists@.contains_key(k)
                        && self.playlists@[k] == old_playlists[k],
                forall|t: int|
                    0 <= t < m ==> exists|q: u32|
                        self.playlists@.contains_key(q) && carried(
                            from_playlists[#[trigger] pids[t]],
                            self.playlists@[q],
                            from,
                            to,
                        ),
                forall|q: u32|
                    #[trigger] self.playlists@.contains_key(q) && !old_playlists.contains_key(q)
                        ==> {
                        &&& exists|pid: u32|
                            from_playlists.contains_key(pid) && carried(
                                from_playlists[pid],
                                self.playlists@[q],
                                from,
                                to,
                            )
                        &&& forall|q2: u32|
                            self.playlists@.contains_key(q2) && q2 != q ==> !self.playlists@[q2].equals(
                                &self.playlists@[q],
                            )
                    },
            decreases pids.len() - m,
        {
            let pid = pids[m];
            let playlist = other_playlists.remove(&pid).unwrap();
            let mut entries: Vec<PlaylistEntry> = Vec::new();
            let mut i: usize = 0;
            while i < playlist.entries.len()
                invariant
                    i <= playlist.entries.len(),
                    entries.len() == i,
                    forall|j: u32| mapping@.contains_key(j) <==> from.contains_key(j),
                    forall|j: u32|
                        #[trigger] mapping@.contains_key(j) ==> canonical_id(to, from[j], mapping@[j]),
                    forall|t: int|
                        0 <= t < i ==> entry_carried(
                            #[trigger] playlist.entries@[t],
                            entries@[t],
                            from,
                            to,
                        ),
                decreases playlist.entries.len() - i,
            {
                entries.push(carry_entry(&playlist.entries[i], &mapping, Ghost(from), Ghost(to)));
                i += 1;
            }
            let carried_playlist = Playlist { name: playlist.name, entries };
            assert(carried(from_playlists[pid], carried_playlist, from, to));
            let existing = keys_of(&self.playlists);
            let mut found = false;
            let mut e: usize = 0;
            while e < existing.len()
                invariant
                    e <= existing.len(),
                    forall|t: int| 0 <= t < existing.len() ==> self.playlists@.contains_key(
                        #[trigger] existing[t],
                    ),
                    found ==> exists|q: u32|
                        self.playlists@.contains_key(q) && self.playlists@[q].equals(
                            &carried_playlist,
                        ),
                    !found ==> forall|t: int|
                        0 <= t < e ==> !self.playlists@[#[trigger] existing[t]].equals(
                            &carried_playlist,
                        ),
                decreases existing.len() - e,
            {
                if !found && self.playlists.get(&existing[e]).unwrap().same_as(&carried_playlist) {
                    found = true;
                }
                e += 1;
            }
            let ghost before = self.playlists@;
            if !found {
                proof {
                    assert forall|q2: u32| before.contains_key(q2) implies !before[q2].equals(
                        &carried_playlist,
                    ) by {
                        let t = choose|t: int| 0 <= t < existing.len() && existing[t] == q2;
                    }
                }
                let q = self.add_playlist(carried_playlist);
                proof {
                    assert forall|k: u32| old_playlists.contains_key(k) implies self.playlists@.contains_key(k)
                        && self.playlists@[k] == old_playlists[k] by {
                        assert(before.contains_key(k));
                    }
                    assert forall|t: int| 0 <= t < m implies exists|q1: u32|
                        self.playlists@.contains_key(q1) && carried(
                            from_playlists[#[trigger] pids[t]],
                            self.playlists@[q1],
                            from,
                            to,
                        ) by {
                        let q1 = choose|q1: u32|
                            before.contains_key(q1) && carried(
                                from_playlists[pids[t]],
                                before[q1],
                                from,
                                to,
                            );
                        assert(self.playlists@.contains_key(q1) && self.playlists@[q1] == before[q1]);
                    }
                    assert forall|q1: u32|
                        #[trigger] self.playlists@.contains_key(q1) && !old_playlists.contains_key(q1)
                        implies {
                        &&& exists|p: u32|
                            from_playlists.contains_key(p) && carried(
                                from_playlists[p],
                                self.playlists@[q1],
                                from,
                                to,
                            )
                        &&& forall|q2: u32|
                            self.playlists@.contains_key(q2) && q2 != q1 ==> !self.playlists@[q2].equals(
                                &self.playlists@[q1],
                            )
                    } by {
                        if q1 == q {
                            assert(from_playlists.contains_key(pid));
                        } else {
                            assert(before.contains_key(q1));
                            assert forall|q2: u32|
                                self.playlists@.contains_key(q2) && q2 != q1 implies !self.playlists@[q2].equals(
                                &self.playlists@[q1],
                            ) by {
                                if q2 == q {
                                    lemma_playlist_equals_symmetric(
                                        self.playlists@[q2],
                                        self.playlists@[q1],
                                    );
                                }
                            }
                        }
                    }
                    assert(self.playlists@.contains_key(q) && carried(
                        from_playlists[pids[m as int]],
                        self.playlists@[q],
                        from,
                        to,
                    ));
                }
            } else {
                proof {
                    let q = choose|q: u32|
                        self.playlists@.contains_key(q) && self.playlists@[q].equals(&carried_playlist);
                    assert(pids[m as int] == pid);
                    lemma_carried_equal(
                        from_playlists[pid],
                        carried_playlist,
                        self.playlists@[q],
                        from,
                        to,
                    );
                }
            }
            proof {
                assert forall|t: int| m + 1 <= t < pids.len() implies other_playlists@.contains_key(
                    #[trigger] pids[t],
                ) && other_playlists@[pids[t]] == from_playlists[pids[t]] by {
                    assert(pids[m as int] < pids[t]);
                }
            }
            m += 1;
        }
        self.theme = theme;
        proof {
            assert forall|j: u32| from.contains_key(j) implies exists|n: u32|
                canonical_id(self.songs@, from[j], n) by {
                assert(mapping@.contains_key(j));
                assert(canonical_id(self.songs@, from[j], mapping@[j]));
            }
            assert forall|p: u32| from_playlists.contains_key(p) implies exists|q: u32|
                self.playlists@.contains_key(q) && carried(from_playlists[p], self.playlists@[q], from, to) by {
                let t = choose|t: int| 0 <= t < pids.len() && pids[t] == p;
                assert(0 <= t < m);
                assert(from_playlists[pids[t]] == from_playlists[p]);
                let q = choose|q: u32|
                    self.playlists@.contains_key(q) && carried(
                        from_playlists[pids[t]],
                        self.playlists@[q],
                        from,
                        to,
                    );
            }
        }
    }

    /// Returns the songs of the catalog with their ids, ordered by primary title; the catalog
    /// itself is not changed.
    /// Returns the songs of the catalog with their ids, ordered by primary title; the catalog
    /// itself is not changed. Each song of the catalog appears once: the result has as many
    /// elements as the catalog, with distinct ids of the catalog.
    pub fn songs_by_title(&self) -> (r: Vec<(u32, &Song)>)
        ensures
            r.len() == self.songs@.dom().len(),
            forall|t: int|
                0 <= t < r.len() ==> self.songs@.contains_key((#[trigger] r[t]).0) && *r[t].1
                    == self.songs@[r[t].0],
            forall|t1: int, t2: int|
                0 <= t1 < t2 < r.len() ==> (#[trigger] r[t1]).0 != (#[trigger] r[t2]).0,
            forall|t: int|
                0 <= t < r.len() - 1 ==> lex_le(
                    #[trigger] title_key(*r[t].1),
                    title_key(*r[t + 1].1),
                ),
    {
        let ids = keys_of(&self.songs);
        let mut r: Vec<(u32, &Song)> = Vec::new();
        let mut keys: Vec<Vec<char>> = Vec::new();
        let mut n: usize = 0;
        while n < ids.len()
            invariant
                n <= ids.len() == self.songs@.dom().len(),
                forall|a: int, b: int| 0 <= a < b < ids.len() ==> ids[a] < ids[b],
                forall|t: int| 0 <= t < ids.len() ==> self.songs@.contains_key(#[trigger] ids[t]),
                r.len() == keys.len() == n,
                forall|t: int|
                    0 <= t < r.len() ==> self.songs@.contains_key((#[trigger] r[t]).0) && *r[t].1
                        == self.songs@[r[t].0] && keys[t]@ == title_key(*r[t].1),
                n > 0 ==> forall|t: int| 0 <= t < r.len() ==> (#[trigger] r[t]).0 <= ids[n - 1],
                forall|t1: int, t2: int|
                    0 <= t1 < t2 < r.len() ==> (#[trigger] r[t1]).0 != (#[trigger] r[t2]).0,
                sorted_keys(keys@.map_values(|k: Vec<char>| k@)),
            decreases ids.len() - n,
        {
            let id = ids[n];
            let song = self.songs.get(&id).unwrap();
            let key = title_chars(song);
            let mut pos: usize = r.len();
            while pos > 0 && !lex_le_chars(&keys[pos - 1], &key)
                invariant
                    pos <= keys.len(),
                    pos < keys.len() ==> !lex_le(keys[pos as int]@, key@),
                decreases pos,
            {
                pos -= 1;
            }
            let ghost old_r = r@;
            let ghost old_keys = keys@.map_values(|k: Vec<char>| k@);
            proof {
                if pos < old_keys.len() {
                    lemma_lex_total(old_keys[pos as int], key@);
                }
                lemma_insert_sorted(old_keys, pos as int, key@);
                if n > 0 {
                    assert(ids[n - 1] < ids[n as int]);
                }
            }
            r.insert(pos, (id, song));
            keys.insert(pos, key);
            proof {
                assert(keys@.map_values(|k: Vec<char>| k@) =~= old_keys.insert(pos as int, key@));
                assert forall|t: int| 0 <= t < r.len() implies self.songs@.contains_key(
                    (#[trigger] r[t]).0,
                ) && *r[t].1 == self.songs@[r[t].0] && keys[t]@ == title_key(*r[t].1) && r[t].0
                    <= ids[n as int] by {
                    if t < pos {
                        assert(r[t] == old_r[t]);
                    } else if t > pos {
                        assert(r[t] == old_r[t - 1]);
                    }
                }
                assert forall|t1: int, t2: int| 0 <= t1 < t2 < r.len() implies (
                #[trigger] r[t1]).0 != (#[trigger] r[t2]).0 by {
                    if t1 != pos && t2 != pos {
                        let o1 = if t1 < pos {
                            t1
                        } else {
                            t1 - 1
                        };
                        let o2 = if t2 < pos {
                            t2
                        } else {
                            t2 - 1
                        };
                        assert(r[t1] == old_r[o1] && r[t2] == old_r[o2]);
                    } else if t1 == pos {
                        assert(r[t2] == old_r[t2 - 1]);
                    } else {
                        assert(r[t1] == old_r[t1]);
                    }
                }
            }
            n += 1;
        }
        proof {
            assert forall|t: int| 0 <= t < r.len() - 1 implies lex_le(
                #[trigger] title_key(*r[t].1),
                title_key(*r[t + 1].1),
            ) by {
                assert(keys@.map_values(|k: Vec<char>| k@)[t] == keys[t]@);
                assert(keys@.map_values(|k: Vec<char>| k@)[t + 1] == keys[t + 1]@);
            }
        }
        r
    }

    /// Removes the entry that the selected coordinate is on, and returns the coordinate to
    /// select afterwards: none where the playlist is left empty, else the same entry position
    /// kept within the shortened playlist, at its first page. A coordinate that names no entry
    /// changes nothing and selects nothing.
    pub fn remove_entry(&mut self, selected: SlideIndex) -> (r: Option<SlideIndex>)
        ensures
            final(self).songs@ == old(self).songs@,
            final(self).theme == old(self).theme,
            ({
                let pid = selected.playlist_id;
                let e = selected.entry_index as int;
                if old(self).playlists@.contains_key(pid) && e < old(self).playlists@[pid].entries.len() {
                    let old_entries = old(self).playlists@[pid].entries@;
                    &&& final(self).playlists@.dom() == old(self).playlists@.dom()
                    &&& forall|k: u32|
                        old(self).playlists@.contains_key(k) && k != pid ==> final(self).playlists@[k]
                            == old(self).playlists@[k]
                    &&& final(self).playlists@[pid].name == old(self).playlists@[pid].name
                    &&& final(self).playlists@[pid].entries@ == old_entries.remove(e)
                    &&& if old_entries.len() == 1 {
                        r is None
                    } else {
                        r matches Some(idx) && idx.playlist_id == pid && idx.page_index == 0
                            && idx.entry_index == if e < old_entries.len() - 1 {
                            e
                        } else {
                            old_entries.len() - 2
                        }
                    }
                } else {
                    final(self).playlists@ == old(self).playlists@ && r is None
                }
            }),
    {
        let pid = selected.playlist_id;
        let len = match self.playlists.get(&pid) {
            Some(playlist) => playlist.entries.len(),
            None => {
                return None;
            },
        };
        if selected.entry_index >= len {
            return None;
        }
        let mut playlist = self.playlists.remove(&pid).unwrap();
        playlist.entries.remove(selected.entry_index);
        let remaining = playlist.entries.len();
        self.playlists.insert(pid, playlist);
        if remaining == 0 {
            None
        } else {
            let entry_index = if selected.entry_index < remaining {
                selected.entry_index
            } else {
                remaining - 1
            };
            Some(SlideIndex { playlist_id: pid, entry_index, page_index: 0 })
        }
    }

    /// Removes a playlist and returns the id of the playlist to show next: the smallest id
    /// left, or none where no playlist is left.
    pub fn remove_playlist(&mut self, playlist_id: u32) -> (r: Option<u32>)
        ensures
            final(self).playlists@ == old(self).playlists@.remove(playlist_id),
            final(self).songs@ == old(self).songs@,
            final(self).theme == old(self).theme,
            r is None <==> final(self).playlists@.dom().is_empty(),
            r matches Some(k) ==> final(self).playlists@.contains_key(k) && forall|j: u32|
                #[trigger] final(self).playlists@.contains_key(j) ==> k <= j,
    {
        self.playlists.remove(&playlist_id);
        let ids = keys_of(&self.playlists);
        if ids.len() == 0 {
            assert forall|k: u32| !self.playlists@.dom().contains(k) by {
                if self.playlists@.contains_key(k) {
                }
            }
            assert(self.playlists@.dom() =~= Set::<u32>::empty());
            None
        } else {
            let first = ids[0];
            assert forall|j: u32| #[trigger] self.playlists@.contains_key(j) implies first <= j by {
                let t = choose|t: int| 0 <= t < ids.len() && ids[t] == j;
                if t > 0 {
                    assert(ids[0] < ids[t]);
                }
            }
            assert(self.playlists@.contains_key(ids[0]));
            assert(self.playlists@.dom().contains(first));
            Some(first)
        }
    }

    /// Returns an empty state with the default theme.
    pub fn new() -> (r: State)
        ensures
            r.songs@ == Map::<u32, Song>::empty(),
            r.playlists@ == Map::<u32, Playlist>::empty(),
    {
        State { songs: BTreeMap::new(), playlists: BTreeMap::new(), theme: Theme::default() }
    }
}

/// The slides of a prefix of the entries are a prefix of the slides of all entries.
pub proof fn lemma_entries_prefix(songs: Map<u32, Song>, pid: u32, es: Seq<PlaylistEntry>, i: int)
    requires
        0 <= i <= es.len(),
    ensures
        entries_slides(songs, pid, es) == entries_slides(songs, pid, es.take(i))
            + entries_slides(songs, pid, es).skip(entries_slides(songs, pid, es.take(i)).len() as int),
        entries_slides(songs, pid, es.take(i)).len() <= entries_slides(songs, pid, es).len(),
    decreases es.len() - i,
{
    let all = entries_slides(songs, pid, es);
    if i == es.len() {
        assert(es.take(i) =~= es);
        assert(all =~= all + all.skip(all.len() as int));
    } else {
        lemma_entries_prefix(songs, pid, es, i + 1);
        assert(es.take(i + 1).drop_last() =~= es.take(i));
        let pre = entries_slides(songs, pid, es.take(i));
        let pre1 = entries_slides(songs, pid, es.take(i + 1));
        assert(pre1 == pre + addressed(songs, pid, i, es[i]));
        assert(all =~= pre + all.skip(pre.len() as int));
    }
}

/// A coordinate and a slide are among the enumerated slides of the entries `es` exactly when
/// the coordinate names an entry of `es` and a page of it, and that page is the slide.
pub proof fn lemma_entries_slides_contains(
    songs: Map<u32, Song>,
    pid: u32,
    es: Seq<PlaylistEntry>,
    idx: (u32, int, int),
    s: SlideView,
)
    ensures
        entries_slides(songs, pid, es).contains((idx, s)) <==> (idx.0 == pid && 0 <= idx.1
            < es.len() && 0 <= idx.2 < entry_slides(songs, es[idx.1]).len() && entry_slides(
            songs,
            es[idx.1],
        )[idx.2] == s),
    decreases es.len(),
{
    if es.len() > 0 {
        let prev = entries_slides(songs, pid, es.drop_last());
        let n = es.len() - 1;
        let block = addressed(songs, pid, n, es.last());
        let all = entries_slides(songs, pid, es);
        lemma_entries_slides_contains(songs, pid, es.drop_last(), idx, s);
        assert(all == prev + block);
        if all.contains((idx, s)) {
            let k = choose|k: int| 0 <= k < all.len() && all[k] == (idx, s);
            if k < prev.len() {
                assert(prev[k] == all[k]);
                assert(es.drop_last()[idx.1] == es[idx.1]);
            } else {
                assert(block[k - prev.len()] == all[k]);
            }
        }
        if idx.0 == pid && 0 <= idx.1 < es.len() && 0 <= idx.2 < entry_slides(
            songs,
            es[idx.1],
        ).len() && entry_slides(songs, es[idx.1])[idx.2] == s {
            if idx.1 < n {
                assert(es.drop_last()[idx.1] == es[idx.1]);
                let k = choose|k: int| 0 <= k < prev.len() && prev[k] == (idx, s);
                assert(all[k] == (idx, s));
            } else {
                assert(all[prev.len() + idx.2] == (idx, s));
            }
        }
    }
}

/// Direct decoding and enumeration agree: for every coordinate `idx`, the slide at `idx` is `s`
/// exactly when the pair of `idx` and `s` is among the slides of the playlist that `idx` names.
pub proof fn lemma_slide_agrees_with_slides(state: State, idx: (u32, int, int), s: SlideView)
    ensures
        state.spec_slide(idx) == Some(s) <==> state.spec_slides(idx.0).contains((idx, s)),
{
    if state.playlists@.contains_key(idx.0) {
        lemma_entries_slides_contains(
            state.songs@,
            idx.0,
            state.playlists@[idx.0].entries@,
            idx,
            s,
        );
    }
}

} // verus!
