//! The song model: metadata and lyric structure of one song.
use vstd::prelude::*;

verus! {

/// Equality of two optional strings by content.
pub open spec fn opt_str_eq(a: Option<String>, b: Option<String>) -> bool {
    match (a, b) {
        (Some(x), Some(y)) => x@ == y@,
        (None, None) => true,
        _ => false,
    }
}

/// Equality of two lists of strings by content.
pub open spec fn strs_eq(a: Seq<String>, b: Seq<String>) -> bool {
    a.len() == b.len() && forall|i: int| 0 <= i < a.len() ==> (#[trigger] a[i])@ == b[i]@
}

/// Structural comparison of two values of a type.
pub trait SameAs: Sized {
    spec fn equals_spec(&self, other: &Self) -> bool;

    fn same_as(&self, other: &Self) -> (r: bool)
        ensures
            r == self.equals_spec(other),
    ;
}

/// Element-wise structural equality of two sequences.
pub open spec fn seq_eq<T: SameAs>(a: Seq<T>, b: Seq<T>) -> bool {
    a.len() == b.len() && forall|i: int| 0 <= i < a.len() ==> (#[trigger] a[i]).equals_spec(&b[i])
}

/// Compares two optional strings by content.
pub fn same_opt_str(a: &Option<String>, b: &Option<String>) -> (r: bool)
    ensures
        r == opt_str_eq(*a, *b),
{
    match (a, b) {
        (Some(x), Some(y)) => *x == *y,
        (None, None) => true,
        _ => false,
    }
}

/// Compares two lists of strings by content.
pub fn same_strs(a: &Vec<String>, b: &Vec<String>) -> (r: bool)
    ensures
        r == strs_eq(a@, b@),
{
    if a.len() != b.len() {
        return false;
    }
    let mut i: usize = 0;
    while i < a.len()
        invariant
            i <= a.len() == b.len(),
            forall|j: int| 0 <= j < i ==> (#[trigger] a[j])@ == b[j]@,
        decreases a.len() - i,
    {
        if !(a[i] == b[i]) {
            return false;
        }
        i += 1;
    }
    true
}

/// Compares two lists element by element.
pub fn same_vec<T: SameAs>(a: &Vec<T>, b: &Vec<T>) -> (r: bool)
    ensures
        r == seq_eq(a@, b@),
{
    if a.len() != b.len() {
        return false;
    }
    let mut i: usize = 0;
    while i < a.len()
        invariant
            i <= a.len() == b.len(),
            forall|j: int| 0 <= j < i ==> (#[trigger] a[j]).equals_spec(&b[j]),
        decreases a.len() - i,
    {
        if !a[i].same_as(&b[i]) {
            return false;
        }
        i += 1;
    }
    true
}

/// One song: its metadata and its lyrics. Two songs are the same song when they are
/// structurally equal (`equals`): equal metadata and equal lyrics, compared by content.
#[derive(Clone, Debug, Default, PartialEq)]
pub struct Song {
    pub properties: Properties,
    pub lyrics: Lyrics,
}

impl Song {
    pub open spec fn equals(&self, o: &Song) -> bool {
        self.properties.equals(&o.properties) && self.lyrics.equals(&o.lyrics)
    }
}

impl SameAs for Song {
    open spec fn equals_spec(&self, o: &Self) -> bool {
        self.equals(o)
    }

    fn same_as(&self, o: &Self) -> (r: bool) {
        self.properties.same_as(&o.properties) && self.lyrics.same_as(&o.lyrics)
    }
}

/// The metadata of a song.
#[derive(Clone, Debug, Default, PartialEq)]
pub struct Properties {
    pub titles: Titles,
    pub authors: Authors,
    pub copyright: Option<String>,
    pub ccli_no: Option<u64>,
    pub released: Option<String>,
    pub transposition: Option<i8>,
    pub tempo: Option<Tempo>,
    pub key: Option<String>,
    pub time_signature: Option<String>,
    pub variant: Option<String>,
    pub publisher: Option<String>,
    pub version: Option<String>,
    pub keywords: Option<String>,
    /// Space-separated names of lyric entries, in the order in which they are presented.
    pub verse_order: Option<String>,
    pub songbooks: Songbooks,
    pub themes: Themes,
    pub comments: Comments,
}

pub open spec fn opt_tempo_eq(a: Option<Tempo>, b: Option<Tempo>) -> bool {
    match (a, b) {
        (Some(x), Some(y)) => x.equals(&y),
        (None, None) => true,
        _ => false,
    }
}

impl Properties {
    pub open spec fn equals(&self, o: &Properties) -> bool {
        &&& self.titles.equals(&o.titles)
        &&& self.authors.equals(&o.authors)
        &&& opt_str_eq(self.copyright, o.copyright)
        &&& self.ccli_no == o.ccli_no
        &&& opt_str_eq(self.released, o.released)
        &&& self.transposition == o.transposition
        &&& opt_tempo_eq(self.tempo, o.tempo)
        &&& opt_str_eq(self.key, o.key)
        &&& opt_str_eq(self.time_signature, o.time_signature)
        &&& opt_str_eq(self.variant, o.variant)
        &&& opt_str_eq(self.publisher, o.publisher)
        &&& opt_str_eq(self.version, o.version)
        &&& opt_str_eq(self.keywords, o.keywords)
        &&& opt_str_eq(self.verse_order, o.verse_order)
        &&& self.songbooks.equals(&o.songbooks)
        &&& self.themes.equals(&o.themes)
        &&& self.comments.equals(&o.comments)
    }
}

impl SameAs for Properties {
    open spec fn equals_spec(&self, o: &Self) -> bool {
        self.equals(o)
    }

    fn same_as(&self, o: &Self) -> (r: bool) {
        let same_ccli = match (&self.ccli_no, &o.ccli_no) {
            (Some(a), Some(b)) => *a == *b,
            (None, None) => true,
            _ => false,
        };
        let same_transposition = match (&self.transposition, &o.transposition) {
            (Some(a), Some(b)) => *a == *b,
            (None, None) => true,
            _ => false,
        };
        let same_tempo = match (&self.tempo, &o.tempo) {
            (Some(a), Some(b)) => a.same_as(b),
            (None, None) => true,
            _ => false,
        };
        self.titles.same_as(&o.titles) && self.authors.same_as(&o.authors) && same_opt_str(
            &self.copyright,
            &o.copyright,
        ) && same_ccli && same_opt_str(&self.released, &o.released) && same_transposition
            && same_tempo && same_opt_str(&self.key, &o.key) && same_opt_str(
            &self.time_signature,
            &o.time_signature,
        ) && same_opt_str(&self.variant, &o.variant) && same_opt_str(
            &self.publisher,
            &o.publisher,
        ) && same_opt_str(&self.version, &o.version) && same_opt_str(
            &self.keywords,
            &o.keywords,
        ) && same_opt_str(&self.verse_order, &o.verse_order) && self.songbooks.same_as(&o.songbooks)
            && self.themes.same_as(&o.themes) && self.comments.same_as(&o.comments)
    }
}

#[derive(Clone, Debug, Default, PartialEq)]
pub struct Titles {
    pub titles: Vec<Title>,
}

impl Titles {
    pub open spec fn equals(&self, o: &Titles) -> bool {
        seq_eq(self.titles@, o.titles@)
    }
}

impl SameAs for Titles {
    open spec fn equals_spec(&self, o: &Self) -> bool {
        self.equals(o)
    }

    fn same_as(&self, o: &Self) -> (r: bool) {
        same_vec(&self.titles, &o.titles)
    }
}

#[derive(Clone, Debug, Default, PartialEq)]
pub struct Title {
    pub lang: Option<String>,
    pub translit: Option<String>,
    pub original: Option<bool>,
    pub title: String,
}

impl Title {
    pub open spec fn equals(&self, o: &Title) -> bool {
        &&& opt_str_eq(self.lang, o.lang)
        &&& opt_str_eq(self.translit, o.translit)
        &&& self.original == o.original
        &&& self.title@ == o.title@
    }
}

impl SameAs for Title {
    open spec fn equals_spec(&self, o: &Self) -> bool {
        self.equals(o)
    }

    fn same_as(&self, o: &Self) -> (r: bool) {
        let same_original = match (&self.original, &o.original) {
            (Some(a), Some(b)) => *a == *b,
            (None, None) => true,
            _ => false,
        };
        same_opt_str(&self.lang, &o.lang) && same_opt_str(&self.translit, &o.translit)
            && same_original && self.title == o.title
    }
}

#[derive(Clone, Debug, Default, PartialEq)]
pub struct Authors {
    pub authors: Vec<Author>,
}

impl Authors {
    pub open spec fn equals(&self, o: &Authors) -> bool {
        seq_eq(self.authors@, o.authors@)
    }

    pub fn is_empty(&self) -> (r: bool)
        ensures
            r == (self.authors.len() == 0),
    {
        self.authors.len() == 0
    }
}

impl SameAs for Authors {
    open spec fn equals_spec(&self, o: &Self) -> bool {
        self.equals(o)
    }

    fn same_as(&self, o: &Self) -> (r: bool) {
        same_vec(&self.authors, &o.authors)
    }
}

#[derive(Clone, Debug, Default, PartialEq)]
pub struct Author {
    /// The kind of contribution, such as "words" or "music".
    pub author_type: Option<String>,
    pub lang: Option<String>,
    pub name: String,
}

impl Author {
    pub open spec fn equals(&self, o: &Author) -> bool {
        &&& opt_str_eq(self.author_type, o.author_type)
        &&& opt_str_eq(self.lang, o.lang)
        &&& self.name@ == o.name@
    }
}

impl SameAs for Author {
    open spec fn equals_spec(&self, o: &Self) -> bool {
        self.equals(o)
    }

    fn same_as(&self, o: &Self) -> (r: bool) {
        same_opt_str(&self.author_type, &o.author_type) && same_opt_str(&self.lang, &o.lang)
            && self.name == o.name
    }
}

#[derive(Clone, Debug, PartialEq)]
pub enum Tempo {
    Bpm(u16),
    Text(String),
}

impl Tempo {
    pub open spec fn equals(&self, o: &Tempo) -> bool {
        match (self, o) {
            (Tempo::Bpm(a), Tempo::Bpm(b)) => a == b,
            (Tempo::Text(a), Tempo::Text(b)) => a@ == b@,
            _ => false,
        }
    }
}

impl SameAs for Tempo {
    open spec fn equals_spec(&self, o: &Self) -> bool {
        self.equals(o)
    }

    fn same_as(&self, o: &Self) -> (r: bool) {
        match (self, o) {
            (Tempo::Bpm(a), Tempo::Bpm(b)) => *a == *b,
            (Tempo::Text(a), Tempo::Text(b)) => *a == *b,
            _ => false,
        }
    }
}

#[derive(Clone, Debug, Default, PartialEq)]
pub struct Songbooks {
    pub songbooks: Vec<Songbook>,
}

impl Songbooks {
    pub open spec fn equals(&self, o: &Songbooks) -> bool {
        seq_eq(self.songbooks@, o.songbooks@)
    }

    pub fn is_empty(&self) -> (r: bool)
        ensures
            r == (self.songbooks.len() == 0),
    {
        self.songbooks.len() == 0
    }
}

impl SameAs for Songbooks {
    open spec fn equals_spec(&self, o: &Self) -> bool {
        self.equals(o)
    }

    fn same_as(&self, o: &Self) -> (r: bool) {
        same_vec(&self.songbooks, &o.songbooks)
    }
}

#[derive(Clone, Debug, Default, PartialEq)]
pub struct Songbook {
    pub name: String,
    pub entry: Option<String>,
}

impl Songbook {
    pub open spec fn equals(&self, o: &Songbook) -> bool {
        self.name@ == o.name@ && opt_str_eq(self.entry, o.entry)
    }
}

impl SameAs for Songbook {
    open spec fn equals_spec(&self, o: &Self) -> bool {
        self.equals(o)
    }

    fn same_as(&self, o: &Self) -> (r: bool) {
        self.name == o.name && same_opt_str(&self.entry, &o.entry)
    }
}

#[derive(Clone, Debug, Default, PartialEq)]
pub struct Themes {
    pub themes: Vec<Theme>,
}

impl Themes {
    pub open spec fn equals(&self, o: &Themes) -> bool {
        seq_eq(self.themes@, o.themes@)
    }

    pub fn is_empty(&self) -> (r: bool)
        ensures
            r == (self.themes.len() == 0),
    {
        self.themes.len() == 0
    }
}

impl SameAs for Themes {
    open spec fn equals_spec(&self, o: &Self) -> bool {
        self.equals(o)
    }

    fn same_as(&self, o: &Self) -> (r: bool) {
        same_vec(&self.themes, &o.themes)
    }
}

/// A topic that a song is about.
#[derive(Clone, Debug, Default, PartialEq)]
pub struct Theme {
    pub lang: Option<String>,
    pub translit: Option<String>,
    pub title: String,
}

impl Theme {
    pub open spec fn equals(&self, o: &Theme) -> bool {
        opt_str_eq(self.lang, o.lang) && opt_str_eq(self.translit, o.translit) && self.title@
            == o.title@
    }
}

impl SameAs for Theme {
    open spec fn equals_spec(&self, o: &Self) -> bool {
        self.equals(o)
    }

    fn same_as(&self, o: &Self) -> (r: bool) {
        same_opt_str(&self.lang, &o.lang) && same_opt_str(&self.translit, &o.translit)
            && self.title == o.title
    }
}

#[derive(Clone, Debug, Default, PartialEq)]
pub struct Comments {
    pub comments: Vec<String>,
}

impl Comments {
    pub open spec fn equals(&self, o: &Comments) -> bool {
        strs_eq(self.comments@, o.comments@)
    }

    pub fn is_empty(&self) -> (r: bool)
        ensures
            r == (self.comments.len() == 0),
    {
        self.comments.len() == 0
    }
}

impl SameAs for Comments {
    open spec fn equals_spec(&self, o: &Self) -> bool {
        self.equals(o)
    }

    fn same_as(&self, o: &Self) -> (r: bool) {
        same_strs(&self.comments, &o.comments)
    }
}

/// The lyric entries of a song, in stored order.
#[derive(Clone, Debug, Default, PartialEq)]
pub struct Lyrics {
    pub lyrics: Vec<LyricEntry>,
}

impl Lyrics {
    pub open spec fn equals(&self, o: &Lyrics) -> bool {
        seq_eq(self.lyrics@, o.lyrics@)
    }
}

impl SameAs for Lyrics {
    open spec fn equals_spec(&self, o: &Self) -> bool {
        self.equals(o)
    }

    fn same_as(&self, o: &Self) -> (r: bool) {
        same_vec(&self.lyrics, &o.lyrics)
    }
}

/// One named part of a song: a verse of sung lines, or an instrumental break.
#[derive(Clone, Debug, PartialEq)]
#[allow(inconsistent_fields)]
pub enum LyricEntry {
    Verse { name: String, lang: Option<String>, translit: Option<String>, lines: Vec<Lines> },
    Instrument { name: String, lines: Vec<InstrumentLines> },
}

impl LyricEntry {
    pub open spec fn equals(&self, o: &LyricEntry) -> bool {
        match (self, o) {
            (
                LyricEntry::Verse { name: n1, lang: l1, translit: t1, lines: x1 },
                LyricEntry::Verse { name: n2, lang: l2, translit: t2, lines: x2 },
            ) => n1@ == n2@ && opt_str_eq(*l1, *l2) && opt_str_eq(*t1, *t2) && seq_eq(x1@, x2@),
            (
                LyricEntry::Instrument { name: n1, lines: x1 },
                LyricEntry::Instrument { name: n2, lines: x2 },
            ) => n1@ == n2@ && seq_eq(x1@, x2@),
            _ => false,
        }
    }

    /// The name of the entry, whether it is a verse or an instrumental.
    pub open spec fn spec_name(&self) -> Seq<char> {
        match self {
            LyricEntry::Verse { name, .. } => name@,
            LyricEntry::Instrument { name, .. } => name@,
        }
    }

    /// Returns the name of the entry, no matter whether it's a verse or instrumental.
    pub fn name(&self) -> (r: &str)
        ensures
            r@ == self.spec_name(),
    {
        match self {
            LyricEntry::Verse { name, .. } => name.as_str(),
            LyricEntry::Instrument { name, .. } => name.as_str(),
        }
    }
}

impl SameAs for LyricEntry {
    open spec fn equals_spec(&self, o: &Self) -> bool {
        self.equals(o)
    }

    fn same_as(&self, o: &Self) -> (r: bool) {
        match (self, o) {
            (
                LyricEntry::Verse { name: n1, lang: l1, translit: t1, lines: x1 },
                LyricEntry::Verse { name: n2, lang: l2, translit: t2, lines: x2 },
            ) => *n1 == *n2 && same_opt_str(l1, l2) && same_opt_str(t1, t2) && same_vec(x1, x2),
            (
                LyricEntry::Instrument { name: n1, lines: x1 },
                LyricEntry::Instrument { name: n2, lines: x2 },
            ) => *n1 == *n2 && same_vec(x1, x2),
            _ => false,
        }
    }
}

/// One page of a verse: its content and how it is sung.
#[derive(Clone, Debug, Default, PartialEq)]
pub struct Lines {
    pub break_optional: Option<String>,
    /// The voice that sings this page, such as "men".
    pub part: Option<String>,
    /// How many times the page is sung.
    pub repeat: Option<u32>,
    pub contents: Vec<VerseContent>,
}

impl Lines {
    pub open spec fn equals(&self, o: &Lines) -> bool {
        &&& opt_str_eq(self.break_optional, o.break_optional)
        &&& opt_str_eq(self.part, o.part)
        &&& self.repeat == o.repeat
        &&& seq_eq(self.contents@, o.contents@)
    }
}

impl SameAs for Lines {
    open spec fn equals_spec(&self, o: &Self) -> bool {
        self.equals(o)
    }

    fn same_as(&self, o: &Self) -> (r: bool) {
        let same_repeat = match (&self.repeat, &o.repeat) {
            (Some(a), Some(b)) => *a == *b,
            (None, None) => true,
            _ => false,
        };
        same_opt_str(&self.break_optional, &o.break_optional) && same_opt_str(
            &self.part,
            &o.part,
        ) && same_repeat && same_vec(&self.contents, &o.contents)
    }
}

/// A piece of a verse page: text, a line break, or an annotation around nested content.
#[derive(Debug, PartialEq)]
pub enum VerseContent {
    Text(String),
    Chord {
        name: Option<String>,
        root: Option<String>,
        bass: Option<String>,
        structure: Option<String>,
        upbeat: Option<bool>,
        contents: Vec<VerseContent>,
    },
    Br,
    Comment(String),
    Tag { name: String, contents: Vec<VerseContent> },
}

/// The nested content of a chord or tag, or nothing for the other variants.
pub open spec fn nested(c: VerseContent) -> Seq<VerseContent> {
    match c {
        VerseContent::Chord { contents, .. } => contents@,
        VerseContent::Tag { contents, .. } => contents@,
        _ => Seq::empty(),
    }
}

/// Equality of the attributes of two chords.
pub open spec fn chord_attrs_eq(a: VerseContent, b: VerseContent) -> bool {
    &&& opt_str_eq(a->Chord_name, b->Chord_name)
    &&& opt_str_eq(a->Chord_root, b->Chord_root)
    &&& opt_str_eq(a->Chord_bass, b->Chord_bass)
    &&& opt_str_eq(a->Chord_structure, b->Chord_structure)
    &&& a->Chord_upbeat == b->Chord_upbeat
}

impl VerseContent {
    pub open spec fn equals(&self, other: &VerseContent) -> bool
        decreases self,
    {
        let same_nested = nested(*self).len() == nested(*other).len() && forall|i: int|
            0 <= i < nested(*self).len() ==> (#[trigger] nested(*self)[i]).equals(
                &nested(*other)[i],
            );
        match (self, other) {
            (VerseContent::Text(a), VerseContent::Text(b)) => a@ == b@,
            (VerseContent::Chord { .. }, VerseContent::Chord { .. }) => chord_attrs_eq(
                *self,
                *other,
            ) && same_nested,
            (VerseContent::Br, VerseContent::Br) => true,
            (VerseContent::Comment(a), VerseContent::Comment(b)) => a@ == b@,
            (VerseContent::Tag { name: a, .. }, VerseContent::Tag { name: b, .. }) => a@ == b@
                && same_nested,
            _ => false,
        }
    }
}

/// A piece of nested content is smaller than the content that holds it.
pub proof fn lemma_nested_decreases(a: VerseContent, i: int)
    requires
        0 <= i < nested(a).len(),
    ensures
        decreases_to!(a => nested(a)[i]),
{
    broadcast use vstd::std_specs::vec::axiom_vec_index_decreases;

    match a {
        VerseContent::Chord { .. } => {
            assert(decreases_to!(a => a->Chord_contents));
            assert(decreases_to!(a->Chord_contents => a->Chord_contents[i]));
        },
        VerseContent::Tag { .. } => {
            assert(decreases_to!(a => a->Tag_contents));
            assert(decreases_to!(a->Tag_contents => a->Tag_contents[i]));
        },
        _ => {},
    }
}

/// Compares the nested content of two pieces of verse content.
fn nested_eq(a: &VerseContent, b: &VerseContent) -> (r: bool)
    requires
        (a is Chord && b is Chord) || (a is Tag && b is Tag),
    ensures
        r == (nested(*a).len() == nested(*b).len() && forall|i: int|
            0 <= i < nested(*a).len() ==> (#[trigger] nested(*a)[i]).equals(&nested(*b)[i])),
    decreases a, 0nat,
{
    let (c1, c2) = match (a, b) {
        (VerseContent::Chord { contents: x, .. }, VerseContent::Chord { contents: y, .. }) => (x, y),
        (VerseContent::Tag { contents: x, .. }, VerseContent::Tag { contents: y, .. }) => (x, y),
        _ => {
            return false;
        },
    };
    if c1.len() != c2.len() {
        return false;
    }
    let mut i: usize = 0;
    while i < c1.len()
        invariant
            i <= c1.len() == c2.len(),
            c1@ == nested(*a),
            c2@ == nested(*b),
            forall|j: int| 0 <= j < i ==> (#[trigger] c1[j]).equals(&c2[j]),
        decreases c1.len() - i,
    {
        proof {
            lemma_nested_decreases(*a, i as int);
        }
        if !content_eq(&c1[i], &c2[i]) {
            return false;
        }
        i += 1;
    }
    true
}

/// Compares two pieces of verse content structurally.
pub fn content_eq(a: &VerseContent, b: &VerseContent) -> (r: bool)
    ensures
        r == a.equals(b),
    decreases a, 1nat,
{
    match (a, b) {
        (VerseContent::Text(x), VerseContent::Text(y)) => *x == *y,
        (
            VerseContent::Chord { name: n1, root: r1, bass: b1, structure: s1, upbeat: u1, .. },
            VerseContent::Chord { name: n2, root: r2, bass: b2, structure: s2, upbeat: u2, .. },
        ) => {
            let same_upbeat = match (u1, u2) {
                (Some(x), Some(y)) => *x == *y,
                (None, None) => true,
                _ => false,
            };
            same_opt_str(n1, n2) && same_opt_str(r1, r2) && same_opt_str(b1, b2) && same_opt_str(
                s1,
                s2,
            ) && same_upbeat && nested_eq(a, b)
        },
        (VerseContent::Br, VerseContent::Br) => true,
        (VerseContent::Comment(x), VerseContent::Comment(y)) => *x == *y,
        (VerseContent::Tag { name: x, .. }, VerseContent::Tag { name: y, .. }) => *x == *y
            && nested_eq(a, b),
        _ => false,
    }
}

/// Makes a structurally equal copy of the nested content.
fn nested_copy(a: &VerseContent) -> (r: Vec<VerseContent>)
    requires
        a is Chord || a is Tag,
    ensures
        r.len() == nested(*a).len(),
        forall|j: int| 0 <= j < r.len() ==> (#[trigger] r[j]).equals(&nested(*a)[j]),
    decreases a, 0nat,
{
    let contents = match a {
        VerseContent::Chord { contents, .. } => contents,
        VerseContent::Tag { contents, .. } => contents,
        _ => {
            return Vec::new();
        },
    };
    let mut out: Vec<VerseContent> = Vec::new();
    let mut i: usize = 0;
    while i < contents.len()
        invariant
            i <= contents.len(),
            contents@ == nested(*a),
            out.len() == i,
            forall|j: int| 0 <= j < i ==> (#[trigger] out[j]).equals(&contents[j]),
        decreases contents.len() - i,
    {
        proof {
            lemma_nested_decreases(*a, i as int);
        }
        out.push(content_copy(&contents[i]));
        i += 1;
    }
    out
}

/// Makes a structurally equal copy of a piece of verse content.
pub fn content_copy(a: &VerseContent) -> (r: VerseContent)
    ensures
        r.equals(a),
    decreases a, 1nat,
{
    match a {
        VerseContent::Text(x) => VerseContent::Text(x.clone()),
        VerseContent::Chord { name, root, bass, structure, upbeat, .. } => VerseContent::Chord {
            name: name.clone(),
            root: root.clone(),
            bass: bass.clone(),
            structure: structure.clone(),
            upbeat: *upbeat,
            contents: nested_copy(a),
        },
        VerseContent::Br => VerseContent::Br,
        VerseContent::Comment(x) => VerseContent::Comment(x.clone()),
        VerseContent::Tag { name, .. } => VerseContent::Tag {
            name: name.clone(),
            contents: nested_copy(a),
        },
    }
}

impl Clone for VerseContent {
    fn clone(&self) -> (r: Self)
        ensures
            r.equals(self),
    {
        content_copy(self)
    }
}

impl SameAs for VerseContent {
    open spec fn equals_spec(&self, other: &Self) -> bool {
        self.equals(other)
    }

    fn same_as(&self, other: &Self) -> (r: bool) {
        content_eq(self, other)
    }
}

/// One line of instrumental notation.
#[derive(Clone, Debug, Default, PartialEq)]
pub struct InstrumentLines {
    pub contents: Vec<InstrumentContent>,
}

impl InstrumentLines {
    pub open spec fn equals(&self, o: &InstrumentLines) -> bool {
        seq_eq(self.contents@, o.contents@)
    }
}

impl SameAs for InstrumentLines {
    open spec fn equals_spec(&self, o: &Self) -> bool {
        self.equals(o)
    }

    fn same_as(&self, o: &Self) -> (r: bool) {
        same_vec(&self.contents, &o.contents)
    }
}

#[derive(Clone, Debug, PartialEq)]
pub enum InstrumentContent {
    Chord(InstrumentChord),
    Beat { contents: Vec<InstrumentChord> },
}

impl InstrumentContent {
    pub open spec fn equals(&self, o: &InstrumentContent) -> bool {
        match (self, o) {
            (InstrumentContent::Chord(a), InstrumentContent::Chord(b)) => a.equals(b),
            (InstrumentContent::Beat { contents: a }, InstrumentContent::Beat { contents: b }) =>
                seq_eq(a@, b@),
            _ => false,
        }
    }
}

impl SameAs for InstrumentContent {
    open spec fn equals_spec(&self, o: &Self) -> bool {
        self.equals(o)
    }

    fn same_as(&self, o: &Self) -> (r: bool) {
        match (self, o) {
            (InstrumentContent::Chord(a), InstrumentContent::Chord(b)) => chord_eq(a, b),
            (InstrumentContent::Beat { contents: a }, InstrumentContent::Beat { contents: b }) =>
                same_vec(a, b),
            _ => false,
        }
    }
}

/// A chord of instrumental notation, possibly holding further chords.
#[derive(Debug, Default, PartialEq)]
pub struct InstrumentChord {
    pub name: Option<String>,
    pub root: Option<String>,
    pub bass: Option<String>,
    pub structure: Option<String>,
    pub upbeat: Option<bool>,
    pub contents: Vec<InstrumentChord>,
}

impl InstrumentChord {
    pub open spec fn equals(&self, o: &InstrumentChord) -> bool
        decreases self,
    {
        &&& opt_str_eq(self.name, o.name)
        &&& opt_str_eq(self.root, o.root)
        &&& opt_str_eq(self.bass, o.bass)
        &&& opt_str_eq(self.structure, o.structure)
        &&& self.upbeat == o.upbeat
        &&& self.contents.len() == o.contents.len()
        &&& forall|i: int|
            0 <= i < self.contents.len() ==> (#[trigger] self.contents[i]).equals(&o.contents[i])
    }
}

proof fn lemma_chord_decreases(a: InstrumentChord, i: int)
    requires
        0 <= i < a.contents.len(),
    ensures
        decreases_to!(a => a.contents[i]),
{
    broadcast use vstd::std_specs::vec::axiom_vec_index_decreases;

    assert(decreases_to!(a => a.contents));
    assert(decreases_to!(a.contents => a.contents[i]));
}

/// Compares two instrumental chords structurally.
pub fn chord_eq(a: &InstrumentChord, b: &InstrumentChord) -> (r: bool)
    ensures
        r == a.equals(b),
    decreases a,
{
    let same_upbeat = match (&a.upbeat, &b.upbeat) {
        (Some(x), Some(y)) => *x == *y,
        (None, None) => true,
        _ => false,
    };
    if !(same_opt_str(&a.name, &b.name) && same_opt_str(&a.root, &b.root) && same_opt_str(
        &a.bass,
        &b.bass,
    ) && same_opt_str(&a.structure, &b.structure) && same_upbeat) {
        return false;
    }
    if a.contents.len() != b.contents.len() {
        return false;
    }
    let mut i: usize = 0;
    while i < a.contents.len()
        invariant
            i <= a.contents.len() == b.contents.len(),
            forall|j: int| 0 <= j < i ==> (#[trigger] a.contents[j]).equals(&b.contents[j]),
        decreases a.contents.len() - i,
    {
        proof {
            lemma_chord_decreases(*a, i as int);
        }
        if !chord_eq(&a.contents[i], &b.contents[i]) {
            return false;
        }
        i += 1;
    }
    true
}

/// Makes a structurally equal copy of an instrumental chord.
pub fn chord_copy(a: &InstrumentChord) -> (r: InstrumentChord)
    ensures
        r.equals(a),
    decreases a,
{
    let mut out: Vec<InstrumentChord> = Vec::new();
    let mut i: usize = 0;
    while i < a.contents.len()
        invariant
            i <= a.contents.len(),
            out.len() == i,
            forall|j: int| 0 <= j < i ==> (#[trigger] out[j]).equals(&a.contents[j]),
        decreases a.contents.len() - i,
    {
        proof {
            lemma_chord_decreases(*a, i as int);
        }
        out.push(chord_copy(&a.contents[i]));
        i += 1;
    }
    InstrumentChord {
        name: a.name.clone(),
        root: a.root.clone(),
        bass: a.bass.clone(),
        structure: a.structure.clone(),
        upbeat: a.upbeat,
        contents: out,
    }
}

impl Clone for InstrumentChord {
    fn clone(&self) -> (r: Self)
        ensures
            r.equals(self),
    {
        chord_copy(self)
    }
}

impl SameAs for InstrumentChord {
    open spec fn equals_spec(&self, o: &Self) -> bool {
        self.equals(o)
    }

    fn same_as(&self, o: &Self) -> (r: bool) {
        chord_eq(self, o)
    }
}

proof fn lemma_content_refl(c: VerseContent)
    ensures
        c.equals(&c),
    decreases c,
{
    assert forall|i: int| 0 <= i < nested(c).len() implies (#[trigger] nested(c)[i]).equals(
        &nested(c)[i],
    ) by {
        lemma_nested_decreases(c, i);
        lemma_content_refl(nested(c)[i]);
    }
}

proof fn lemma_chord_refl(c: InstrumentChord)
    ensures
        c.equals(&c),
    decreases c,
{
    assert forall|i: int| 0 <= i < c.contents.len() implies (#[trigger] c.contents[i]).equals(
        &c.contents[i],
    ) by {
        lemma_chord_decreases(c, i);
        lemma_chord_refl(c.contents[i]);
    }
}

proof fn lemma_entry_refl(e: LyricEntry)
    ensures
        e.equals(&e),
{
    match e {
        LyricEntry::Verse { lines, .. } => {
            assert forall|i: int| 0 <= i < lines.len() implies (#[trigger] lines@[i]).equals_spec(
                &lines@[i],
            ) by {
                let page = lines@[i];
                assert forall|j: int| 0 <= j < page.contents.len() implies (
                #[trigger] page.contents@[j]).equals_spec(&page.contents@[j]) by {
                    lemma_content_refl(page.contents@[j]);
                }
            }
        },
        LyricEntry::Instrument { lines, .. } => {
            assert forall|i: int| 0 <= i < lines.len() implies (#[trigger] lines@[i]).equals_spec(
                &lines@[i],
            ) by {
                let l = lines@[i];
                assert forall|j: int| 0 <= j < l.contents.len() implies (
                #[trigger] l.contents@[j]).equals_spec(&l.contents@[j]) by {
                    match l.contents@[j] {
                        InstrumentContent::Chord(c) => lemma_chord_refl(c),
                        InstrumentContent::Beat { contents } => {
                            assert forall|k: int| 0 <= k < contents.len() implies (
                            #[trigger] contents@[k]).equals_spec(&contents@[k]) by {
                                lemma_chord_refl(contents@[k]);
                            }
                        },
                    }
                }
            }
        },
    }
}

/// Every song is structurally equal to itself.
pub proof fn lemma_song_equals_refl(s: Song)
    ensures
        s.equals(&s),
{
    let p = s.properties;
    assert(p.tempo matches Some(t) ==> t.equals(&t));
    let l = s.lyrics.lyrics;
    assert forall|i: int| 0 <= i < l.len() implies (#[trigger] l@[i]).equals_spec(&l@[i]) by {
        lemma_entry_refl(l@[i]);
    }
}

proof fn lemma_content_sym_trans(a: VerseContent, b: VerseContent, c: VerseContent)
    ensures
        a.equals(&b) ==> b.equals(&a),
        a.equals(&b) && b.equals(&c) ==> a.equals(&c),
    decreases a,
{
    if a.equals(&b) {
        assert forall|i: int| 0 <= i < nested(b).len() implies (#[trigger] nested(b)[i]).equals(
            &nested(a)[i],
        ) by {
            lemma_nested_decreases(a, i);
            lemma_content_sym_trans(nested(a)[i], nested(b)[i], nested(b)[i]);
        }
        if b.equals(&c) {
            assert forall|i: int| 0 <= i < nested(a).len() implies (#[trigger] nested(a)[i]).equals(
                &nested(c)[i],
            ) by {
                lemma_nested_decreases(a, i);
                lemma_content_sym_trans(nested(a)[i], nested(b)[i], nested(c)[i]);
            }
        }
    }
}

proof fn lemma_chord_sym_trans(a: InstrumentChord, b: InstrumentChord, c: InstrumentChord)
    ensures
        a.equals(&b) ==> b.equals(&a),
        a.equals(&b) && b.equals(&c) ==> a.equals(&c),
    decreases a,
{
    if a.equals(&b) {
        assert forall|i: int| 0 <= i < b.contents.len() implies (#[trigger] b.contents[i]).equals(
            &a.contents[i],
        ) by {
            lemma_chord_decreases(a, i);
            lemma_chord_sym_trans(a.contents[i], b.contents[i], b.contents[i]);
        }
        if b.equals(&c) {
            assert forall|i: int| 0 <= i < a.contents.len() implies (#[trigger] a.contents[i]).equals(
                &c.contents[i],
            ) by {
                lemma_chord_decreases(a, i);
                lemma_chord_sym_trans(a.contents[i], b.contents[i], c.contents[i]);
            }
        }
    }
}

proof fn lemma_instrument_sym_trans(a: InstrumentContent, b: InstrumentContent, c: InstrumentContent)
    ensures
        a.equals(&b) ==> b.equals(&a),
        a.equals(&b) && b.equals(&c) ==> a.equals(&c),
{
    match (a, b, c) {
        (InstrumentContent::Chord(x), InstrumentContent::Chord(y), InstrumentContent::Chord(z)) => {
            lemma_chord_sym_trans(x, y, z);
        },
        (InstrumentContent::Chord(x), InstrumentContent::Chord(y), _) => {
            lemma_chord_sym_trans(x, y, y);
        },
        (
            InstrumentContent::Beat { contents: x },
            InstrumentContent::Beat { contents: y },
            _,
        ) => {
            assert forall|i: int| 0 <= i < y.len() && a.equals(&b) implies (
            #[trigger] y@[i]).equals_spec(&x@[i]) by {
                lemma_chord_sym_trans(x@[i], y@[i], y@[i]);
            }
            if let InstrumentContent::Beat { contents: z } = c {
                assert forall|i: int| 0 <= i < x.len() && a.equals(&b) && b.equals(&c) implies (
                #[trigger] x@[i]).equals_spec(&z@[i]) by {
                    lemma_chord_sym_trans(x@[i], y@[i], z@[i]);
                }
            }
        },
        _ => {},
    }
}

proof fn lemma_page_sym_trans(a: Lines, b: Lines, c: Lines)
    ensures
        a.equals(&b) ==> b.equals(&a),
        a.equals(&b) && b.equals(&c) ==> a.equals(&c),
{
    assert forall|i: int| 0 <= i < b.contents.len() && a.equals(&b) implies (
    #[trigger] b.contents@[i]).equals_spec(&a.contents@[i]) by {
        lemma_content_sym_trans(a.contents@[i], b.contents@[i], b.contents@[i]);
    }
    assert forall|i: int| 0 <= i < a.contents.len() && a.equals(&b) && b.equals(&c) implies (
    #[trigger] a.contents@[i]).equals_spec(&c.contents@[i]) by {
        lemma_content_sym_trans(a.contents@[i], b.contents@[i], c.contents@[i]);
    }
}

proof fn lemma_instrument_lines_sym_trans(a: InstrumentLines, b: InstrumentLines, c: InstrumentLines)
    ensures
        a.equals(&b) ==> b.equals(&a),
        a.equals(&b) && b.equals(&c) ==> a.equals(&c),
{
    assert forall|i: int| 0 <= i < b.contents.len() && a.equals(&b) implies (
    #[trigger] b.contents@[i]).equals_spec(&a.contents@[i]) by {
        lemma_instrument_sym_trans(a.contents@[i], b.contents@[i], b.contents@[i]);
    }
    assert forall|i: int| 0 <= i < a.contents.len() && a.equals(&b) && b.equals(&c) implies (
    #[trigger] a.contents@[i]).equals_spec(&c.contents@[i]) by {
        lemma_instrument_sym_trans(a.contents@[i], b.contents@[i], c.contents@[i]);
    }
}

proof fn lemma_entry_sym_trans(a: LyricEntry, b: LyricEntry, c: LyricEntry)
    ensures
        a.equals(&b) ==> b.equals(&a),
        a.equals(&b) && b.equals(&c) ==> a.equals(&c),
{
    match (a, b) {
        (LyricEntry::Verse { lines: x, .. }, LyricEntry::Verse { lines: y, .. }) => {
            assert forall|i: int| 0 <= i < y.len() && a.equals(&b) implies (
            #[trigger] y@[i]).equals_spec(&x@[i]) by {
                lemma_page_sym_trans(x@[i], y@[i], y@[i]);
            }
            if let LyricEntry::Verse { lines: z, .. } = c {
                assert forall|i: int| 0 <= i < x.len() && a.equals(&b) && b.equals(&c) implies (
                #[trigger] x@[i]).equals_spec(&z@[i]) by {
                    lemma_page_sym_trans(x@[i], y@[i], z@[i]);
                }
            }
        },
        (LyricEntry::Instrument { lines: x, .. }, LyricEntry::Instrument { lines: y, .. }) => {
            assert forall|i: int| 0 <= i < y.len() && a.equals(&b) implies (
            #[trigger] y@[i]).equals_spec(&x@[i]) by {
                lemma_instrument_lines_sym_trans(x@[i], y@[i], y@[i]);
            }
            if let LyricEntry::Instrument { lines: z, .. } = c {
                assert forall|i: int| 0 <= i < x.len() && a.equals(&b) && b.equals(&c) implies (
                #[trigger] x@[i]).equals_spec(&z@[i]) by {
                    lemma_instrument_lines_sym_trans(x@[i], y@[i], z@[i]);
                }
            }
        },
        _ => {},
    }
}

/// Structural equality of songs is symmetric and transitive.
pub proof fn lemma_song_equals_sym_trans(a: Song, b: Song, c: Song)
    ensures
        a.equals(&b) ==> b.equals(&a),
        a.equals(&b) && b.equals(&c) ==> a.equals(&c),
{
    let (x, y, z) = (a.lyrics.lyrics@, b.lyrics.lyrics@, c.lyrics.lyrics@);
    assert forall|i: int| 0 <= i < y.len() && a.equals(&b) implies (#[trigger] y[i]).equals_spec(
        &x[i],
    ) by {
        lemma_entry_sym_trans(x[i], y[i], y[i]);
    }
    assert forall|i: int| 0 <= i < x.len() && a.equals(&b) && b.equals(&c) implies (
    #[trigger] x[i]).equals_spec(&z[i]) by {
        lemma_entry_sym_trans(x[i], y[i], z[i]);
    }
    let (p, q, r) = (a.properties, b.properties, c.properties);
    if a.equals(&b) {
        assert(p.tempo matches Some(t) ==> q.tempo matches Some(u) && u.equals(&t));
    }
}

} // verus!
