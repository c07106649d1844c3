//! Character-level helpers on strings.
use vstd::prelude::*;

verus! {

broadcast use vstd::string::group_string_axioms;

/// Returns the characters of a string.
pub fn chars_of(s: &str) -> (r: Vec<char>)
    ensures
        r@ == s@,
{
    let mut r: Vec<char> = Vec::new();
    for c in it: s.chars()
        invariant
            r@ == it.seq().take(it.index() as int),
            it.seq() == s@,
    {
        r.push(c);
    }
    r
}

/// The pieces of `s` between occurrences of `sep`, in order; `s` without `sep` is one piece.
pub open spec fn split_on(s: Seq<char>, sep: char) -> Seq<Seq<char>>
    decreases s.len(),
{
    if s.len() == 0 {
        seq![Seq::empty()]
    } else {
        let prev = split_on(s.drop_last(), sep);
        if s.last() == sep {
            prev.push(Seq::empty())
        } else {
            prev.update(prev.len() - 1, prev.last().push(s.last()))
        }
    }
}

/// Whether `part` occurs in `text`.
pub open spec fn occurs_in(part: Seq<char>, text: Seq<char>) -> bool {
    exists|i: int|
        0 <= i <= text.len() - part.len() && #[trigger] text.subrange(i, i + part.len()) == part
}

/// Returns whether `part` occurs in `text` as a run of consecutive characters.
pub fn text_contains(text: &str, part: &str) -> (r: bool)
    ensures
        r == occurs_in(part@, text@),
{
    let t = chars_of(text);
    let p = chars_of(part);
    if p.len() > t.len() {
        return false;
    }
    let mut i: usize = 0;
    while i <= t.len() - p.len()
        invariant
            p.len() <= t.len(),
            t@ == text@,
            p@ == part@,
            forall|k: int| 0 <= k < i ==> #[trigger] t@.subrange(k, k + p.len()) != p@,
        decreases t.len() - p.len() + 1 - i,
    {
        let mut j: usize = 0;
        while j < p.len() && t[i + j] == p[j]
            invariant
                i <= t.len() - p.len(),
                p.len() <= t.len(),
                j <= p.len(),
                forall|m: int| 0 <= m < j ==> t@[i + m] == p@[m],
            decreases p.len() - j,
        {
            j += 1;
        }
        if j == p.len() {
            assert(t@.subrange(i as int, i + p.len()) =~= p@);
            return true;
        }
        assert(t@.subrange(i as int, i + p.len())[j as int] != p@[j as int]);
        i += 1;
    }
    false
}

/// Whether `c` has the Unicode White_Space property.
pub open spec fn is_white(c: char) -> bool {
    let u = c as u32;
    (0x9 <= u <= 0xd) || u == 0x20 || u == 0x85 || u == 0xa0 || u == 0x1680 || (0x2000 <= u
        <= 0x200a) || u == 0x2028 || u == 0x2029 || u == 0x202f || u == 0x205f || u == 0x3000
}

/// Returns whether `c` has the Unicode White_Space property, as `char::is_whitespace` does.
pub fn white(c: char) -> (r: bool)
    ensures
        r == is_white(c),
{
    let u = c as u32;
    (0x9 <= u && u <= 0xd) || u == 0x20 || u == 0x85 || u == 0xa0 || u == 0x1680 || (0x2000 <= u
        && u <= 0x200a) || u == 0x2028 || u == 0x2029 || u == 0x202f || u == 0x205f || u == 0x3000
}

/// `s` without its leading and trailing white space, as `str::trim` gives it.
pub open spec fn trim(s: Seq<char>) -> Seq<char>
    decreases s.len(),
{
    if s.len() == 0 {
        s
    } else if is_white(s[0]) {
        trim(s.drop_first())
    } else if is_white(s.last()) {
        trim(s.drop_last())
    } else {
        s
    }
}

/// `s` with every white space character replaced by a space.
pub open spec fn spaced(s: Seq<char>) -> Seq<char> {
    s.map_values(|c: char| if is_white(c) { ' ' } else { c })
}

/// `s` without its trailing occurrences of `c`.
pub open spec fn trim_end_char(s: Seq<char>, c: char) -> Seq<char>
    decreases s.len(),
{
    if s.len() > 0 && s.last() == c {
        trim_end_char(s.drop_last(), c)
    } else {
        s
    }
}

/// The bounds `[a, b)` of `trim(s)` within `s`.
pub open spec fn trim_bounds_ok(s: Seq<char>, a: int, b: int) -> bool {
    0 <= a <= b <= s.len() && trim(s) == s.subrange(a, b)
}

proof fn lemma_trim_subrange(s: Seq<char>, a: int, b: int)
    requires
        0 <= a <= b <= s.len(),
        forall|i: int| 0 <= i < a ==> is_white(s[i]),
        forall|i: int| b <= i < s.len() ==> is_white(s[i]),
        a < b ==> !is_white(s[a]) && !is_white(s[b - 1]),
    ensures
        trim(s) == s.subrange(a, b),
    decreases s.len(),
{
    if s.len() == 0 {
        assert(s.subrange(a, b) =~= s);
    } else if is_white(s[0]) {
        if a == 0 {
            assert(b == 0);
            assert forall|i: int| 0 <= i < s.drop_first().len() implies is_white(
                s.drop_first()[i],
            ) by {
                assert(s.drop_first()[i] == s[i + 1]);
            }
            lemma_trim_subrange(s.drop_first(), 0, 0);
            assert(s.subrange(a, b) =~= s.drop_first().subrange(0, 0));
        } else {
            lemma_trim_subrange(s.drop_first(), a - 1, b - 1);
            assert(s.subrange(a, b) =~= s.drop_first().subrange(a - 1, b - 1));
        }
    } else if is_white(s.last()) {
        assert(a == 0);
        if b == s.len() {
            assert(b == a);
        }
        lemma_trim_subrange(s.drop_last(), a, b);
        assert(s.subrange(a, b) =~= s.drop_last().subrange(a, b));
    } else {
        assert(a == 0 && b == s.len());
        assert(s.subrange(a, b) =~= s);
    }
}

/// Returns the bounds `[a, b)` of the trimmed part of `s`.
pub fn trim_bounds(s: &Vec<char>) -> (r: (usize, usize))
    ensures
        trim_bounds_ok(s@, r.0 as int, r.1 as int),
{
    let mut a: usize = 0;
    while a < s.len() && white(s[a])
        invariant
            a <= s.len(),
            forall|i: int| 0 <= i < a ==> is_white(s@[i]),
        decreases s.len() - a,
    {
        a += 1;
    }
    let mut b: usize = s.len();
    while b > a && white(s[b - 1])
        invariant
            a <= b <= s.len(),
            forall|i: int| b <= i < s.len() ==> is_white(s@[i]),
        decreases b,
    {
        b -= 1;
    }
    proof {
        lemma_trim_subrange(s@, a as int, b as int);
    }
    (a, b)
}

/// Returns `s` without its leading and trailing white space.
pub fn trimmed(s: &str) -> (r: String)
    ensures
        r@ == trim(s@),
{
    let cs = chars_of(s);
    let (a, b) = trim_bounds(&cs);
    s.substring_char(a, b).to_string()
}

/// Appends `spaced(s[a..b])` to `out`.
pub fn append_spaced(out: &mut String, s: &str, cs: &Vec<char>, a: usize, b: usize)
    requires
        cs@ == s@,
        a <= b <= cs.len(),
    ensures
        final(out)@ == old(out)@ + spaced(s@.subrange(a as int, b as int)),
{
    let ghost base = out@;
    let mut run: usize = a;
    let mut i: usize = a;
    while i < b
        invariant
            cs@ == s@,
            a <= run <= i <= b <= cs.len(),
            out@ == base + spaced(s@.subrange(a as int, run as int)),
            forall|k: int| run <= k < i ==> !is_white(s@[k]),
        decreases b - i,
    {
        if white(cs[i]) {
            let piece = s.substring_char(run, i);
            out.append(piece);
            out.append(" ");
            proof {
                reveal_strlit(" ");
                assert(spaced(s@.subrange(a as int, i + 1)) =~= spaced(
                    s@.subrange(a as int, run as int),
                ) + s@.subrange(run as int, i as int) + seq![' ']);
            }
            run = i + 1;
        }
        i += 1;
    }
    let piece = s.substring_char(run, b);
    out.append(piece);
    assert(spaced(s@.subrange(a as int, b as int)) =~= spaced(s@.subrange(a as int, run as int))
        + s@.subrange(run as int, b as int));
}

/// The index of the first `c` in `s` from `i` on.
pub open spec fn first_from(s: Seq<char>, c: char, i: int) -> Option<int>
    decreases s.len() - i,
{
    if i < 0 || i >= s.len() {
        None
    } else if s[i] == c {
        Some(i)
    } else {
        first_from(s, c, i + 1)
    }
}

/// Returns the index of the first `c` in `s`.
pub fn find_char(s: &Vec<char>, c: char) -> (r: Option<usize>)
    ensures
        match r {
            Some(k) => first_from(s@, c, 0) == Some(k as int) && k < s.len() && s@[k as int] == c,
            None => first_from(s@, c, 0) is None,
        },
{
    let mut k: usize = 0;
    while k < s.len()
        invariant
            k <= s.len(),
            first_from(s@, c, 0) == first_from(s@, c, k as int),
        decreases s.len() - k,
    {
        if s[k] == c {
            return Some(k);
        }
        k += 1;
    }
    None
}

proof fn lemma_trim_end_char(s: Seq<char>, c: char, e: int)
    requires
        0 <= e <= s.len(),
        forall|j: int| e <= j < s.len() ==> s[j] == c,
        e == 0 || s[e - 1] != c,
    ensures
        trim_end_char(s, c) == s.subrange(0, e),
    decreases s.len(),
{
    if s.len() > 0 && s.last() == c {
        lemma_trim_end_char(s.drop_last(), c, e);
        assert(s.drop_last().subrange(0, e) =~= s.subrange(0, e));
    } else {
        assert(s.subrange(0, e) =~= s);
    }
}

/// Returns the end of `s[a..n]` without its trailing occurrences of `c`.
pub fn trim_end_bound(s: &Vec<char>, c: char, a: usize) -> (e: usize)
    requires
        a <= s.len(),
    ensures
        a <= e <= s.len(),
        trim_end_char(s@.subrange(a as int, s.len() as int), c) == s@.subrange(a as int, e as int),
{
    let mut e: usize = s.len();
    while e > a && s[e - 1] == c
        invariant
            a <= e <= s.len(),
            forall|j: int| e <= j < s.len() ==> s@[j] == c,
        decreases e,
    {
        e -= 1;
    }
    let ghost t = s@.subrange(a as int, s.len() as int);
    proof {
        lemma_trim_end_char(t, c, e - a);
    }
    assert(t.subrange(0, e - a) =~= s@.subrange(a as int, e as int));
    e
}

/// The decimal digit character for `d`.
pub open spec fn digit(d: nat) -> char {
    seq!['0', '1', '2', '3', '4', '5', '6', '7', '8', '9'][d as int]
}

/// The decimal representation of `n`, without leading zeros.
pub open spec fn decimal(n: nat) -> Seq<char>
    decreases n,
{
    if n < 10 {
        seq![digit(n)]
    } else {
        decimal(n / 10).push(digit(n % 10))
    }
}

fn digit_str(d: u64) -> (r: &'static str)
    requires
        d < 10,
    ensures
        r@ == seq![digit(d as nat)],
{
    match d {
        0 => {
            proof { reveal_strlit("0"); }
            "0"
        },
        1 => {
            proof { reveal_strlit("1"); }
            "1"
        },
        2 => {
            proof { reveal_strlit("2"); }
            "2"
        },
        3 => {
            proof { reveal_strlit("3"); }
            "3"
        },
        4 => {
            proof { reveal_strlit("4"); }
            "4"
        },
        5 => {
            proof { reveal_strlit("5"); }
            "5"
        },
        6 => {
            proof { reveal_strlit("6"); }
            "6"
        },
        7 => {
            proof { reveal_strlit("7"); }
            "7"
        },
        8 => {
            proof { reveal_strlit("8"); }
            "8"
        },
        _ => {
            proof { reveal_strlit("9"); }
            "9"
        },
    }
}

/// Appends the decimal representation of `n` to `out`.
pub fn append_decimal(out: &mut String, n: u64)
    ensures
        final(out)@ == old(out)@ + decimal(n as nat),
    decreases n,
{
    if n >= 10 {
        append_decimal(out, n / 10);
    }
    out.append(digit_str(n % 10));
    assert(out@ =~= old(out)@ + decimal(n as nat)) by {
        if n >= 10 {
            assert(decimal(n as nat) == decimal((n / 10) as nat).push(digit((n % 10) as nat)));
        }
    }
}

} // verus!
