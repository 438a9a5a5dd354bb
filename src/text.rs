//! Characters, scanning helpers over `Seq<char>`, and conversions between
//! `str` and `Vec<char>`.
use vstd::prelude::*;

verus! {

/// Whitespace between tokens of a declaration block or a header line.
pub open spec fn is_space(c: char) -> bool {
    c == ' ' || c == '\t' || c == '\n' || c == '\r' || c == '\x0C' || c == '\x0B'
}

/// A character that can stand inside an identifier.
pub open spec fn is_ident_char(c: char) -> bool {
    ('a' <= c && c <= 'z') || ('A' <= c && c <= 'Z') || ('0' <= c && c <= '9') || c == '_'
}

/// The first position at or after `i`, and not after `hi`, that does not hold
/// whitespace.
pub open spec fn lead(s: Seq<char>, i: int, hi: int) -> int
    decreases hi - i,
{
    if 0 <= i < hi && hi <= s.len() && is_space(s[i]) {
        lead(s, i + 1, hi)
    } else {
        i
    }
}

/// The end of `s[lo..hi]` with its trailing whitespace removed.
pub open spec fn trail(s: Seq<char>, lo: int, hi: int) -> int
    decreases hi - lo,
{
    if lo < hi && 0 < hi <= s.len() && is_space(s[hi - 1]) {
        trail(s, lo, hi - 1)
    } else {
        hi
    }
}

/// `s[lo..hi]` without leading and trailing whitespace.
pub open spec fn trimmed(s: Seq<char>, lo: int, hi: int) -> Seq<char> {
    s.subrange(lead(s, lo, hi), trail(s, lead(s, lo, hi), hi))
}

/// The first position at or after `i` that holds `c`.
pub open spec fn find_char(s: Seq<char>, i: int, c: char) -> Option<int>
    decreases s.len() - i,
{
    if i < 0 || i >= s.len() {
        None
    } else if s[i] == c {
        Some(i)
    } else {
        find_char(s, i + 1, c)
    }
}

/// `w` stands at `i` in `s` as a whole word.
pub open spec fn word_at(s: Seq<char>, i: int, w: Seq<char>) -> bool {
    &&& 0 <= i
    &&& i + w.len() <= s.len()
    &&& s.subrange(i, i + w.len()) == w
    &&& (i == 0 || !is_ident_char(s[i - 1]))
    &&& (i + w.len() == s.len() || !is_ident_char(s[i + w.len()]))
}

/// The first position at or after `i` where `w` stands as a whole word.
pub open spec fn find_word(s: Seq<char>, i: int, w: Seq<char>) -> Option<int>
    decreases s.len() - i,
{
    if i < 0 || i >= s.len() {
        None
    } else if word_at(s, i, w) {
        Some(i)
    } else {
        find_word(s, i + 1, w)
    }
}

pub fn is_space_char(c: char) -> (r: bool)
    ensures
        r == is_space(c),
{
    c == ' ' || c == '\t' || c == '\n' || c == '\r' || c == '\x0C' || c == '\x0B'
}

pub fn is_ident_char_exec(c: char) -> (r: bool)
    ensures
        r == is_ident_char(c),
{
    ('a' <= c && c <= 'z') || ('A' <= c && c <= 'Z') || ('0' <= c && c <= '9') || c == '_'
}

pub fn lead_exec(s: &Vec<char>, i: usize, hi: usize) -> (r: usize)
    requires
        i <= hi <= s.len(),
    ensures
        r as int == lead(s@, i as int, hi as int),
        i <= r <= hi,
{
    let mut j = i;
    while j < hi && is_space_char(s[j])
        invariant
            i <= j <= hi <= s.len(),
            lead(s@, j as int, hi as int) == lead(s@, i as int, hi as int),
        decreases hi - j,
    {
        j += 1;
    }
    j
}

pub fn trail_exec(s: &Vec<char>, lo: usize, hi: usize) -> (r: usize)
    requires
        lo <= hi <= s.len(),
    ensures
        r as int == trail(s@, lo as int, hi as int),
        lo <= r <= hi,
{
    let mut j = hi;
    while j > lo && is_space_char(s[j - 1])
        invariant
            lo <= j <= hi <= s.len(),
            trail(s@, lo as int, j as int) == trail(s@, lo as int, hi as int),
        decreases j - lo,
    {
        j -= 1;
    }
    j
}

/// The first position at or after `i` that holds `c`.
pub fn find_char_exec(s: &Vec<char>, i: usize, c: char) -> (r: Option<usize>)
    requires
        i <= s.len(),
    ensures
        r is None <==> find_char(s@, i as int, c) is None,
        r matches Some(k) ==> find_char(s@, i as int, c) == Some(k as int) && i <= k < s.len(),
{
    let mut j = i;
    while j < s.len()
        invariant
            i <= j <= s.len(),
            find_char(s@, j as int, c) == find_char(s@, i as int, c),
        decreases s.len() - j,
    {
        if s[j] == c {
            return Some(j);
        }
        j += 1;
    }
    None
}

/// Whether the characters of `w` stand in `s` from `i` on.
pub fn matches_at(s: &Vec<char>, i: usize, w: &Vec<char>) -> (r: bool)
    requires
        i <= s.len(),
    ensures
        r == (i + w.len() <= s.len() && s@.subrange(i as int, i + w.len()) == w@),
{
    if w.len() > s.len() - i {
        return false;
    }
    let mut k: usize = 0;
    while k < w.len()
        invariant
            i + w.len() <= s.len(),
            k <= w.len(),
            forall|j: int| 0 <= j < k ==> s@[i + j] == w@[j],
        decreases w.len() - k,
    {
        if s[i + k] != w[k] {
            assert(s@.subrange(i as int, i + w.len())[k as int] != w@[k as int]);
            return false;
        }
        k += 1;
    }
    assert(s@.subrange(i as int, i + w.len()) =~= w@);
    true
}

/// Whether `w` stands at `i` in `s` as a whole word.
pub fn word_at_exec(s: &Vec<char>, i: usize, w: &Vec<char>) -> (r: bool)
    requires
        i <= s.len(),
        w.len() > 0,
    ensures
        r == word_at(s@, i as int, w@),
{
    if !matches_at(s, i, w) {
        return false;
    }
    let end = i + w.len();
    (i == 0 || !is_ident_char_exec(s[i - 1])) && (end == s.len() || !is_ident_char_exec(s[end]))
}

/// The first position at or after `i` where `w` stands as a whole word.
pub fn find_word_exec(s: &Vec<char>, i: usize, w: &Vec<char>) -> (r: Option<usize>)
    requires
        i <= s.len(),
        w.len() > 0,
    ensures
        r is None <==> find_word(s@, i as int, w@) is None,
        r matches Some(k) ==> find_word(s@, i as int, w@) == Some(k as int),
        r matches Some(k) ==> i <= k < s.len() && word_at(s@, k as int, w@),
{
    let mut j = i;
    while j < s.len()
        invariant
            i <= j <= s.len(),
            w.len() > 0,
            find_word(s@, j as int, w@) == find_word(s@, i as int, w@),
        decreases s.len() - j,
    {
        if word_at_exec(s, j, w) {
            return Some(j);
        }
        j += 1;
    }
    None
}

/// Relies on `str::chars`, collected into a `Vec`: the characters of `s` in
/// order.
#[verifier::external_body]
pub fn chars_of(s: &str) -> (r: Vec<char>)
    ensures
        r@ == s@,
{
    Vec::from_iter(s.chars())
}

/// Relies on `String`'s `FromIterator<char>`: a string of the characters of
/// `v` in order.
#[verifier::external_body]
pub fn string_of(v: Vec<char>) -> (r: String)
    ensures
        r@ == v@,
{
    String::from_iter(v)
}

/// The characters `s[lo..hi]` as a string.
pub fn substring(s: &Vec<char>, lo: usize, hi: usize) -> (r: String)
    requires
        lo <= hi <= s.len(),
    ensures
        r@ == s@.subrange(lo as int, hi as int),
{
    let mut v: Vec<char> = Vec::new();
    let mut i = lo;
    while i < hi
        invariant
            lo <= i <= hi <= s.len(),
            v@ == s@.subrange(lo as int, i as int),
        decreases hi - i,
    {
        v.push(s[i]);
        assert(v@ =~= s@.subrange(lo as int, i + 1));
        i += 1;
    }
    string_of(v)
}

} // verus!
