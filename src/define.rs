//! Finding the value of `#define NAME value` in the text of a header.
//!
//! A header is read line by line, and a line defines `NAME` when it holds,
//! after optional whitespace, the word `#define`, whitespace, `NAME`,
//! whitespace, and a value that runs to the end of the line. The first such
//! line counts. Nothing else of the C preprocessor is understood.
use vstd::prelude::*;
use crate::text::{chars_of, is_space, is_space_char, lead, lead_exec, matches_at, substring};

verus! {

pub open spec fn define_word() -> Seq<char> {
    seq!['#', 'd', 'e', 'f', 'i', 'n', 'e']
}

/// The end of the line that starts at `p`: the position of its `\n`, or the
/// end of the text.
pub open spec fn line_end(h: Seq<char>, p: int) -> int
    decreases h.len() - p,
{
    if 0 <= p < h.len() && h[p] != '\n' {
        line_end(h, p + 1)
    } else {
        p
    }
}

/// The value that the line `h[p..e]` gives to `name`, if it defines it.
pub open spec fn define_on_line(h: Seq<char>, p: int, e: int, name: Seq<char>) -> Option<
    Seq<char>,
> {
    let i = lead(h, p, e);
    let j = i + 7;
    if j < e && h.subrange(i, j) == define_word() && is_space(h[j]) {
        let k = lead(h, j, e);
        let m = k + name.len();
        if m < e && h.subrange(k, m) == name && is_space(h[m]) {
            let v = lead(h, m, e);
            if v < e {
                Some(h.subrange(v, e))
            } else {
                None
            }
        } else {
            None
        }
    } else {
        None
    }
}

/// The value of the first line at or after the line start `p` that defines
/// `name`.
pub open spec fn define_from(h: Seq<char>, p: int, name: Seq<char>) -> Option<Seq<char>>
    decreases h.len() - p,
    via define_from_decreases
{
    if p < 0 || p > h.len() {
        None
    } else {
        let e = line_end(h, p);
        match define_on_line(h, p, e, name) {
            Some(v) => Some(v),
            None => if e < h.len() {
                define_from(h, e + 1, name)
            } else {
                None
            },
        }
    }
}

#[via_fn]
proof fn define_from_decreases(h: Seq<char>, p: int, name: Seq<char>) {
    if 0 <= p <= h.len() {
        lemma_line_end_bounds(h, p);
    }
}

/// The value that the first line of `h` that defines `name` gives it.
pub open spec fn define_value(h: Seq<char>, name: Seq<char>) -> Option<Seq<char>> {
    define_from(h, 0, name)
}

pub proof fn lemma_line_end_bounds(h: Seq<char>, p: int)
    requires
        0 <= p <= h.len(),
    ensures
        p <= line_end(h, p) <= h.len(),
        line_end(h, p) < h.len() ==> h[line_end(h, p)] == '\n',
    decreases h.len() - p,
{
    if p < h.len() && h[p] != '\n' {
        lemma_line_end_bounds(h, p + 1);
    }
}

fn define_word_exec() -> (r: Vec<char>)
    ensures
        r@ == define_word(),
{
    let mut v: Vec<char> = Vec::new();
    v.push('#');
    v.push('d');
    v.push('e');
    v.push('f');
    v.push('i');
    v.push('n');
    v.push('e');
    assert(v@ =~= define_word());
    v
}

fn line_end_exec(h: &Vec<char>, p: usize) -> (r: usize)
    requires
        p <= h.len(),
    ensures
        r == line_end(h@, p as int),
        p <= r <= h.len(),
{
    let mut i = p;
    while i < h.len() && h[i] != '\n'
        invariant
            p <= i <= h.len(),
            line_end(h@, i as int) == line_end(h@, p as int),
        decreases h.len() - i,
    {
        i += 1;
    }
    i
}

fn define_on_line_exec(h: &Vec<char>, p: usize, e: usize, name: &Vec<char>, dw: &Vec<char>) -> (r:
    Option<String>)
    requires
        p <= e <= h.len(),
        dw@ == define_word(),
    ensures
        r is None <==> define_on_line(h@, p as int, e as int, name@) is None,
        r matches Some(v) ==> define_on_line(h@, p as int, e as int, name@) == Some(v@),
{
    let i = lead_exec(h, p, e);
    if !(e - i > 7 && matches_at(h, i, dw) && is_space_char(h[i + 7])) {
        return None;
    }
    let j = i + 7;
    let k = lead_exec(h, j, e);
    if !(e - k > name.len() && matches_at(h, k, name) && is_space_char(h[k + name.len()])) {
        return None;
    }
    let m = k + name.len();
    let v = lead_exec(h, m, e);
    if v < e {
        Some(substring(h, v, e))
    } else {
        None
    }
}

/// The value text of the first line of `header` that reads
/// `#define name value`, up to the end of that line; `None` where no line
/// does.
pub fn find_define(header: &str, name: &str) -> (r: Option<String>)
    ensures
        r is None <==> define_value(header@, name@) is None,
        r matches Some(v) ==> define_value(header@, name@) == Some(v@),
{
    let h = chars_of(header);
    let n = chars_of(name);
    let dw = define_word_exec();
    let mut p: usize = 0;
    loop
        invariant
            p <= h.len(),
            h@ == header@,
            n@ == name@,
            dw@ == define_word(),
            define_from(h@, p as int, n@) == define_value(header@, name@),
        decreases h.len() - p,
    {
        let e = line_end_exec(&h, p);
        let found = define_on_line_exec(&h, p, e, &n, &dw);
        if found.is_some() {
            return found;
        }
        if e >= h.len() {
            return None;
        }
        p = e + 1;
    }
}

} // verus!
