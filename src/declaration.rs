//! The declaration block: `<vis> const NAME: TYPE in "header";`, repeated
//! until the input ends.
use vstd::prelude::*;
use crate::error::{ErrorView, GenerateError};
use crate::syntax::{
    identifier_accepted, parse_string_literal, parses_as_identifier, parses_as_type,
    parses_as_visibility, string_literal_value, type_accepted, visibility_accepted,
};
use crate::text::{
    chars_of, find_char, find_char_exec, find_word, find_word_exec, lead, lead_exec,
    substring, trail_exec, trimmed,
};

verus! {

/// One requested constant: its visibility and type as written, its name, and
/// the path of the header that defines it.
#[derive(Debug, PartialEq, Eq)]
pub struct Declaration {
    pub visibility: String,
    pub name: String,
    pub ty: String,
    pub path: String,
}

pub struct DeclarationView {
    pub visibility: Seq<char>,
    pub name: Seq<char>,
    pub ty: Seq<char>,
    pub path: Seq<char>,
}

impl View for Declaration {
    type V = DeclarationView;

    open spec fn view(&self) -> DeclarationView {
        DeclarationView {
            visibility: self.visibility@,
            name: self.name@,
            ty: self.ty@,
            path: self.path@,
        }
    }
}

pub open spec fn views(v: Seq<Declaration>) -> Seq<DeclarationView> {
    v.map_values(|d: Declaration| d@)
}

pub open spec fn const_word() -> Seq<char> {
    seq!['c', 'o', 'n', 's', 't']
}

pub open spec fn in_word() -> Seq<char> {
    seq!['i', 'n']
}

/// The declaration that starts at `q`, and the position after its `;`; or
/// the position where it breaks the grammar.
pub open spec fn declaration_at(s: Seq<char>, q: int) -> Result<(DeclarationView, int), int> {
    match find_word(s, q, const_word()) {
        None => Err(q),
        Some(k) => {
            let vis = trimmed(s, q, k);
            let a = lead(s, k + 5, s.len() as int);
            if !visibility_accepted(vis) {
                Err(q)
            } else {
                match find_char(s, a, ':') {
                    None => Err(a),
                    Some(c) => if !identifier_accepted(trimmed(s, a, c)) {
                        Err(a)
                    } else {
                        declaration_after_colon(s, vis, trimmed(s, a, c), c)
                    },
                }
            }
        },
    }
}

/// The rest of a declaration after the `:` at `c`: the type up to the word
/// `in`, then the header path.
pub open spec fn declaration_after_colon(
    s: Seq<char>,
    vis: Seq<char>,
    name: Seq<char>,
    c: int,
) -> Result<(DeclarationView, int), int> {
    match find_word(s, c + 1, in_word()) {
        None => Err(c + 1),
        Some(m) => {
            let ty = trimmed(s, c + 1, m);
            if !type_accepted(ty) {
                Err(c + 1)
            } else {
                declaration_after_in(s, DeclarationView { visibility: vis, name, ty, path: seq![] }, m + 2)
            }
        },
    }
}

/// The header path literal that starts at `l`: the first `;` at or after
/// `j` such that the text from `l` up to it is one string literal, and that
/// literal's value.
pub open spec fn literal_until_semicolon(s: Seq<char>, l: int, j: int) -> Option<(Seq<char>, int)>
    decreases s.len() - j,
{
    if j < l || j >= s.len() {
        None
    } else if s[j] == ';' && string_literal_value(trimmed(s, l, j)) is Some {
        Some((string_literal_value(trimmed(s, l, j))->Some_0, j))
    } else {
        literal_until_semicolon(s, l, j + 1)
    }
}

/// The rest of a declaration from `i`, after its word `in`: the header path
/// as a string literal, then `;`. `d` holds the parts read so far.
pub open spec fn declaration_after_in(s: Seq<char>, d: DeclarationView, i: int) -> Result<
    (DeclarationView, int),
    int,
> {
    match literal_until_semicolon(s, i, i) {
        None => Err(lead(s, i, s.len() as int)),
        Some((path, f)) => Ok((DeclarationView { path, ..d }, f + 1)),
    }
}

/// The declarations from `p` to the end, after `acc` were read.
pub open spec fn block_from(s: Seq<char>, p: int, acc: Seq<DeclarationView>) -> Result<
    Seq<DeclarationView>,
    int,
>
    decreases s.len() - p,
{
    let q = lead(s, p, s.len() as int);
    if q >= s.len() {
        Ok(acc)
    } else {
        match declaration_at(s, q) {
            Err(e) => Err(e),
            Ok((d, n)) => if p < n <= s.len() {
                block_from(s, n, acc.push(d))
            } else {
                Err(n)
            },
        }
    }
}

/// The declarations of a whole block, in input order; or the position of the
/// first place where the block breaks the grammar.
pub open spec fn declarations_of(s: Seq<char>) -> Result<Seq<DeclarationView>, int> {
    block_from(s, 0, seq![])
}

fn const_word_exec() -> (r: Vec<char>)
    ensures
        r@ == const_word(),
{
    let mut v: Vec<char> = Vec::new();
    v.push('c');
    v.push('o');
    v.push('n');
    v.push('s');
    v.push('t');
    assert(v@ =~= const_word());
    v
}

fn in_word_exec() -> (r: Vec<char>)
    ensures
        r@ == in_word(),
{
    let mut v: Vec<char> = Vec::new();
    v.push('i');
    v.push('n');
    assert(v@ =~= in_word());
    v
}

/// The header path literal from `l` up to the first `;` after which the text
/// is one string literal, its value, and the position of that `;`.
fn literal_exec(s: &Vec<char>, l: usize) -> (r: Option<(String, usize)>)
    requires
        l <= s.len(),
    ensures
        match literal_until_semicolon(s@, l as int, l as int) {
            Some((v, f)) => r matches Some((u, g)) && u@ == v && g == f,
            None => r is None,
        },
        r matches Some((_, g)) ==> l <= g < s.len(),
{
    let mut j = l;
    while j < s.len()
        invariant
            l <= j <= s.len(),
            literal_until_semicolon(s@, l as int, j as int) == literal_until_semicolon(
                s@,
                l as int,
                l as int,
            ),
        decreases s.len() - j,
    {
        if s[j] == ';' {
            let lo = lead_exec(s, l, j);
            let hi = trail_exec(s, lo, j);
            let text = substring(s, lo, hi);
            if let Some(v) = parse_string_literal(text.as_str()) {
                return Some((v, j));
            }
        }
        j += 1;
    }
    None
}

/// The declaration that starts at `q`, and the position after its `;`.
fn declaration_exec(s: &Vec<char>, q: usize, kc: &Vec<char>, ki: &Vec<char>) -> (r: Result<
    (Declaration, usize),
    usize,
>)
    requires
        q <= s.len(),
        kc@ == const_word(),
        ki@ == in_word(),
    ensures
        match declaration_at(s@, q as int) {
            Ok((d, n)) => r matches Ok((e, m)) && e@ == d && m == n,
            Err(p) => r matches Err(e) && e == p,
        },
        r matches Ok((_, m)) ==> q < m <= s.len(),
{
    let k = match find_word_exec(s, q, kc) {
        None => {
            return Err(q);
        },
        Some(k) => k,
    };
    assert(kc@.len() == 5);
    let vlo = lead_exec(s, q, k);
    let vhi = trail_exec(s, vlo, k);
    let vis = substring(s, vlo, vhi);
    if !parses_as_visibility(vis.as_str()) {
        return Err(q);
    }
    let a = lead_exec(s, k + 5, s.len());
    let c = match find_char_exec(s, a, ':') {
        None => {
            return Err(a);
        },
        Some(c) => c,
    };
    let nlo = lead_exec(s, a, c);
    let nhi = trail_exec(s, nlo, c);
    let name = substring(s, nlo, nhi);
    if !parses_as_identifier(name.as_str()) {
        return Err(a);
    }
    let m = match find_word_exec(s, c + 1, ki) {
        None => {
            return Err(c + 1);
        },
        Some(m) => m,
    };
    assert(ki@.len() == 2);
    let tlo = lead_exec(s, c + 1, m);
    let thi = trail_exec(s, tlo, m);
    let ty = substring(s, tlo, thi);
    if !parses_as_type(ty.as_str()) {
        return Err(c + 1);
    }
    let (path, f) = match literal_exec(s, m + 2) {
        None => {
            return Err(lead_exec(s, m + 2, s.len()));
        },
        Some(x) => x,
    };
    Ok((Declaration { visibility: vis, name, ty, path }, f + 1))
}

/// Parses a whole declaration block. Each declaration is
/// `<vis> const NAME: TYPE in "header";` with whitespace allowed between the
/// parts; the visibility, the name and the type are whatever syn accepts as
/// such (the name runs up to the first `:`), and the path is whatever syn
/// takes as one string literal, plain or raw, up to the first `;` where one
/// ends. A block with no
/// declaration is accepted and gives none.
pub fn parse_declarations(input: &str) -> (r: Result<Vec<Declaration>, GenerateError>)
    ensures
        match declarations_of(input@) {
            Ok(ds) => r matches Ok(v) && views(v@) == ds,
            Err(p) => r matches Err(e) && e@ == (ErrorView::Grammar { position: p }),
        },
{
    let s = chars_of(input);
    let kc = const_word_exec();
    let ki = in_word_exec();
    let mut out: Vec<Declaration> = Vec::new();
    let mut p: usize = 0;
    assert(views(out@) =~= seq![]);
    loop
        invariant
            p <= s.len(),
            s@ == input@,
            kc@ == const_word(),
            ki@ == in_word(),
            block_from(s@, p as int, views(out@)) == declarations_of(input@),
        decreases s.len() - p,
    {
        let q = lead_exec(&s, p, s.len());
        if q >= s.len() {
            return Ok(out);
        }
        match declaration_exec(&s, q, &kc, &ki) {
            Err(e) => {
                return Err(GenerateError::Grammar { position: e });
            },
            Ok((d, n)) => {
                let ghost before = out@;
                out.push(d);
                assert(views(out@) =~= views(before).push(d@));
                p = n;
            },
        }
    }
}

} // verus!
