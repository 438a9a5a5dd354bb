//! Turning grouped declarations and the texts of their headers into constant
//! declarations and dependency markers.
use vstd::prelude::*;
use crate::declaration::{Declaration, DeclarationView, views};
use crate::define::{define_value, find_define};
use crate::error::{ErrorView, GenerateError};
use crate::grouping::{HeaderGroup, HeaderGroupView, group_holds, group_views, is_grouping};
use crate::syntax::{expression_accepted, parse_expression};
use crate::text::{chars_of, string_of};

verus! {

/// One item of the generated code.
#[derive(Debug, PartialEq, Eq)]
pub enum Emitted {
    /// The header at `path` is an input of the generated code: a change to it
    /// must trigger generation again.
    Dependency { path: String },
    /// `<visibility> const <name>: <ty> = <value>;`
    Constant { visibility: String, name: String, ty: String, value: String },
}

pub enum EmittedView {
    Dependency { path: Seq<char> },
    Constant { visibility: Seq<char>, name: Seq<char>, ty: Seq<char>, value: Seq<char> },
}

impl View for Emitted {
    type V = EmittedView;

    open spec fn view(&self) -> EmittedView {
        match self {
            Emitted::Dependency { path } => EmittedView::Dependency { path: path@ },
            Emitted::Constant { visibility, name, ty, value } => EmittedView::Constant {
                visibility: visibility@,
                name: name@,
                ty: ty@,
                value: value@,
            },
        }
    }
}

/// What generation owes for one item: a dependency marker, or a constant
/// whose value is the expression written as `raw` in the header.
pub enum Planned {
    Dependency { path: Seq<char> },
    Constant { visibility: Seq<char>, name: Seq<char>, ty: Seq<char>, raw: Seq<char> },
}

/// `e` is the item planned as `p`. A constant's value is syn's printing of
/// the expression `raw`; the printed spacing is syn's and the compiler's
/// affair, so nothing more is said of it.
pub open spec fn fulfils(e: EmittedView, p: Planned) -> bool {
    match p {
        Planned::Dependency { path } => e == EmittedView::Dependency { path },
        Planned::Constant { visibility, name, ty, raw } => e matches EmittedView::Constant {
            visibility: v,
            name: n,
            ty: t,
            ..
        } && v == visibility && n == name && t == ty,
    }
}

/// The items `v` are, one for one and in order, those planned in `ps`.
pub open spec fn fulfils_all(v: Seq<Emitted>, ps: Seq<Planned>) -> bool {
    &&& v.len() == ps.len()
    &&& forall|k: int| 0 <= k < v.len() ==> fulfils(#[trigger] v[k]@, ps[k])
}

/// The constant for declaration `d`, whose header text is `header` at
/// `path`; or why there is none.
pub open spec fn constant_for(d: DeclarationView, path: Seq<char>, header: Seq<char>) -> Result<
    Planned,
    ErrorView,
> {
    match define_value(header, d.name) {
        None => Err(ErrorView::NotFound { name: d.name, path }),
        Some(raw) => if !expression_accepted(raw) {
            Err(ErrorView::ValueParse { raw, ty: d.ty, name: d.name, path })
        } else {
            Ok(Planned::Constant { visibility: d.visibility, name: d.name, ty: d.ty, raw })
        },
    }
}

/// The constants for the declarations `members[a..]` of one header, after
/// the items `acc`.
pub open spec fn group_items(
    decls: Seq<DeclarationView>,
    path: Seq<char>,
    header: Seq<char>,
    members: Seq<usize>,
    a: int,
    acc: Seq<Planned>,
) -> Result<Seq<Planned>, ErrorView>
    decreases members.len() - a,
{
    if a < 0 || a >= members.len() {
        Ok(acc)
    } else {
        match constant_for(decls[members[a] as int], path, header) {
            Err(e) => Err(e),
            Ok(c) => group_items(decls, path, header, members, a + 1, acc.push(c)),
        }
    }
}

/// The items for the groups from `g` on, after the items `acc`: for each
/// group its dependency marker, then the constants of its declarations in
/// input order.
pub open spec fn groups_items(
    decls: Seq<DeclarationView>,
    groups: Seq<HeaderGroupView>,
    headers: Seq<Seq<char>>,
    g: int,
    acc: Seq<Planned>,
) -> Result<Seq<Planned>, ErrorView>
    decreases groups.len() - g,
{
    if g < 0 || g >= groups.len() {
        Ok(acc)
    } else {
        let grp = groups[g];
        match group_items(
            decls,
            grp.path,
            headers[g],
            grp.members,
            0,
            acc.push(Planned::Dependency { path: grp.path }),
        ) {
            Err(e) => Err(e),
            Ok(items) => groups_items(decls, groups, headers, g + 1, items),
        }
    }
}

/// Everything generated for `decls`, grouped as `groups`, with `headers[g]`
/// the text of the header of group `g`; or the first error met.
pub open spec fn expansion(
    decls: Seq<DeclarationView>,
    groups: Seq<HeaderGroupView>,
    headers: Seq<Seq<char>>,
) -> Result<Seq<Planned>, ErrorView> {
    groups_items(decls, groups, headers, 0, seq![])
}

pub open spec fn header_views(v: Seq<String>) -> Seq<Seq<char>> {
    v.map_values(|h: String| h@)
}

/// Every member of every group is the index of a declaration.
pub open spec fn members_in_range(groups: Seq<HeaderGroupView>, n: int) -> bool {
    forall|g: int, a: int|
        0 <= g < groups.len() && 0 <= a < groups[g].members.len() ==> #[trigger] groups[g].members[a]
            < n
}

/// `<visibility> const <name>: <ty> = <value>;`, with no space in front
/// where the visibility is empty.
pub open spec fn constant_text(
    visibility: Seq<char>,
    name: Seq<char>,
    ty: Seq<char>,
    value: Seq<char>,
) -> Seq<char> {
    let vis = if visibility.len() > 0 {
        visibility + seq![' ']
    } else {
        seq![]
    };
    vis + seq!['c', 'o', 'n', 's', 't', ' '] + name + seq![':', ' '] + ty + seq![' ', '=', ' ']
        + value + seq![';']
}

/// How a character of a path is written inside a Rust string literal.
pub open spec fn escaped_char(c: char) -> Seq<char> {
    if c == '\\' || c == '"' {
        seq!['\\', c]
    } else if c == '\r' {
        seq!['\\', 'r']
    } else {
        seq![c]
    }
}

/// The first `n` characters of `p`, each written as inside a string literal.
pub open spec fn escaped_prefix(p: Seq<char>, n: int) -> Seq<char>
    decreases n,
{
    if n <= 0 || n > p.len() {
        seq![]
    } else {
        escaped_prefix(p, n - 1) + escaped_char(p[n - 1])
    }
}

/// `const _: &[u8] = include_bytes!("<path>");`: reading the header's bytes
/// makes the compiler build again when the header changes, and the unnamed
/// constant changes nothing else.
pub open spec fn dependency_text(path: Seq<char>) -> Seq<char> {
    "const _: &[u8] = include_bytes!(\""@ + escaped_prefix(path, path.len() as int) + "\");"@
}

fn escape_path(path: &str) -> (r: String)
    ensures
        r@ == escaped_prefix(path@, path@.len() as int),
{
    let p = chars_of(path);
    let mut v: Vec<char> = Vec::new();
    let mut i: usize = 0;
    while i < p.len()
        invariant
            i <= p.len(),
            p@ == path@,
            v@ == escaped_prefix(p@, i as int),
        decreases p.len() - i,
    {
        let c = p[i];
        let ghost before = v@;
        if c == '\\' || c == '"' {
            v.push('\\');
            v.push(c);
        } else if c == '\r' {
            v.push('\\');
            v.push('r');
        } else {
            v.push(c);
        }
        assert(v@ =~= before + escaped_char(c));
        i += 1;
    }
    string_of(v)
}

impl Emitted {
    /// The Rust text of a dependency marker, `dependency_text`; a constant
    /// has none.
    pub fn dependency_declaration(&self) -> (r: Option<String>)
        ensures
            match self@ {
                EmittedView::Dependency { path } => r matches Some(t) && t@ == dependency_text(path),
                EmittedView::Constant { .. } => r is None,
            },
    {
        match self {
            Emitted::Constant { .. } => None,
            Emitted::Dependency { path } => {
                let t = String::new();
                let t = t.concat("const _: &[u8] = include_bytes!(\"");
                let t = t.concat(escape_path(path.as_str()).as_str());
                let t = t.concat("\");");
                assert(t@ =~= dependency_text(path@));
                Some(t)
            },
        }
    }

    /// The Rust text of a constant: `<visibility> const <name>: <ty> =
    /// <value>;`. A dependency marker has no text here: how a build is told of
    /// an input is up to the code that hands the items to it.
    pub fn constant_declaration(&self) -> (r: Option<String>)
        ensures
            match self@ {
                EmittedView::Constant { visibility, name, ty, value } => r matches Some(t)
                    && t@ == constant_text(visibility, name, ty, value),
                EmittedView::Dependency { .. } => r is None,
            },
    {
        match self {
            Emitted::Dependency { .. } => None,
            Emitted::Constant { visibility, name, ty, value } => {
                let mut t = String::new();
                proof {
                    reveal_strlit(" ");
                    reveal_strlit("const ");
                    reveal_strlit(": ");
                    reveal_strlit(" = ");
                    reveal_strlit(";");
                }
                if !visibility.as_str().is_empty() {
                    t = t.concat(visibility.as_str());
                    t = t.concat(" ");
                }
                assert(t@ =~= (if visibility@.len() > 0 {
                    visibility@ + seq![' ']
                } else {
                    seq![]
                }));
                t = t.concat("const ");
                t = t.concat(name.as_str());
                t = t.concat(": ");
                t = t.concat(ty.as_str());
                t = t.concat(" = ");
                t = t.concat(value.as_str());
                t = t.concat(";");
                assert(t@ =~= constant_text(visibility@, name@, ty@, value@));
                Some(t)
            },
        }
    }
}

/// Grouping one canonical path per declaration gives members that index the
/// declarations, as `expand` asks.
pub proof fn lemma_grouping_in_range(paths: Seq<Seq<char>>, groups: Seq<HeaderGroupView>)
    requires
        is_grouping(paths, groups),
    ensures
        members_in_range(groups, paths.len() as int),
{
    assert forall|g: int, a: int|
        0 <= g < groups.len() && 0 <= a < groups[g].members.len() implies #[trigger] groups[g].members[a]
        < paths.len() by {
        assert(group_holds(paths, groups[g]));
    }
}

fn constant_exec(d: &Declaration, path: &String, header: &String) -> (r: Result<
    Emitted,
    GenerateError,
>)
    ensures
        match constant_for(d@, path@, header@) {
            Ok(c) => r matches Ok(x) && fulfils(x@, c),
            Err(e) => r matches Err(x) && x@ == e,
        },
{
    match find_define(header.as_str(), d.name.as_str()) {
        None => Err(GenerateError::NotFound { name: d.name.clone(), path: path.clone() }),
        Some(raw) => match parse_expression(raw.as_str()) {
            None => Err(
                GenerateError::ValueParse {
                    raw,
                    ty: d.ty.clone(),
                    name: d.name.clone(),
                    path: path.clone(),
                },
            ),
            Some(value) => Ok(
                Emitted::Constant {
                    visibility: d.visibility.clone(),
                    name: d.name.clone(),
                    ty: d.ty.clone(),
                    value,
                },
            ),
        },
    }
}

/// Generates, group by group, the dependency marker of the header and then
/// the constants of the group's declarations in input order. Stops at the
/// first declaration whose header has no `#define` for it (`NotFound`) or
/// whose value is not an expression (`ValueParse`); nothing is returned
/// then but the error.
pub fn expand(decls: &Vec<Declaration>, groups: &Vec<HeaderGroup>, headers: &Vec<String>) -> (r:
    Result<Vec<Emitted>, GenerateError>)
    requires
        headers.len() == groups.len(),
        members_in_range(group_views(groups@), decls.len() as int),
    ensures
        match expansion(views(decls@), group_views(groups@), header_views(headers@)) {
            Ok(items) => r matches Ok(v) && fulfils_all(v@, items),
            Err(e) => r matches Err(x) && x@ == e,
        },
{
    let ghost dv = views(decls@);
    let ghost gv = group_views(groups@);
    let ghost hv = header_views(headers@);
    let mut out: Vec<Emitted> = Vec::new();
    let ghost mut planned: Seq<Planned> = seq![];
    let mut g: usize = 0;
    while g < groups.len()
        invariant
            g <= groups.len() == headers.len(),
            dv == views(decls@),
            gv == group_views(groups@),
            hv == header_views(headers@),
            members_in_range(gv, decls.len() as int),
            fulfils_all(out@, planned),
            groups_items(dv, gv, hv, g as int, planned) == expansion(dv, gv, hv),
        decreases groups.len() - g,
    {
        let grp = &groups[g];
        let ghost before = planned;
        let ghost marker = Planned::Dependency { path: gv[g as int].path };
        out.push(Emitted::Dependency { path: grp.path.clone() });
        proof {
            planned = planned.push(marker);
            assert(fulfils(out@[out@.len() - 1]@, marker));
        }
        let mut a: usize = 0;
        while a < grp.members.len()
            invariant
                g < groups.len() == headers.len(),
                grp == &groups[g as int],
                dv == views(decls@),
                gv == group_views(groups@),
                hv == header_views(headers@),
                members_in_range(gv, decls.len() as int),
                a <= grp.members.len(),
                marker == (Planned::Dependency { path: gv[g as int].path }),
                fulfils_all(out@, planned),
                group_items(dv, gv[g as int].path, hv[g as int], gv[g as int].members, a as int, planned)
                    == group_items(dv, gv[g as int].path, hv[g as int], gv[g as int].members, 0, before.push(marker)),
                groups_items(dv, gv, hv, g as int, before) == expansion(dv, gv, hv),
            decreases grp.members.len() - a,
        {
            let i = grp.members[a];
            assert(gv[g as int].members[a as int] == i);
            assert(dv[i as int] == decls@[i as int]@);
            assert(hv[g as int] == headers@[g as int]@);
            assert(gv[g as int].path == grp.path@);
            match constant_exec(&decls[i], &grp.path, &headers[g]) {
                Err(e) => {
                    assert(gv.len() == groups@.len());
                    return Err(e);
                },
                Ok(c) => {
                    let ghost p = constant_for(dv[i as int], gv[g as int].path, hv[g as int])->Ok_0;
                    out.push(c);
                    proof {
                        planned = planned.push(p);
                    }
                },
            }
            a += 1;
        }
        g += 1;
    }
    Ok(out)
}

} // verus!
