use c_header_consts::declaration::{parse_declarations, Declaration};
use c_header_consts::define::find_define;
use c_header_consts::error::GenerateError;
use c_header_consts::expand::{expand, Emitted};
use c_header_consts::grouping::{group_by_path, HeaderGroup};

fn s(x: &str) -> String {
    x.to_string()
}

/// Parses `input`, groups by the given canonical paths (one per declaration)
/// and expands against the given header texts (one per group).
fn run(input: &str, paths: &[&str], headers: &[(&str, &str)]) -> Result<Vec<Emitted>, GenerateError> {
    let decls = parse_declarations(input)?;
    assert_eq!(decls.len(), paths.len());
    let canon: Vec<String> = paths.iter().map(|p| s(p)).collect();
    let groups = group_by_path(&canon);
    let texts: Vec<String> = groups
        .iter()
        .map(|g| s(headers.iter().find(|(p, _)| *p == g.path).unwrap().1))
        .collect();
    expand(&decls, &groups, &texts)
}

fn constant(vis: &str, name: &str, ty: &str, value: &str) -> Emitted {
    Emitted::Constant { visibility: s(vis), name: s(name), ty: s(ty), value: s(value) }
}

fn dependency(path: &str) -> Emitted {
    Emitted::Dependency { path: s(path) }
}

#[test]
fn parses_one_declaration() {
    let d = parse_declarations("const FOO: i64 in \"path\";").unwrap();
    assert_eq!(
        d,
        vec![Declaration { visibility: s(""), name: s("FOO"), ty: s("i64"), path: s("path") }]
    );
}

#[test]
fn parses_visibility_spacing_and_escapes() {
    let d = parse_declarations(
        "pub const A : usize in \"a.h\" ;\n  pub(crate) const B: &str in \"dir\\\\x \\\"q\\\".h\";",
    )
    .unwrap();
    assert_eq!(
        d,
        vec![
            Declaration { visibility: s("pub"), name: s("A"), ty: s("usize"), path: s("a.h") },
            Declaration {
                visibility: s("pub(crate)"),
                name: s("B"),
                ty: s("&str"),
                path: s("dir\\x \"q\".h"),
            },
        ]
    );
}

#[test]
fn parses_raw_and_escaped_path_literals() {
    let d = parse_declarations(
        "const A: u8 in r\"..\\inc\\x.h\"; const B: u8 in r#\"a;b\"#; const C: u8 in \"\\x41\\u{42}\";",
    )
    .unwrap();
    assert_eq!(d[0].path, "..\\inc\\x.h");
    assert_eq!(d[1].path, "a;b");
    assert_eq!(d[2].path, "AB");
}

#[test]
fn parses_token_stream_spacing() {
    let d = parse_declarations("pub (crate) const X : [u8 ; 4] in \"h\" ;").unwrap();
    assert_eq!(d[0].visibility, "pub (crate)");
    assert_eq!(d[0].ty, "[u8 ; 4]");
}

#[test]
fn empty_block_gives_no_output() {
    assert_eq!(parse_declarations("").unwrap(), vec![]);
    assert_eq!(parse_declarations("  \n\t ").unwrap(), vec![]);
    assert_eq!(run(" \n ", &[], &[]).unwrap(), vec![]);
}

#[test]
fn missing_in_keyword_is_a_grammar_error() {
    assert_eq!(
        parse_declarations("const FOO: i64 \"p\";"),
        Err(GenerateError::Grammar { position: 10 })
    );
}

#[test]
fn unterminated_literal_is_a_grammar_error() {
    assert_eq!(
        parse_declarations("const A: u8 in \"abc"),
        Err(GenerateError::Grammar { position: 15 })
    );
}

#[test]
fn missing_semicolon_is_a_grammar_error() {
    assert_eq!(
        parse_declarations("const A: u8 in \"p\""),
        Err(GenerateError::Grammar { position: 15 })
    );
}

#[test]
fn trailing_tokens_are_a_grammar_error() {
    assert_eq!(
        parse_declarations("const A: u8 in \"p\"; junk"),
        Err(GenerateError::Grammar { position: 20 })
    );
}

#[test]
fn malformed_type_is_a_grammar_error() {
    assert_eq!(
        parse_declarations("const A: ) in \"p\";"),
        Err(GenerateError::Grammar { position: 8 })
    );
}

#[test]
fn bad_name_is_a_grammar_error() {
    assert_eq!(
        parse_declarations("const 1A: u8 in \"p\";"),
        Err(GenerateError::Grammar { position: 6 })
    );
}

#[test]
fn keyword_name_is_a_grammar_error() {
    assert_eq!(
        parse_declarations("const fn: u8 in \"p\";"),
        Err(GenerateError::Grammar { position: 6 })
    );
}

#[test]
fn missing_colon_is_a_grammar_error() {
    assert_eq!(
        parse_declarations("const A u8 in \"p\";"),
        Err(GenerateError::Grammar { position: 6 })
    );
}

#[test]
fn bad_visibility_is_a_grammar_error() {
    assert_eq!(
        parse_declarations("static const A: u8 in \"p\";"),
        Err(GenerateError::Grammar { position: 0 })
    );
}

#[test]
fn unknown_escape_is_a_grammar_error() {
    assert_eq!(
        parse_declarations("const A: u8 in \"a\\qb\";"),
        Err(GenerateError::Grammar { position: 15 })
    );
}

#[test]
fn finds_first_matching_define() {
    let h = "#define FOOBAR 1\n  #define   FOO\t7 \n#define FOO 8\n";
    assert_eq!(find_define(h, "FOO"), Some(s("7 ")));
    assert_eq!(find_define(h, "FOOBAR"), Some(s("1")));
    assert_eq!(find_define(h, "BAR"), None);
}

#[test]
fn define_needs_a_value_and_whole_words() {
    assert_eq!(find_define("#define FOO\n#define FOO 3", "FOO"), Some(s("3")));
    assert_eq!(find_define("#defineFOO 2\n", "FOO"), None);
    assert_eq!(find_define("x #define FOO 2\n", "FOO"), None);
    assert_eq!(find_define("", "FOO"), None);
}

#[test]
fn define_value_keeps_trailing_comment() {
    assert_eq!(find_define("#define N 12 // twelve\n", "N"), Some(s("12 // twelve")));
}

#[test]
fn integer_define_becomes_constant() {
    let out = run("const FOO: i64 in \"path\";", &["path"], &[("path", "#define FOO 12\n")]).unwrap();
    assert_eq!(out, vec![dependency("path"), constant("", "FOO", "i64", "12")]);
    assert_eq!(out[1].constant_declaration(), Some(s("const FOO: i64 = 12;")));
    assert_eq!(out[0].constant_declaration(), None);
    assert_eq!(
        out[0].dependency_declaration(),
        Some(s("const _: &[u8] = include_bytes!(\"path\");"))
    );
    assert_eq!(out[1].dependency_declaration(), None);
}

#[test]
fn dependency_text_escapes_the_path() {
    assert_eq!(
        dependency("C:\\h\"x.h").dependency_declaration(),
        Some(s("const _: &[u8] = include_bytes!(\"C:\\\\h\\\"x.h\");"))
    );
}

#[test]
fn string_define_becomes_constant() {
    let out =
        run("const BAR: &str in \"path\";", &["path"], &[("path", "#define BAR \"hello\"\n")]).unwrap();
    assert_eq!(out.len(), 2);
    assert_eq!(out[1].constant_declaration(), Some(s("const BAR: &str = \"hello\";")));
}

#[test]
fn public_constant_text() {
    let c = constant("pub(crate)", "N", "usize", "- 1");
    assert_eq!(c.constant_declaration(), Some(s("pub(crate) const N: usize = - 1;")));
}

#[test]
fn comment_is_dropped_from_value() {
    let out = run("const N: u32 in \"h\";", &["h"], &[("h", "#define N 12 /* twelve */\n")]).unwrap();
    assert_eq!(out[1], constant("", "N", "u32", "12"));
}

#[test]
fn missing_define_is_not_found() {
    let r = run("const FOO: i64 in \"path\";", &["/abs/path"], &[("/abs/path", "#define BAR 1\n")]);
    assert_eq!(r, Err(GenerateError::NotFound { name: s("FOO"), path: s("/abs/path") }));
}

#[test]
fn same_header_keeps_input_order() {
    let out = run(
        "const B: u8 in \"h\"; const A: u8 in \"h\";",
        &["h", "h"],
        &[("h", "#define A 1\n#define B 2\n")],
    )
    .unwrap();
    assert_eq!(out, vec![dependency("h"), constant("", "B", "u8", "2"), constant("", "A", "u8", "1")]);
}

#[test]
fn groups_by_path_once_each() {
    let paths = vec![s("a"), s("b"), s("a"), s("c"), s("b")];
    assert_eq!(
        group_by_path(&paths),
        vec![
            HeaderGroup { path: s("a"), members: vec![0, 2] },
            HeaderGroup { path: s("b"), members: vec![1, 4] },
            HeaderGroup { path: s("c"), members: vec![3] },
        ]
    );
    assert_eq!(group_by_path(&vec![]), vec![]);
}

#[test]
fn one_marker_per_header() {
    let out = run(
        "const X: u8 in \"./h\"; const Y: u8 in \"g\"; const Z: u8 in \"h\";",
        &["/h", "/g", "/h"],
        &[("/h", "#define X 1\n#define Z 3\n"), ("/g", "#define Y 2\n")],
    )
    .unwrap();
    assert_eq!(
        out,
        vec![
            dependency("/h"),
            constant("", "X", "u8", "1"),
            constant("", "Z", "u8", "3"),
            dependency("/g"),
            constant("", "Y", "u8", "2"),
        ]
    );
}

#[test]
fn non_expression_value_is_a_value_error() {
    let r = run("const BAD: i64 in \"p\";", &["/p"], &[("/p", "#define BAD +*3\n")]);
    assert_eq!(
        r,
        Err(GenerateError::ValueParse { raw: s("+*3"), ty: s("i64"), name: s("BAD"), path: s("/p") })
    );
}

#[test]
fn failure_emits_nothing_for_siblings() {
    let r = run(
        "const A: u8 in \"h\"; const B: u8 in \"h\";",
        &["h", "h"],
        &[("h", "#define A 1\n")],
    );
    assert_eq!(r, Err(GenerateError::NotFound { name: s("B"), path: s("h") }));
}

#[test]
fn generation_is_repeatable() {
    let input = "const A: u8 in \"h\"; pub const B: &str in \"h\";";
    let headers = [("h", "#define B \"b\"\n#define A (1 << 3)\n")];
    let first = run(input, &["h", "h"], &headers).unwrap();
    let second = run(input, &["h", "h"], &headers).unwrap();
    assert_eq!(first, second);
    assert_eq!(first[1].constant_declaration(), Some(s("const A: u8 = (1 << 3);")));
}
