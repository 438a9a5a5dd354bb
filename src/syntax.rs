//! What syn decides about Rust syntax: visibilities, types and expressions.
//! Rust's grammar is syn's to state, so its answers are named here and not
//! spelled out.
use vstd::prelude::*;

verus! {

/// Whether syn parses the whole of `s` as a visibility (`pub`, `pub(crate)`,
/// or nothing at all).
pub uninterp spec fn visibility_accepted(s: Seq<char>) -> bool;

/// Whether syn parses the whole of `s` as an identifier (a keyword is not
/// one).
pub uninterp spec fn identifier_accepted(s: Seq<char>) -> bool;

/// Whether syn parses the whole of `s` as a type.
pub uninterp spec fn type_accepted(s: Seq<char>) -> bool;

/// Whether syn parses the whole of `s` as one expression.
pub uninterp spec fn expression_accepted(s: Seq<char>) -> bool;

/// The value of the string literal that syn parses from the whole of `s`
/// (plain or raw, with its escapes decoded), or `None` where `s` is not one
/// string literal.
pub uninterp spec fn string_literal_value(s: Seq<char>) -> Option<Seq<char>>;

/// Relies on `syn::parse_str::<syn::Visibility>`: whether it succeeds on `s`.
#[verifier::external_body]
pub(crate) fn parses_as_visibility(s: &str) -> (r: bool)
    ensures
        r == visibility_accepted(s@),
{
    syn::parse_str::<syn::Visibility>(s).is_ok()
}

/// Relies on `syn::parse_str::<syn::Ident>`: whether it succeeds on `s`.
#[verifier::external_body]
pub(crate) fn parses_as_identifier(s: &str) -> (r: bool)
    ensures
        r == identifier_accepted(s@),
{
    syn::parse_str::<syn::Ident>(s).is_ok()
}

/// Relies on `syn::parse_str::<syn::Type>`: whether it succeeds on `s`.
#[verifier::external_body]
pub(crate) fn parses_as_type(s: &str) -> (r: bool)
    ensures
        r == type_accepted(s@),
{
    syn::parse_str::<syn::Type>(s).is_ok()
}

/// Relies on `syn::parse_str::<syn::LitStr>` and `LitStr::value`: the
/// decoded contents of the literal, where `s` is one string literal.
#[verifier::external_body]
pub(crate) fn parse_string_literal(s: &str) -> (r: Option<String>)
    ensures
        match r {
            Some(t) => string_literal_value(s@) == Some(t@),
            None => string_literal_value(s@) is None,
        },
{
    syn::parse_str::<syn::LitStr>(s).ok().map(|l| l.value())
}

/// Relies on `syn::parse_str::<syn::Expr>`, and on printing the parsed
/// expression back as tokens with `quote::ToTokens`. It succeeds exactly when
/// `s` is one expression. The printed text drops comments and layout; its
/// spacing depends on whether a compiler's macro expansion is running, so
/// nothing more is stated of it.
#[verifier::external_body]
pub(crate) fn parse_expression(s: &str) -> (r: Option<String>)
    ensures
        r is Some <==> expression_accepted(s@),
{
    match syn::parse_str::<syn::Expr>(s) {
        Ok(e) => Some(quote::ToTokens::to_token_stream(&e).to_string()),
        Err(_) => None,
    }
}

} // verus!
