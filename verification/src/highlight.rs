//! Syntax highlighting and HTML minification, through outside crates.
//!
//! Both are pure functions of their inputs (the syntax definitions, the
//! theme and the minification rules are fixed data compiled into the
//! crates), so their results are given names that the renderer's contracts
//! speak of exactly.

use vstd::prelude::*;

verus! {

/// The HTML that syntect produces for a code body under the syntax found
/// for a language token on the default non-newline syntax set, highlighted
/// with the "InspiredGitHub" theme; `None` when no syntax definition
/// matches the token or highlighting fails.
pub uninterp spec fn highlighted_html_of(lang: Seq<char>, code: Seq<char>) -> Option<Seq<char>>;

/// The result of minifying a text by HTML minification rules.
pub uninterp spec fn minified_of(s: Seq<char>) -> Seq<char>;

/// Relies on syntect::parsing::SyntaxSet::find_syntax_by_token (on the
/// default non-newline syntax set) and syntect::html::highlighted_html_for_string
/// (with the "InspiredGitHub" default theme): both depend on their
/// arguments alone.
#[verifier::external_body]
pub(crate) fn highlight_code(language: &str, code: &str) -> (r: Option<String>)
    ensures
        r is Some <==> highlighted_html_of(language@, code@) is Some,
        r is Some ==> r->0@ == highlighted_html_of(language@, code@)->Some_0,
{
    let ps = syntect::parsing::SyntaxSet::load_defaults_nonewlines();
    let ts = syntect::highlighting::ThemeSet::load_defaults();
    match ps.find_syntax_by_token(language) {
        None => None,
        Some(syntax) => syntect::html::highlighted_html_for_string(
            code,
            &ps,
            syntax,
            &ts.themes["InspiredGitHub"],
        ).ok(),
    }
}

/// Relies on minify::html::minify: a pure function from the input text to
/// its minified form.
#[verifier::external_body]
pub(crate) fn minify_html(s: &str) -> (r: String)
    ensures
        r@ == minified_of(s@),
{
    minify::html::minify(s)
}

} // verus!
