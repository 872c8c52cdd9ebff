//! End-to-end scenarios: literal source texts and the HTML fragments they
//! render to.

use snekdown::parser::Parser;
use snekdown::render::ToHtml;

fn fragment(input: &str) -> String {
    let mut parser = Parser::new(input.to_string(), None);
    let mut doc = parser.parse();
    doc.is_root = false;
    doc.to_html()
}

#[test]
fn section_with_paragraph() {
    let html = fragment("# Title\n\nHello **world**");
    assert!(html.contains(
        "<section><h1 id='title'>Title</h1><div class='paragraph'>Hello <b>world</b></div></section>"
    ), "got: {}", html);
}

#[test]
fn nested_list() {
    let html = fragment("- a\n  - b\n- c");
    assert!(html.contains("<ul><li>a<ul><li>b</li></ul></li><li>c</li></ul>"), "got: {}", html);
}

#[test]
fn code_block_without_highlighter() {
    let out = snekdown::render::code_block_html_with(
        &"rust".to_string(),
        &"fn main(){}".to_string(),
        None,
    );
    assert_eq!(out, "<div><code lang='rust'><pre>fn main(){}</pre></code></div>");
}

#[test]
fn code_block_unknown_language_end_to_end() {
    let html = fragment("```nosuchlanguagetoken\nfn main(){}\n```\n");
    assert!(
        html.contains("<div><code lang='nosuchlanguagetoken'><pre>fn main(){}</pre></code></div>"),
        "got: {}",
        html
    );
}

#[test]
fn table_with_separator() {
    let html = fragment("| a | b |\n|---|---|\n| 1 | 2 |");
    assert!(html.contains(
        "<div class='tableWrapper'><table><tr><th>a</th><th>b</th><tr><tr><td>1</td><td>2</td></tr></table></div>"
    ), "got: {}", html);
}

#[test]
fn unknown_placeholder_message() {
    let html = fragment("[[unknown]]");
    assert!(html.contains("Unknown placeholder &#x27;unknown&#x27;!"), "got: {}", html);
}

#[test]
fn escaped_asterisks_stay_literal() {
    let html = fragment("\\*not italic\\*");
    assert!(html.contains("<div class='paragraph'>*not italic*</div>"), "got: {}", html);
}

#[test]
fn section_unwinding_by_size() {
    let html = fragment("# A\n## B\n# C");
    assert!(html.contains(
        "<section><h1 id='a'>A</h1><section><h2 id='b'>B</h2></section></section><section><h1 id='c'>C</h1></section>"
    ), "got: {}", html);
}

#[test]
fn emphasis_variants() {
    assert!(fragment("*i*").contains("<i>i</i>"));
    assert!(fragment("_u_").contains("<u>u</u>"));
    assert!(fragment("~s~").contains("<del>s</del>"));
    assert!(fragment("^x^").contains("<sup>x</sup>"));
}

#[test]
fn inline_monospace() {
    let html = fragment("a `code` b");
    assert!(html.contains("a <code class='inlineCode'>code</code> b"), "got: {}", html);
}

#[test]
fn quote_lines() {
    let html = fragment("> hello\n> again");
    assert!(
        html.contains("<div class='quote'><blockquote>hello<br>again</blockquote></div>"),
        "got: {}",
        html
    );
}

#[test]
fn ruler_line() {
    let html = fragment("---\n");
    assert!(html.contains("<hr>"), "got: {}", html);
}

#[test]
fn plain_text_escapes_html() {
    let html = fragment("1 < 2 & 3 > 2");
    assert!(html.contains("1 &lt; 2 &amp; 3 &gt; 2"), "got: {}", html);
}

#[test]
fn ordered_list() {
    let html = fragment("1. a\n2. b");
    assert!(html.contains("<ol><li>a</li><li>b</li></ol>"), "got: {}", html);
}

#[test]
fn paragraph_ends_at_block_openers() {
    let html = fragment("text\n# A");
    assert!(
        html.contains("<div class='paragraph'>text</div><section><h1 id='a'>A</h1></section>"),
        "got: {}",
        html
    );
    let html2 = fragment("intro\n- item");
    assert!(
        html2.contains("<div class='paragraph'>intro</div><ul><li>item</li></ul>"),
        "got: {}",
        html2
    );
    let html3 = fragment("intro\n> quoted");
    assert!(
        html3.contains("<div class='paragraph'>intro</div><div class='quote'><blockquote>quoted</blockquote></div>"),
        "got: {}",
        html3
    );
}
