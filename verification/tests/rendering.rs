//! Unit tests of the renderer: one exact expected value per output form,
//! and the outside encoders exercised through public functions.

use snekdown::elements::{
    Anchor, BibEntry, BibReference, Centered, Checkbox, CodeBlock, Colored, Document, Element,
    Emoji, Header, Image, Inline, InlineMetadata, Line, MetadataValue, MonospaceText, Placeholder,
    PlainText, Quote, Ruler, Template, TemplateVariable, TextLine, Url, Value,
};
use snekdown::render::ToHtml;

fn plain_line(s: &str) -> Line {
    Line::Text(TextLine { subtext: vec![Inline::Plain(PlainText { value: s.to_string() })] })
}

#[test]
fn plain_text_minimal_encoding() {
    let p = PlainText { value: "a<b>&\"c'".to_string() };
    assert_eq!(p.to_html(), "a&lt;b&gt;&amp;&quot;c&#x27;");
}

#[test]
fn monospace_encodes_body() {
    let m = MonospaceText { value: "x<y".to_string() };
    assert_eq!(m.to_html(), "<code class='inlineCode'>x&lt;y</code>");
}

#[test]
fn header_number_and_anchor() {
    let h = Header { size: 2, anchor: "two words".to_string(), line: plain_line("T") };
    assert_eq!(h.to_html(), "<h2 id='two&#x20;words'>T</h2>");
}

#[test]
fn checkbox_forms() {
    assert_eq!(Checkbox { value: true }.to_html(), "<input type='checkbox' checked disabled>");
    assert_eq!(Checkbox { value: false }.to_html(), "<input type='checkbox'disabled>");
}

#[test]
fn ruler_form() {
    assert_eq!(Ruler {}.to_html(), "<hr>");
}

#[test]
fn emoji_attribute_encoding() {
    let e = Emoji { name: "a b".to_string(), value: 'x' };
    assert_eq!(e.to_html(), "<span class='emoji' emoji-name='a&#x20;b'>x</span>");
}

#[test]
fn colored_span() {
    let c = Colored {
        color: "red".to_string(),
        value: Box::new(Inline::Plain(PlainText { value: "t".to_string() })),
    };
    assert_eq!(c.to_html(), "<span class='colored' style='color:red;'>t</span>");
}

#[test]
fn anchor_link() {
    let a = Anchor { description: Box::new(plain_line("go")), reference: "sec".to_string() };
    assert_eq!(a.to_html(), "<a href='#sec'>go</a>");
}

#[test]
fn centered_line() {
    let c = Centered {
        line: TextLine { subtext: vec![Inline::Plain(PlainText { value: "m".to_string() })] },
    };
    assert_eq!(c.to_html(), "<div class='centered'>m</div>");
}

#[test]
fn url_with_and_without_description() {
    let u1 = Url { url: "http://x".to_string(), description: Some("see".to_string()) };
    assert_eq!(u1.to_html(), "<a href='http://x'>see</a>");
    let u2 = Url { url: "http://x".to_string(), description: None };
    assert_eq!(u2.to_html(), "<a href='http://x'>http://x</a>");
}

#[test]
fn image_with_style_metadata() {
    let im = Image {
        url: Url { url: "img.png".to_string(), description: None },
        metadata: Some(InlineMetadata {
            data: vec![("width".to_string(), MetadataValue::String("10px".to_string()))],
        }),
    };
    assert_eq!(im.to_html(), "<a href=img.png><img src='img.png' style='width: 10px;'/></a>");
}

#[test]
fn unresolved_placeholder_message() {
    let p = Placeholder { name: "toc".to_string(), value: None };
    assert_eq!(p.to_html(), "Unknown placeholder &#x27;toc&#x27;!");
}

#[test]
fn resolved_placeholder_renders_value() {
    let p = Placeholder {
        name: "x".to_string(),
        value: Some(Box::new(Element::Inline(Box::new(Inline::Plain(PlainText {
            value: "V".to_string(),
        }))))),
    };
    assert_eq!(p.to_html(), "V");
}

#[test]
fn bib_reference_with_index() {
    let b = BibReference { key: "knuth".to_string(), index: Some(3) };
    assert_eq!(b.to_html(), "<sup><a href='#knuth'>[3]</a></sup>");
    let u = BibReference { key: "knuth".to_string(), index: None };
    assert_eq!(u.to_html(), "<sup><a href='#knuth'></a></sup>");
}

#[test]
fn bib_entry_invisible() {
    let b = BibEntry {
        key: "k".to_string(),
        fields: vec![],
        display: None,
        url: None,
        visible: false,
    };
    assert_eq!(b.to_html(), "");
}

#[test]
fn bib_entry_display_string_template() {
    let b = BibEntry {
        key: "k1".to_string(),
        fields: vec![("author".to_string(), "An Author".to_string())],
        display: Some(Value::String("${author}".to_string())),
        url: None,
        visible: true,
    };
    assert_eq!(b.to_html(), "<span id='k1'>An Author</span>");
}

#[test]
fn bib_entry_display_element_template() {
    let b = BibEntry {
        key: "k1".to_string(),
        fields: vec![("author".to_string(), "An Author".to_string())],
        display: Some(Value::Template(Template {
            text: vec![Element::Inline(Box::new(Inline::TemplateVar(TemplateVariable {
                name: "author".to_string(),
                prefix: "".to_string(),
                suffix: "".to_string(),
                value: None,
            })))],
        })),
        url: None,
        visible: true,
    };
    assert_eq!(b.to_html(), "An Author");
}

#[test]
fn bib_entry_url_form() {
    let b = BibEntry {
        key: "k2".to_string(),
        fields: vec![],
        display: None,
        url: Some("http://x".to_string()),
        visible: true,
    };
    assert_eq!(b.to_html(), "<a id=k2 href='http&#x3A;&#x2F;&#x2F;x'>k2</a>");
}

#[test]
fn bib_entry_bare_form() {
    let b = BibEntry {
        key: "k3".to_string(),
        fields: vec![],
        display: None,
        url: None,
        visible: true,
    };
    assert_eq!(b.to_html(), "<span id='k3'><u>k3</u></span>");
}

#[test]
fn metadata_display_substitution() {
    let m = InlineMetadata {
        data: vec![
            ("display".to_string(), MetadataValue::String("${width} wide".to_string())),
            ("width".to_string(), MetadataValue::Integer(42)),
        ],
    };
    assert_eq!(m.to_html(), "42 wide");
}

#[test]
fn metadata_default_list() {
    let m = InlineMetadata {
        data: vec![
            ("a".to_string(), MetadataValue::Bool(true)),
            ("b".to_string(), MetadataValue::Integer(-7)),
        ],
    };
    assert_eq!(m.to_html(), " a=true, b=-7,");
}

#[test]
fn quote_with_metadata_span() {
    let q = Quote {
        metadata: Some(InlineMetadata {
            data: vec![("a".to_string(), MetadataValue::Bool(false))],
        }),
        text: vec![TextLine {
            subtext: vec![Inline::Plain(PlainText { value: "q".to_string() })],
        }],
    };
    assert_eq!(
        q.to_html(),
        "<div class='quote'><blockquote>q</blockquote><span class='metadata'> a=false,</span></div>"
    );
}

#[test]
fn highlighted_code_block_differs_from_fallback() {
    let c = CodeBlock { language: "rust".to_string(), code: "fn main() {}".to_string() };
    let html = c.to_html();
    assert!(html.starts_with("<div><code lang='rust'>"), "got: {}", html);
    // the default syntax set knows Rust, so the body is highlighted markup,
    // not the plain <pre> fallback
    assert!(!html.contains("<pre>fn main() {}</pre>"), "got: {}", html);
    assert!(html.contains("style"), "got: {}", html);
}

#[test]
fn root_document_minifies_style() {
    let mut doc = Document::new(true);
    doc.style = "p {\n    color: red;\n}".to_string();
    let html = doc.to_html();
    assert!(html.starts_with("<!DOCTYPE html>"), "got: {}", html);
    assert!(html.contains("color: red"), "got: {}", html);
    assert!(!html.contains("    color"), "minification left the input unchanged: {}", html);
}

#[test]
fn non_root_document_wraps_fragment() {
    let doc = Document::new(false);
    assert_eq!(doc.to_html(), "<div class='documentImport' document-import=true ></div>");
}
