//! The HTML serializer: a functional, character-level model of the output
//! (the `*_html` spec functions) and the executable renderer, proved to
//! return exactly the modeled text.
//!
//! Rendering is deterministic: for every node type, `to_html` returns the
//! value of its model, which is a pure function of the frozen tree.
//!
//! Template variables are bound through a replacement table that is empty
//! for ordinary rendering and filled from the entry's fields when a
//! bibliography entry renders through a display template.

use vstd::prelude::*;
use crate::elements::{
    Anchor, BibEntry, BibReference, Block, BoldText, Cell, Centered, Checkbox, CodeBlock, Colored, Document, Element,
    Emoji, Header, Image, Import, Inline, InlineMetadata, Line, List, ListItem, MetadataValue,
    ItalicText, MonospaceText, Paragraph, Placeholder, PlainText, Quote, Row, Ruler, Section, StrikedText, SuperscriptText, Table, Template,
    TemplateVariable, TextLine, UnderlinedText, Url, Value,
};
use crate::escape::{encode_attr, encode_attribute, encode_min, encode_minimal};
use crate::highlight::{highlight_code, highlighted_html_of, minified_of, minify_html};
use crate::numfmt::{dec_str, int_dec_str, i64_to_string, push_char, str_chars_vec, u64_to_string};

verus! {

/// First-match lookup in a replacement table, from position `i` on.
pub open spec fn lookup_rep_from(
    reps: Seq<(Seq<char>, Seq<char>)>,
    i: int,
    key: Seq<char>,
) -> Option<Seq<char>>
    decreases reps.len() - i,
{
    if i < 0 || i >= reps.len() {
        None
    } else if reps[i].0 == key {
        Some(reps[i].1)
    } else {
        lookup_rep_from(reps, i + 1, key)
    }
}

pub open spec fn lookup_rep(reps: Seq<(Seq<char>, Seq<char>)>, key: Seq<char>) -> Option<Seq<char>> {
    lookup_rep_from(reps, 0, key)
}

/// The views of a table of owned string pairs.
pub open spec fn pairs_view(v: Seq<(String, String)>) -> Seq<(Seq<char>, Seq<char>)> {
    Seq::new(v.len(), |i: int| (v[i].0@, v[i].1@))
}

/// How many characters lie before the first `c` at or after `from`
/// (up to the end of `s` when `c` does not occur).
pub open spec fn find_off(s: Seq<char>, from: int, c: char) -> nat
    decreases s.len() - from,
{
    if from < 0 || from >= s.len() {
        0
    } else if s[from] == c {
        0
    } else {
        1 + find_off(s, from + 1, c)
    }
}

/// `${key}` substitution over a template string, from position `i` on:
/// each `${key}` whose key is in the table becomes the key's value, an
/// unknown key stays as written, everything else passes through.
pub open spec fn subst_from(s: Seq<char>, i: int, reps: Seq<(Seq<char>, Seq<char>)>) -> Seq<char>
    decreases s.len() - i,
{
    if i < 0 || i >= s.len() {
        Seq::empty()
    } else if s[i] == '$' && i + 1 < s.len() && s[i + 1] == '{' && i + 2 + find_off(s, i + 2, '}')
        < s.len() {
        let j = i + 2 + find_off(s, i + 2, '}') as int;
        (match lookup_rep(reps, s.subrange(i + 2, j)) {
            Some(v) => v,
            None => s.subrange(i, j + 1),
        }) + subst_from(s, j + 1, reps)
    } else {
        seq![s[i]] + subst_from(s, i + 1, reps)
    }
}

/// Joining with `<br>`: the next piece is appended after a `<br>` unless
/// everything so far rendered empty.
pub open spec fn combine_br(a: Seq<char>, b: Seq<char>) -> Seq<char> {
    if a.len() > 0 {
        a + "<br>"@ + b
    } else {
        b
    }
}

pub open spec fn element_html(e: Element, reps: Seq<(Seq<char>, Seq<char>)>) -> Seq<char>
    decreases e,
{
    match e {
        Element::Block(b) => block_html(*b, reps),
        Element::Line(l) => line_html(*l, reps),
        Element::Inline(i) => inline_html(*i, reps),
    }
}

pub open spec fn elements_html(s: Seq<Element>, reps: Seq<(Seq<char>, Seq<char>)>) -> Seq<char>
    decreases s,
{
    if s.len() == 0 {
        Seq::empty()
    } else {
        elements_html(s.drop_last(), reps) + element_html(s.last(), reps)
    }
}

pub open spec fn block_html(b: Block, reps: Seq<(Seq<char>, Seq<char>)>) -> Seq<char>
    decreases b,
{
    match b {
        Block::Paragraph(p) => paragraph_html(p, reps),
        Block::List(l) => list_html(l, reps),
        Block::Table(t) => table_html(t, reps),
        Block::CodeBlock(c) => code_block_html(c),
        Block::Quote(q) => quote_html(q, reps),
        Block::Section(s) => section_html(s, reps),
        Block::Import(im) => import_html(im, reps),
        Block::Placeholder(p) => placeholder_html(p, reps),
    }
}

pub open spec fn blocks_html(s: Seq<Block>, reps: Seq<(Seq<char>, Seq<char>)>) -> Seq<char>
    decreases s,
{
    if s.len() == 0 {
        Seq::empty()
    } else {
        blocks_html(s.drop_last(), reps) + block_html(s.last(), reps)
    }
}

pub open spec fn line_html(l: Line, reps: Seq<(Seq<char>, Seq<char>)>) -> Seq<char>
    decreases l,
{
    match l {
        Line::Text(t) => textline_html(t, reps),
        Line::Ruler(r) => ruler_html(r),
        Line::Anchor(a) => anchor_html(a, reps),
        Line::Centered(c) => centered_html(c, reps),
        Line::BibEntry(b) => bib_entry_html(b, reps),
    }
}

pub open spec fn inline_html(x: Inline, reps: Seq<(Seq<char>, Seq<char>)>) -> Seq<char>
    decreases x,
{
    match x {
        Inline::Plain(p) => plain_html(p),
        Inline::Bold(b) => "<b>"@ + inline_html(*b.value, reps) + "</b>"@,
        Inline::Italic(i) => "<i>"@ + inline_html(*i.value, reps) + "</i>"@,
        Inline::Underlined(u) => "<u>"@ + inline_html(*u.value, reps) + "</u>"@,
        Inline::Striked(s) => "<del>"@ + inline_html(*s.value, reps) + "</del>"@,
        Inline::Superscript(s) => "<sup>"@ + inline_html(*s.value, reps) + "</sup>"@,
        Inline::Monospace(m) => monospace_html(m),
        Inline::Url(u) => url_html(u),
        Inline::Image(im) => image_html(im, reps),
        Inline::Checkbox(c) => checkbox_html(c),
        Inline::Emoji(e) => emoji_html(e),
        Inline::Colored(c) => "<span class='colored' style='color:"@ + encode_attr(c.color@)
            + ";'>"@ + inline_html(*c.value, reps) + "</span>"@,
        Inline::Placeholder(p) => placeholder_html(p, reps),
        Inline::BibReference(b) => bib_reference_html(b),
        Inline::TemplateVar(t) => template_variable_html(t, reps),
    }
}

pub open spec fn inlines_html(s: Seq<Inline>, reps: Seq<(Seq<char>, Seq<char>)>) -> Seq<char>
    decreases s,
{
    if s.len() == 0 {
        Seq::empty()
    } else {
        inlines_html(s.drop_last(), reps) + inline_html(s.last(), reps)
    }
}

pub open spec fn document_path_attr(d: Document) -> Seq<char> {
    match d.path {
        Some(p) => "path='"@ + encode_attr(p@) + "'"@,
        None => Seq::empty(),
    }
}

pub open spec fn document_html(d: Document, reps: Seq<(Seq<char>, Seq<char>)>) -> Seq<char>
    decreases d,
{
    if d.is_root {
        "<!DOCTYPE html>\n<html><head "@ + document_path_attr(d) + "><style>"@ + minified_of(
            d.style@,
        ) + "</style></head><body><div class='content'>"@ + blocks_html(d.elements@, reps)
            + "</div></body></html>"@
    } else {
        "<div class='documentImport' document-import=true "@ + document_path_attr(d) + ">"@
            + blocks_html(d.elements@, reps) + "</div>"@
    }
}

pub open spec fn import_html(im: Import, reps: Seq<(Seq<char>, Seq<char>)>) -> Seq<char>
    decreases im,
{
    match im.anchor.document {
        Some(d) => document_html(d, reps),
        None => Seq::empty(),
    }
}

pub open spec fn section_html(s: Section, reps: Seq<(Seq<char>, Seq<char>)>) -> Seq<char>
    decreases s,
{
    "<section>"@ + header_html(s.header, reps) + blocks_html(s.elements@, reps) + "</section>"@
}

pub open spec fn header_html(h: Header, reps: Seq<(Seq<char>, Seq<char>)>) -> Seq<char>
    decreases h,
{
    "<h"@ + dec_str(h.size as nat) + " id='"@ + encode_attr(h.anchor@) + "'>"@ + line_html(
        h.line,
        reps,
    ) + "</h"@ + dec_str(h.size as nat) + ">"@
}

pub open spec fn lines_html_br(s: Seq<Line>, reps: Seq<(Seq<char>, Seq<char>)>) -> Seq<char>
    decreases s,
{
    if s.len() == 0 {
        Seq::empty()
    } else {
        combine_br(lines_html_br(s.drop_last(), reps), line_html(s.last(), reps))
    }
}

pub open spec fn paragraph_html(p: Paragraph, reps: Seq<(Seq<char>, Seq<char>)>) -> Seq<char>
    decreases p,
{
    "<div class='paragraph'>"@ + lines_html_br(p.elements@, reps) + "</div>"@
}

pub open spec fn items_html(s: Seq<ListItem>, reps: Seq<(Seq<char>, Seq<char>)>) -> Seq<char>
    decreases s,
{
    if s.len() == 0 {
        Seq::empty()
    } else {
        items_html(s.drop_last(), reps) + list_item_html(s.last(), reps)
    }
}

pub open spec fn list_html(l: List, reps: Seq<(Seq<char>, Seq<char>)>) -> Seq<char>
    decreases l,
{
    if l.ordered {
        "<ol>"@ + items_html(l.items@, reps) + "</ol>"@
    } else {
        "<ul>"@ + items_html(l.items@, reps) + "</ul>"@
    }
}

/// A list item with children nests them in a list whose polarity follows
/// the first child.
pub open spec fn list_item_html(it: ListItem, reps: Seq<(Seq<char>, Seq<char>)>) -> Seq<char>
    decreases it,
{
    if it.children@.len() > 0 {
        if it.children@[0].ordered {
            "<li>"@ + line_html(it.text, reps) + "<ol>"@ + items_html(it.children@, reps) + "</ol></li>"@
        } else {
            "<li>"@ + line_html(it.text, reps) + "<ul>"@ + items_html(it.children@, reps) + "</ul></li>"@
        }
    } else {
        "<li>"@ + line_html(it.text, reps) + "</li>"@
    }
}

pub open spec fn cells_th_html(s: Seq<Cell>, reps: Seq<(Seq<char>, Seq<char>)>) -> Seq<char>
    decreases s,
{
    if s.len() == 0 {
        Seq::empty()
    } else {
        cells_th_html(s.drop_last(), reps) + "<th>"@ + line_html(s.last().text, reps) + "</th>"@
    }
}

pub open spec fn cell_html(c: Cell, reps: Seq<(Seq<char>, Seq<char>)>) -> Seq<char>
    decreases c,
{
    "<td>"@ + line_html(c.text, reps) + "</td>"@
}

pub open spec fn cells_td_html(s: Seq<Cell>, reps: Seq<(Seq<char>, Seq<char>)>) -> Seq<char>
    decreases s,
{
    if s.len() == 0 {
        Seq::empty()
    } else {
        cells_td_html(s.drop_last(), reps) + cell_html(s.last(), reps)
    }
}

pub open spec fn row_html(r: Row, reps: Seq<(Seq<char>, Seq<char>)>) -> Seq<char>
    decreases r,
{
    "<tr>"@ + cells_td_html(r.cells@, reps) + "</tr>"@
}

pub open spec fn rows_html(s: Seq<Row>, reps: Seq<(Seq<char>, Seq<char>)>) -> Seq<char>
    decreases s,
{
    if s.len() == 0 {
        Seq::empty()
    } else {
        rows_html(s.drop_last(), reps) + row_html(s.last(), reps)
    }
}

/// The header cells stand in an unclosed `<tr>`, and a second bare `<tr>`
/// precedes the body rows: the observed output shape, kept as is.
pub open spec fn table_html(t: Table, reps: Seq<(Seq<char>, Seq<char>)>) -> Seq<char>
    decreases t,
{
    "<div class='tableWrapper'><table><tr>"@ + cells_th_html(t.header.cells@, reps) + "<tr>"@
        + rows_html(t.rows@, reps) + "</table></div>"@
}

pub open spec fn code_block_html(c: CodeBlock) -> Seq<char> {
    if c.language@.len() > 0 {
        match highlighted_html_of(c.language@, c.code@) {
            Some(h) => "<div><code lang='"@ + encode_attr(c.language@) + "'>"@ + h
                + "</code></div>"@,
            None => "<div><code lang='"@ + encode_attr(c.language@) + "'><pre>"@ + encode_min(
                c.code@,
            ) + "</pre></code></div>"@,
        }
    } else {
        "<div><code><pre>"@ + encode_min(c.code@) + "</pre></code></div>"@
    }
}

pub open spec fn textlines_html_br(s: Seq<TextLine>, reps: Seq<(Seq<char>, Seq<char>)>) -> Seq<
    char,
>
    decreases s,
{
    if s.len() == 0 {
        Seq::empty()
    } else {
        combine_br(textlines_html_br(s.drop_last(), reps), textline_html(s.last(), reps))
    }
}

pub open spec fn quote_html(q: Quote, reps: Seq<(Seq<char>, Seq<char>)>) -> Seq<char>
    decreases q,
{
    match q.metadata {
        Some(m) => "<div class='quote'><blockquote>"@ + textlines_html_br(q.text@, reps)
            + "</blockquote><span class='metadata'>"@ + inline_metadata_html(m, reps)
            + "</span></div>"@,
        None => "<div class='quote'><blockquote>"@ + textlines_html_br(q.text@, reps)
            + "</blockquote></div>"@,
    }
}

pub open spec fn ruler_html(r: Ruler) -> Seq<char> {
    "<hr>"@
}

pub open spec fn textline_html(t: TextLine, reps: Seq<(Seq<char>, Seq<char>)>) -> Seq<char>
    decreases t,
{
    inlines_html(t.subtext@, reps)
}

/// The position of the first entry with the given key, or the length of
/// `data` when there is none.
pub open spec fn meta_find(data: Seq<(String, MetadataValue)>, key: Seq<char>) -> nat
    decreases data.len(),
{
    if data.len() == 0 {
        0
    } else if data[0].0@ == key {
        0
    } else {
        1 + meta_find(data.drop_first(), key)
    }
}

/// The style attribute accumulated from the width and height metadata of
/// an image.
pub open spec fn image_style(im: Image, reps: Seq<(Seq<char>, Seq<char>)>) -> Seq<char>
    decreases im, 0int,
{
    match im.metadata {
        Some(m) => {
            let wi = meta_find(m.data@, "width"@);
            let hi = meta_find(m.data@, "height"@);
            let w = if wi < m.data@.len() {
                "width: "@ + metadata_value_html(m.data@[wi as int].1, reps) + ";"@
            } else {
                Seq::empty()
            };
            let h = if hi < m.data@.len() {
                "height: "@ + metadata_value_html(m.data@[hi as int].1, reps) + ";"@
            } else {
                Seq::empty()
            };
            w + h
        },
        None => Seq::empty(),
    }
}

pub open spec fn image_html(im: Image, reps: Seq<(Seq<char>, Seq<char>)>) -> Seq<char>
    decreases im, 1int,
{
    match im.url.description {
        Some(d) => minified_of(
            "<div class='figure'><a href="@ + encode_attr(im.url.url@) + "><img src='"@
                + encode_attr(im.url.url@) + "' alt='"@ + encode_attr(d@) + "' style='"@
                + image_style(im, reps) + "'/></a><label class='imageDescription'>"@ + encode_attr(
                d@,
            ) + "</label></div>"@,
        ),
        None => "<a href="@ + im.url.url@ + "><img src='"@ + im.url.url@ + "' style='"@
            + image_style(im, reps) + "'/></a>"@,
    }
}

pub open spec fn monospace_html(m: MonospaceText) -> Seq<char> {
    "<code class='inlineCode'>"@ + encode_min(m.value@) + "</code>"@
}

/// A link keeps its target as written; only the link text is encoded.
pub open spec fn url_html(u: Url) -> Seq<char> {
    match u.description {
        Some(d) => "<a href='"@ + u.url@ + "'>"@ + encode_min(d@) + "</a>"@,
        None => "<a href='"@ + u.url@ + "'>"@ + encode_min(u.url@) + "</a>"@,
    }
}

pub open spec fn plain_html(p: PlainText) -> Seq<char> {
    encode_min(p.value@)
}

/// An unresolved placeholder renders as a diagnostic message, with the
/// quoted name in text-escaped form.
pub open spec fn placeholder_html(p: Placeholder, reps: Seq<(Seq<char>, Seq<char>)>) -> Seq<char>
    decreases p,
{
    match p.value {
        Some(e) => element_html(*e, reps),
        None => "Unknown placeholder "@ + encode_min(seq!['\''] + p.name@ + seq!['\'']) + "!"@,
    }
}

pub open spec fn anchor_html(a: Anchor, reps: Seq<(Seq<char>, Seq<char>)>) -> Seq<char>
    decreases a,
{
    "<a href='#"@ + encode_attr(a.reference@) + "'>"@ + line_html(*a.description, reps) + "</a>"@
}

pub open spec fn centered_html(c: Centered, reps: Seq<(Seq<char>, Seq<char>)>) -> Seq<char>
    decreases c,
{
    "<div class='centered'>"@ + textline_html(c.line, reps) + "</div>"@
}

pub open spec fn checkbox_html(c: Checkbox) -> Seq<char> {
    if c.value {
        "<input type='checkbox' checked disabled>"@
    } else {
        "<input type='checkbox'disabled>"@
    }
}

pub open spec fn emoji_html(e: Emoji) -> Seq<char> {
    "<span class='emoji' emoji-name='"@ + encode_attr(e.name@) + "'>"@ + seq![e.value]
        + "</span>"@
}

pub open spec fn metadata_value_html(v: MetadataValue, reps: Seq<(Seq<char>, Seq<char>)>) -> Seq<
    char,
>
    decreases v,
{
    match v {
        MetadataValue::String(s) => encode_min(s@),
        MetadataValue::Integer(n) => int_dec_str(n as int),
        MetadataValue::Bool(b) => if b {
            "true"@
        } else {
            "false"@
        },
        MetadataValue::Placeholder(p) => placeholder_html(p, reps),
        MetadataValue::Template(t) => template_html(t, reps),
    }
}

/// The replacement table built from metadata entries: each key maps to the
/// rendered form of its value.
pub open spec fn meta_reps(data: Seq<(String, MetadataValue)>, reps: Seq<(Seq<char>, Seq<char>)>) -> Seq<(Seq<char>, Seq<char>)>
    decreases data,
{
    if data.len() == 0 {
        Seq::empty()
    } else {
        meta_reps(data.drop_last(), reps).push(
            (data.last().0@, metadata_value_html(data.last().1, reps)),
        )
    }
}

/// The default rendering of metadata: a ` key=value,` list in insertion
/// order.
pub open spec fn meta_list_html(data: Seq<(String, MetadataValue)>, reps: Seq<(Seq<char>, Seq<char>)>) -> Seq<char>
    decreases data,
{
    if data.len() == 0 {
        Seq::empty()
    } else {
        meta_list_html(data.drop_last(), reps) + " "@ + data.last().0@ + "="@
            + metadata_value_html(data.last().1, reps) + ","@
    }
}

/// Metadata with a string-typed `display` entry renders by substituting
/// `${key}` holes in that entry; otherwise as the default list.
pub open spec fn inline_metadata_html(m: InlineMetadata, reps: Seq<(Seq<char>, Seq<char>)>) -> Seq<
    char,
>
    decreases m,
{
    let di = meta_find(m.data@, "display"@);
    if di < m.data@.len() && m.data@[di as int].1 is String {
        subst_from(m.data@[di as int].1->String_0@, 0, meta_reps(m.data@, reps))
    } else {
        meta_list_html(m.data@, reps)
    }
}

/// A citation: a superscript link to the entry, showing the index assigned
/// during post-processing (nothing when unresolved).
pub open spec fn bib_ref_formatted(b: BibReference) -> Seq<char> {
    match b.index {
        Some(i) => "["@ + dec_str(i as nat) + "]"@,
        None => Seq::empty(),
    }
}

pub open spec fn bib_reference_html(b: BibReference) -> Seq<char> {
    "<sup><a href='#"@ + b.key@ + "'>"@ + bib_ref_formatted(b) + "</a></sup>"@
}

pub open spec fn bib_entry_html(b: BibEntry, reps: Seq<(Seq<char>, Seq<char>)>) -> Seq<char>
    decreases b,
{
    if !b.visible {
        Seq::empty()
    } else {
        match b.display {
            Some(Value::Template(t)) => elements_html(t.text@, pairs_view(b.fields@)),
            Some(Value::String(f)) => "<span id='"@ + encode_attr(b.key@) + "'>"@ + encode_min(
                subst_from(f@, 0, pairs_view(b.fields@)),
            ) + "</span>"@,
            None => match b.url {
                Some(u) => "<a id="@ + encode_min(b.key@) + " href='"@ + encode_attr(u@) + "'>"@
                    + encode_min(b.key@) + "</a>"@,
                None => "<span id='"@ + encode_attr(b.key@) + "'><u>"@ + encode_attr(b.key@)
                    + "</u></span>"@,
            },
        }
    }
}

pub open spec fn template_html(t: Template, reps: Seq<(Seq<char>, Seq<char>)>) -> Seq<char>
    decreases t,
{
    elements_html(t.text@, reps)
}

/// A bound variable renders its value between the encoded prefix and
/// suffix; an unbound one takes its value from the replacement table, or
/// renders as nothing.
pub open spec fn template_variable_html(t: TemplateVariable, reps: Seq<(Seq<char>, Seq<char>)>) -> Seq<char>
    decreases t,
{
    match t.value {
        Some(e) => encode_min(t.prefix@) + element_html(*e, reps) + encode_min(t.suffix@),
        None => match lookup_rep(reps, t.name@) {
            Some(v) => encode_min(t.prefix@) + encode_min(v) + encode_min(t.suffix@),
            None => Seq::empty(),
        },
    }
}

fn lookup_rep_exec(reps: &Vec<(String, String)>, key: &String) -> (r: Option<String>)
    ensures
        r is Some <==> lookup_rep(pairs_view(reps@), key@) is Some,
        r is Some ==> r->0@ == lookup_rep(pairs_view(reps@), key@)->Some_0,
{
    let ghost pv = pairs_view(reps@);
    let mut i: usize = 0;
    while i < reps.len()
        invariant
            i <= reps@.len(),
            pv == pairs_view(reps@),
            lookup_rep(pv, key@) == lookup_rep_from(pv, i as int, key@),
        decreases reps@.len() - i,
    {
        if reps[i].0 == *key {
            assert(pv[i as int].0 == key@);
            return Some(reps[i].1.clone());
        }
        assert(pv[i as int].0 != key@);
        i = i + 1;
    }
    None
}

/// The position of the first occurrence of `c` in `cs` at or after `from`
/// (the length of `cs` when there is none).
fn find_char_from(cs: &Vec<char>, from: usize, c: char) -> (j: usize)
    requires
        from <= cs@.len(),
    ensures
        j as int == from + find_off(cs@, from as int, c),
        j <= cs@.len(),
        j < cs@.len() ==> cs@[j as int] == c,
{
    let mut k: usize = from;
    while k < cs.len()
        invariant
            from <= k <= cs@.len(),
            find_off(cs@, from as int, c) == k - from + find_off(cs@, k as int, c),
        decreases cs@.len() - k,
    {
        if cs[k] == c {
            return k;
        }
        k = k + 1;
    }
    k
}

/// `${key}` substitution over a string, against a replacement table.
fn subst_string(s: &String, reps: &Vec<(String, String)>) -> (r: String)
    ensures
        r@ == subst_from(s@, 0, pairs_view(reps@)),
{
    let cs = str_chars_vec(s.as_str());
    let ghost pv = pairs_view(reps@);
    let n = cs.len();
    let mut r = String::new();
    let mut i: usize = 0;
    while i < n
        invariant
            i <= n,
            n == cs@.len(),
            cs@ == s@,
            pv == pairs_view(reps@),
            subst_from(s@, 0, pv) =~= r@ + subst_from(s@, i as int, pv),
        decreases n - i,
    {
        let mut plain = true;
        if cs[i] == '$' && i + 1 < n {
            if cs[i + 1] == '{' {
                let j = find_char_from(&cs, i + 2, '}');
                if j < n {
                    plain = false;
                    // the text between `${` and `}` is the key
                    let mut key = String::new();
                    let mut k: usize = i + 2;
                    while k < j
                        invariant
                            i + 2 <= k <= j <= cs@.len(),
                            cs@ == s@,
                            key@ =~= s@.subrange(i + 2, k as int),
                        decreases j - k,
                    {
                        push_char(&mut key, cs[k]);
                        proof {
                            assert(s@.subrange(i + 2, k + 1) =~= s@.subrange(i + 2, k as int).push(
                                s@[k as int],
                            ));
                        }
                        k = k + 1;
                    }
                    match lookup_rep_exec(reps, &key) {
                        Some(v) => {
                            r.append(v.as_str());
                        },
                        None => {
                            let ghost old_r = r@;
                            let mut k2: usize = i;
                            while k2 <= j
                                invariant
                                    i <= k2 <= j + 1,
                                    j < n,
                                    n == cs@.len(),
                                    cs@ == s@,
                                    r@ =~= old_r + s@.subrange(i as int, k2 as int),
                                decreases j + 1 - k2,
                            {
                                push_char(&mut r, cs[k2]);
                                proof {
                                    assert(s@.subrange(i as int, k2 + 1) =~= s@.subrange(
                                        i as int,
                                        k2 as int,
                                    ).push(s@[k2 as int]));
                                }
                                k2 = k2 + 1;
                            }
                        },
                    }
                    i = j + 1;
                }
            }
        }
        if plain {
            push_char(&mut r, cs[i]);
            i = i + 1;
        }
    }
    r
}

fn meta_find_exec(data: &Vec<(String, MetadataValue)>, key: &String) -> (idx: usize)
    ensures
        idx as nat == meta_find(data@, key@),
{
    let mut k: usize = 0;
    proof {
        assert(data@.skip(0) =~= data@);
    }
    while k < data.len()
        invariant
            k <= data@.len(),
            meta_find(data@, key@) == k + meta_find(data@.skip(k as int), key@),
        decreases data@.len() - k,
    {
        if data[k].0 == *key {
            proof {
                assert(data@.skip(k as int)[0] == data@[k as int]);
            }
            return k;
        }
        proof {
            assert(data@.skip(k as int)[0] == data@[k as int]);
            assert(data@.skip(k as int).drop_first() =~= data@.skip(k + 1));
        }
        k = k + 1;
    }
    proof {
        assert(data@.skip(data@.len() as int) =~= Seq::<(String, MetadataValue)>::empty());
    }
    k
}

fn render_element(e: &Element, reps: &Vec<(String, String)>) -> (r: String)
    ensures
        r@ == element_html(*e, pairs_view(reps@)),
    decreases e, 1int,
{
    match e {
        Element::Block(b) => render_block(b, reps),
        Element::Line(l) => render_line(l, reps),
        Element::Inline(i) => render_inline(i, reps),
    }
}

fn render_elements(v: &Vec<Element>, reps: &Vec<(String, String)>) -> (r: String)
    ensures
        r@ == elements_html(v@, pairs_view(reps@)),
    decreases v@, 1int,
{
    let mut r = String::new();
    let mut i: usize = 0;
    while i < v.len()
        invariant
            i <= v@.len(),
            r@ =~= elements_html(v@.subrange(0, i as int), pairs_view(reps@)),
        decreases v@.len() - i,
    {
        let piece = render_element(&v[i], reps);
        r.append(piece.as_str());
        proof {
            assert(v@.subrange(0, i + 1).drop_last() =~= v@.subrange(0, i as int));
            assert(v@.subrange(0, i + 1).last() == v@[i as int]);
        }
        i = i + 1;
    }
    proof {
        assert(v@.subrange(0, v@.len() as int) =~= v@);
    }
    r
}

fn render_block(b: &Block, reps: &Vec<(String, String)>) -> (r: String)
    ensures
        r@ == block_html(*b, pairs_view(reps@)),
    decreases b, 1int,
{
    match b {
        Block::Paragraph(p) => render_paragraph(p, reps),
        Block::List(l) => render_list(l, reps),
        Block::Table(t) => render_table(t, reps),
        Block::CodeBlock(c) => render_code_block(c),
        Block::Quote(q) => render_quote(q, reps),
        Block::Section(s) => render_section(s, reps),
        Block::Import(im) => render_import(im, reps),
        Block::Placeholder(p) => render_placeholder(p, reps),
    }
}

fn render_blocks(v: &Vec<Block>, reps: &Vec<(String, String)>) -> (r: String)
    ensures
        r@ == blocks_html(v@, pairs_view(reps@)),
    decreases v@, 1int,
{
    let mut r = String::new();
    let mut i: usize = 0;
    while i < v.len()
        invariant
            i <= v@.len(),
            r@ =~= blocks_html(v@.subrange(0, i as int), pairs_view(reps@)),
        decreases v@.len() - i,
    {
        let piece = render_block(&v[i], reps);
        r.append(piece.as_str());
        proof {
            assert(v@.subrange(0, i + 1).drop_last() =~= v@.subrange(0, i as int));
            assert(v@.subrange(0, i + 1).last() == v@[i as int]);
        }
        i = i + 1;
    }
    proof {
        assert(v@.subrange(0, v@.len() as int) =~= v@);
    }
    r
}

fn render_line(l: &Line, reps: &Vec<(String, String)>) -> (r: String)
    ensures
        r@ == line_html(*l, pairs_view(reps@)),
    decreases l, 1int,
{
    match l {
        Line::Text(t) => render_textline(t, reps),
        Line::Ruler(ru) => render_ruler(ru),
        Line::Anchor(a) => render_anchor(a, reps),
        Line::Centered(c) => render_centered(c, reps),
        Line::BibEntry(b) => render_bib_entry(b, reps),
    }
}

fn render_inline(x: &Inline, reps: &Vec<(String, String)>) -> (r: String)
    ensures
        r@ == inline_html(*x, pairs_view(reps@)),
    decreases x, 1int,
{
    match x {
        Inline::Plain(p) => render_plain(p),
        Inline::Bold(b) => {
            let mut r = "<b>".to_owned();
            let inner = render_inline(&b.value, reps);
            r.append(inner.as_str());
            r.append("</b>");
            r
        },
        Inline::Italic(it) => {
            let mut r = "<i>".to_owned();
            let inner = render_inline(&it.value, reps);
            r.append(inner.as_str());
            r.append("</i>");
            r
        },
        Inline::Underlined(u) => {
            let mut r = "<u>".to_owned();
            let inner = render_inline(&u.value, reps);
            r.append(inner.as_str());
            r.append("</u>");
            r
        },
        Inline::Striked(s) => {
            let mut r = "<del>".to_owned();
            let inner = render_inline(&s.value, reps);
            r.append(inner.as_str());
            r.append("</del>");
            r
        },
        Inline::Superscript(s) => {
            let mut r = "<sup>".to_owned();
            let inner = render_inline(&s.value, reps);
            r.append(inner.as_str());
            r.append("</sup>");
            r
        },
        Inline::Monospace(m) => render_monospace(m),
        Inline::Url(u) => render_url(u),
        Inline::Image(im) => render_image(im, reps),
        Inline::Checkbox(c) => render_checkbox(c),
        Inline::Emoji(e) => render_emoji(e),
        Inline::Colored(c) => {
            let mut r = "<span class='colored' style='color:".to_owned();
            let ea = encode_attribute(c.color.as_str());
            r.append(ea.as_str());
            r.append(";'>");
            let inner = render_inline(&c.value, reps);
            r.append(inner.as_str());
            r.append("</span>");
            r
        },
        Inline::Placeholder(p) => render_placeholder(p, reps),
        Inline::BibReference(b) => render_bib_reference(b),
        Inline::TemplateVar(t) => render_template_variable(t, reps),
    }
}

fn render_inlines(v: &Vec<Inline>, reps: &Vec<(String, String)>) -> (r: String)
    ensures
        r@ == inlines_html(v@, pairs_view(reps@)),
    decreases v@, 1int,
{
    let mut r = String::new();
    let mut i: usize = 0;
    while i < v.len()
        invariant
            i <= v@.len(),
            r@ =~= inlines_html(v@.subrange(0, i as int), pairs_view(reps@)),
        decreases v@.len() - i,
    {
        let piece = render_inline(&v[i], reps);
        r.append(piece.as_str());
        proof {
            assert(v@.subrange(0, i + 1).drop_last() =~= v@.subrange(0, i as int));
            assert(v@.subrange(0, i + 1).last() == v@[i as int]);
        }
        i = i + 1;
    }
    proof {
        assert(v@.subrange(0, v@.len() as int) =~= v@);
    }
    r
}

fn render_document(d: &Document, reps: &Vec<(String, String)>) -> (r: String)
    ensures
        r@ == document_html(*d, pairs_view(reps@)),
    decreases d, 1int,
{
    let inner = render_blocks(&d.elements, reps);
    let mut path_attr = String::new();
    match &d.path {
        Some(p) => {
            path_attr.append("path='");
            let e = encode_attribute(p.as_str());
            path_attr.append(e.as_str());
            path_attr.append("'");
            proof {
                assert(path_attr@ =~= document_path_attr(*d));
            }
        },
        None => {
            proof {
                assert(path_attr@ =~= document_path_attr(*d));
            }
        },
    }
    let mut r = String::new();
    if d.is_root {
        r.append("<!DOCTYPE html>\n<html><head ");
        r.append(path_attr.as_str());
        r.append("><style>");
        let st = minify_html(d.style.as_str());
        r.append(st.as_str());
        r.append("</style></head><body><div class='content'>");
        r.append(inner.as_str());
        r.append("</div></body></html>");
    } else {
        r.append("<div class='documentImport' document-import=true ");
        r.append(path_attr.as_str());
        r.append(">");
        r.append(inner.as_str());
        r.append("</div>");
    }
    proof {
        assert(r@ =~= document_html(*d, pairs_view(reps@)));
    }
    r
}

fn render_import(im: &Import, reps: &Vec<(String, String)>) -> (r: String)
    ensures
        r@ == import_html(*im, pairs_view(reps@)),
    decreases im, 1int,
{
    match &im.anchor.document {
        Some(d) => render_document(d, reps),
        None => String::new(),
    }
}

fn render_section(s: &Section, reps: &Vec<(String, String)>) -> (r: String)
    ensures
        r@ == section_html(*s, pairs_view(reps@)),
    decreases s, 1int,
{
    let mut r = "<section>".to_owned();
    let head = render_header(&s.header, reps);
    r.append(head.as_str());
    let inner = render_blocks(&s.elements, reps);
    r.append(inner.as_str());
    r.append("</section>");
    proof {
        assert(r@ =~= section_html(*s, pairs_view(reps@)));
    }
    r
}

fn render_header(h: &Header, reps: &Vec<(String, String)>) -> (r: String)
    ensures
        r@ == header_html(*h, pairs_view(reps@)),
    decreases h, 1int,
{
    let num = u64_to_string(h.size as u64);
    let mut r = "<h".to_owned();
    r.append(num.as_str());
    r.append(" id='");
    let ea = encode_attribute(h.anchor.as_str());
    r.append(ea.as_str());
    r.append("'>");
    let inner = render_line(&h.line, reps);
    r.append(inner.as_str());
    r.append("</h");
    r.append(num.as_str());
    r.append(">");
    proof {
        assert(r@ =~= header_html(*h, pairs_view(reps@)));
    }
    r
}

fn render_lines_br(v: &Vec<Line>, reps: &Vec<(String, String)>) -> (r: String)
    ensures
        r@ == lines_html_br(v@, pairs_view(reps@)),
    decreases v@, 1int,
{
    let mut r = String::new();
    let mut i: usize = 0;
    while i < v.len()
        invariant
            i <= v@.len(),
            r@ =~= lines_html_br(v@.subrange(0, i as int), pairs_view(reps@)),
        decreases v@.len() - i,
    {
        let piece = render_line(&v[i], reps);
        if !r.as_str().is_empty() {
            r.append("<br>");
        }
        r.append(piece.as_str());
        proof {
            assert(v@.subrange(0, i + 1).drop_last() =~= v@.subrange(0, i as int));
            assert(v@.subrange(0, i + 1).last() == v@[i as int]);
        }
        i = i + 1;
    }
    proof {
        assert(v@.subrange(0, v@.len() as int) =~= v@);
    }
    r
}

fn render_paragraph(p: &Paragraph, reps: &Vec<(String, String)>) -> (r: String)
    ensures
        r@ == paragraph_html(*p, pairs_view(reps@)),
    decreases p, 1int,
{
    let mut r = "<div class='paragraph'>".to_owned();
    let inner = render_lines_br(&p.elements, reps);
    r.append(inner.as_str());
    r.append("</div>");
    proof {
        assert(r@ =~= paragraph_html(*p, pairs_view(reps@)));
    }
    r
}

fn render_items(v: &Vec<ListItem>, reps: &Vec<(String, String)>) -> (r: String)
    ensures
        r@ == items_html(v@, pairs_view(reps@)),
    decreases v@, 1int,
{
    let mut r = String::new();
    let mut i: usize = 0;
    while i < v.len()
        invariant
            i <= v@.len(),
            r@ =~= items_html(v@.subrange(0, i as int), pairs_view(reps@)),
        decreases v@.len() - i,
    {
        let piece = render_list_item(&v[i], reps);
        r.append(piece.as_str());
        proof {
            assert(v@.subrange(0, i + 1).drop_last() =~= v@.subrange(0, i as int));
            assert(v@.subrange(0, i + 1).last() == v@[i as int]);
        }
        i = i + 1;
    }
    proof {
        assert(v@.subrange(0, v@.len() as int) =~= v@);
    }
    r
}

fn render_list(l: &List, reps: &Vec<(String, String)>) -> (r: String)
    ensures
        r@ == list_html(*l, pairs_view(reps@)),
    decreases l, 1int,
{
    let inner = render_items(&l.items, reps);
    let mut r = String::new();
    if l.ordered {
        r.append("<ol>");
        r.append(inner.as_str());
        r.append("</ol>");
    } else {
        r.append("<ul>");
        r.append(inner.as_str());
        r.append("</ul>");
    }
    proof {
        assert(r@ =~= list_html(*l, pairs_view(reps@)));
    }
    r
}

fn render_list_item(it: &ListItem, reps: &Vec<(String, String)>) -> (r: String)
    ensures
        r@ == list_item_html(*it, pairs_view(reps@)),
    decreases it, 1int,
{
    let text = render_line(&it.text, reps);
    let mut r = "<li>".to_owned();
    r.append(text.as_str());
    if it.children.len() > 0 {
        let inner = render_items(&it.children, reps);
        if it.children[0].ordered {
            r.append("<ol>");
            r.append(inner.as_str());
            r.append("</ol></li>");
        } else {
            r.append("<ul>");
            r.append(inner.as_str());
            r.append("</ul></li>");
        }
    } else {
        r.append("</li>");
    }
    proof {
        assert(r@ =~= list_item_html(*it, pairs_view(reps@)));
    }
    r
}

fn render_cells_th(v: &Vec<Cell>, reps: &Vec<(String, String)>) -> (r: String)
    ensures
        r@ == cells_th_html(v@, pairs_view(reps@)),
    decreases v@, 1int,
{
    let mut r = String::new();
    let mut i: usize = 0;
    while i < v.len()
        invariant
            i <= v@.len(),
            r@ =~= cells_th_html(v@.subrange(0, i as int), pairs_view(reps@)),
        decreases v@.len() - i,
    {
        let piece = render_line(&v[i].text, reps);
        r.append("<th>");
        r.append(piece.as_str());
        r.append("</th>");
        proof {
            assert(v@.subrange(0, i + 1).drop_last() =~= v@.subrange(0, i as int));
            assert(v@.subrange(0, i + 1).last() == v@[i as int]);
        }
        i = i + 1;
    }
    proof {
        assert(v@.subrange(0, v@.len() as int) =~= v@);
    }
    r
}

fn render_cell(c: &Cell, reps: &Vec<(String, String)>) -> (r: String)
    ensures
        r@ == cell_html(*c, pairs_view(reps@)),
    decreases c, 1int,
{
    let mut r = "<td>".to_owned();
    let inner = render_line(&c.text, reps);
    r.append(inner.as_str());
    r.append("</td>");
    proof {
        assert(r@ =~= cell_html(*c, pairs_view(reps@)));
    }
    r
}

fn render_cells_td(v: &Vec<Cell>, reps: &Vec<(String, String)>) -> (r: String)
    ensures
        r@ == cells_td_html(v@, pairs_view(reps@)),
    decreases v@, 1int,
{
    let mut r = String::new();
    let mut i: usize = 0;
    while i < v.len()
        invariant
            i <= v@.len(),
            r@ =~= cells_td_html(v@.subrange(0, i as int), pairs_view(reps@)),
        decreases v@.len() - i,
    {
        let piece = render_cell(&v[i], reps);
        r.append(piece.as_str());
        proof {
            assert(v@.subrange(0, i + 1).drop_last() =~= v@.subrange(0, i as int));
            assert(v@.subrange(0, i + 1).last() == v@[i as int]);
        }
        i = i + 1;
    }
    proof {
        assert(v@.subrange(0, v@.len() as int) =~= v@);
    }
    r
}

fn render_row(row: &Row, reps: &Vec<(String, String)>) -> (r: String)
    ensures
        r@ == row_html(*row, pairs_view(reps@)),
    decreases row, 1int,
{
    let mut r = "<tr>".to_owned();
    let inner = render_cells_td(&row.cells, reps);
    r.append(inner.as_str());
    r.append("</tr>");
    proof {
        assert(r@ =~= row_html(*row, pairs_view(reps@)));
    }
    r
}

fn render_rows(v: &Vec<Row>, reps: &Vec<(String, String)>) -> (r: String)
    ensures
        r@ == rows_html(v@, pairs_view(reps@)),
    decreases v@, 1int,
{
    let mut r = String::new();
    let mut i: usize = 0;
    while i < v.len()
        invariant
            i <= v@.len(),
            r@ =~= rows_html(v@.subrange(0, i as int), pairs_view(reps@)),
        decreases v@.len() - i,
    {
        let piece = render_row(&v[i], reps);
        r.append(piece.as_str());
        proof {
            assert(v@.subrange(0, i + 1).drop_last() =~= v@.subrange(0, i as int));
            assert(v@.subrange(0, i + 1).last() == v@[i as int]);
        }
        i = i + 1;
    }
    proof {
        assert(v@.subrange(0, v@.len() as int) =~= v@);
    }
    r
}

fn render_table(t: &Table, reps: &Vec<(String, String)>) -> (r: String)
    ensures
        r@ == table_html(*t, pairs_view(reps@)),
    decreases t, 1int,
{
    let mut r = "<div class='tableWrapper'><table><tr>".to_owned();
    let head = render_cells_th(&t.header.cells, reps);
    r.append(head.as_str());
    r.append("<tr>");
    let body = render_rows(&t.rows, reps);
    r.append(body.as_str());
    r.append("</table></div>");
    proof {
        assert(r@ =~= table_html(*t, pairs_view(reps@)));
    }
    r
}

/// What a code block renders to, given the outcome of the highlighting
/// call: the highlighted HTML when there is one, else the `<pre>`-escaped
/// body; a block without a language never highlights.
pub open spec fn code_block_html_given(
    language: Seq<char>,
    code: Seq<char>,
    h: Option<Seq<char>>,
) -> Seq<char> {
    if language.len() > 0 {
        match h {
            Some(hh) => "<div><code lang='"@ + encode_attr(language) + "'>"@ + hh
                + "</code></div>"@,
            None => "<div><code lang='"@ + encode_attr(language) + "'><pre>"@ + encode_min(code)
                + "</pre></code></div>"@,
        }
    } else {
        "<div><code><pre>"@ + encode_min(code) + "</pre></code></div>"@
    }
}

/// The code-block shell around a highlighting result. Public so that the
/// exact output for any highlighting outcome can be exercised directly.
pub fn code_block_html_with(language: &String, code: &String, highlighted: Option<String>) -> (r:
    String)
    ensures
        r@ == code_block_html_given(
            language@,
            code@,
            match highlighted {
                Some(h) => Some(h@),
                None => None,
            },
        ),
{
    let mut r = String::new();
    if !language.as_str().is_empty() {
        let ea = encode_attribute(language.as_str());
        match &highlighted {
            Some(h) => {
                r.append("<div><code lang='");
                r.append(ea.as_str());
                r.append("'>");
                r.append(h.as_str());
                r.append("</code></div>");
            },
            None => {
                r.append("<div><code lang='");
                r.append(ea.as_str());
                r.append("'><pre>");
                let em = encode_minimal(code.as_str());
                r.append(em.as_str());
                r.append("</pre></code></div>");
            },
        }
    } else {
        r.append("<div><code><pre>");
        let em = encode_minimal(code.as_str());
        r.append(em.as_str());
        r.append("</pre></code></div>");
    }
    proof {
        assert(r@ =~= code_block_html_given(
            language@,
            code@,
            match highlighted {
                Some(h) => Some(h@),
                None => None,
            },
        ));
    }
    r
}

fn render_code_block(c: &CodeBlock) -> (r: String)
    ensures
        r@ == code_block_html(*c),
{
    let h = highlight_code(c.language.as_str(), c.code.as_str());
    code_block_html_with(&c.language, &c.code, h)
}

fn render_textlines_br(v: &Vec<TextLine>, reps: &Vec<(String, String)>) -> (r: String)
    ensures
        r@ == textlines_html_br(v@, pairs_view(reps@)),
    decreases v@, 1int,
{
    let mut r = String::new();
    let mut i: usize = 0;
    while i < v.len()
        invariant
            i <= v@.len(),
            r@ =~= textlines_html_br(v@.subrange(0, i as int), pairs_view(reps@)),
        decreases v@.len() - i,
    {
        let piece = render_textline(&v[i], reps);
        if !r.as_str().is_empty() {
            r.append("<br>");
        }
        r.append(piece.as_str());
        proof {
            assert(v@.subrange(0, i + 1).drop_last() =~= v@.subrange(0, i as int));
            assert(v@.subrange(0, i + 1).last() == v@[i as int]);
        }
        i = i + 1;
    }
    proof {
        assert(v@.subrange(0, v@.len() as int) =~= v@);
    }
    r
}

fn render_quote(q: &Quote, reps: &Vec<(String, String)>) -> (r: String)
    ensures
        r@ == quote_html(*q, pairs_view(reps@)),
    decreases q, 1int,
{
    let text = render_textlines_br(&q.text, reps);
    let mut r = "<div class='quote'><blockquote>".to_owned();
    r.append(text.as_str());
    match &q.metadata {
        Some(m) => {
            r.append("</blockquote><span class='metadata'>");
            let meta = render_inline_metadata(m, reps);
            r.append(meta.as_str());
            r.append("</span></div>");
        },
        None => {
            r.append("</blockquote></div>");
        },
    }
    proof {
        assert(r@ =~= quote_html(*q, pairs_view(reps@)));
    }
    r
}

fn render_ruler(ru: &Ruler) -> (r: String)
    ensures
        r@ == ruler_html(*ru),
{
    "<hr>".to_owned()
}

fn render_textline(t: &TextLine, reps: &Vec<(String, String)>) -> (r: String)
    ensures
        r@ == textline_html(*t, pairs_view(reps@)),
    decreases t, 1int,
{
    render_inlines(&t.subtext, reps)
}

fn render_image_style(im: &Image, reps: &Vec<(String, String)>) -> (r: String)
    ensures
        r@ == image_style(*im, pairs_view(reps@)),
    decreases im, 0int,
{
    let mut r = String::new();
    match &im.metadata {
        Some(m) => {
            let wkey = "width".to_owned();
            let wi = meta_find_exec(&m.data, &wkey);
            if wi < m.data.len() {
                r.append("width: ");
                let v = render_metadata_value(&m.data[wi].1, reps);
                r.append(v.as_str());
                r.append(";");
            }
            let hkey = "height".to_owned();
            let hi = meta_find_exec(&m.data, &hkey);
            if hi < m.data.len() {
                r.append("height: ");
                let v = render_metadata_value(&m.data[hi].1, reps);
                r.append(v.as_str());
                r.append(";");
            }
            proof {
                assert(r@ =~= image_style(*im, pairs_view(reps@)));
            }
        },
        None => {},
    }
    r
}

fn render_image(im: &Image, reps: &Vec<(String, String)>) -> (r: String)
    ensures
        r@ == image_html(*im, pairs_view(reps@)),
    decreases im, 1int,
{
    let style = render_image_style(im, reps);
    match &im.url.description {
        Some(d) => {
            let ea = encode_attribute(im.url.url.as_str());
            let ed = encode_attribute(d.as_str());
            let mut f = "<div class='figure'><a href=".to_owned();
            f.append(ea.as_str());
            f.append("><img src='");
            f.append(ea.as_str());
            f.append("' alt='");
            f.append(ed.as_str());
            f.append("' style='");
            f.append(style.as_str());
            f.append("'/></a><label class='imageDescription'>");
            f.append(ed.as_str());
            f.append("</label></div>");
            let r = minify_html(f.as_str());
            proof {
                assert(r@ =~= image_html(*im, pairs_view(reps@)));
            }
            r
        },
        None => {
            let mut r = "<a href=".to_owned();
            r.append(im.url.url.as_str());
            r.append("><img src='");
            r.append(im.url.url.as_str());
            r.append("' style='");
            r.append(style.as_str());
            r.append("'/></a>");
            proof {
                assert(r@ =~= image_html(*im, pairs_view(reps@)));
            }
            r
        },
    }
}

fn render_monospace(m: &MonospaceText) -> (r: String)
    ensures
        r@ == monospace_html(*m),
{
    let mut r = "<code class='inlineCode'>".to_owned();
    let em = encode_minimal(m.value.as_str());
    r.append(em.as_str());
    r.append("</code>");
    proof {
        assert(r@ =~= monospace_html(*m));
    }
    r
}

fn render_url(u: &Url) -> (r: String)
    ensures
        r@ == url_html(*u),
{
    let mut r = "<a href='".to_owned();
    r.append(u.url.as_str());
    r.append("'>");
    match &u.description {
        Some(d) => {
            let em = encode_minimal(d.as_str());
            r.append(em.as_str());
        },
        None => {
            let em = encode_minimal(u.url.as_str());
            r.append(em.as_str());
        },
    }
    r.append("</a>");
    proof {
        assert(r@ =~= url_html(*u));
    }
    r
}

fn render_plain(p: &PlainText) -> (r: String)
    ensures
        r@ == plain_html(*p),
{
    encode_minimal(p.value.as_str())
}

fn render_placeholder(p: &Placeholder, reps: &Vec<(String, String)>) -> (r: String)
    ensures
        r@ == placeholder_html(*p, pairs_view(reps@)),
    decreases p, 1int,
{
    match &p.value {
        Some(e) => render_element(e, reps),
        None => {
            let mut q = String::new();
            push_char(&mut q, '\'');
            q.append(p.name.as_str());
            push_char(&mut q, '\'');
            proof {
                assert(q@ =~= seq!['\''] + p.name@ + seq!['\'']);
            }
            let enc = encode_minimal(q.as_str());
            let mut r = "Unknown placeholder ".to_owned();
            r.append(enc.as_str());
            r.append("!");
            proof {
                assert(r@ =~= placeholder_html(*p, pairs_view(reps@)));
            }
            r
        },
    }
}

fn render_anchor(a: &Anchor, reps: &Vec<(String, String)>) -> (r: String)
    ensures
        r@ == anchor_html(*a, pairs_view(reps@)),
    decreases a, 1int,
{
    let mut r = "<a href='#".to_owned();
    let ea = encode_attribute(a.reference.as_str());
    r.append(ea.as_str());
    r.append("'>");
    let inner = render_line(&a.description, reps);
    r.append(inner.as_str());
    r.append("</a>");
    proof {
        assert(r@ =~= anchor_html(*a, pairs_view(reps@)));
    }
    r
}

fn render_centered(c: &Centered, reps: &Vec<(String, String)>) -> (r: String)
    ensures
        r@ == centered_html(*c, pairs_view(reps@)),
    decreases c, 1int,
{
    let mut r = "<div class='centered'>".to_owned();
    let inner = render_textline(&c.line, reps);
    r.append(inner.as_str());
    r.append("</div>");
    proof {
        assert(r@ =~= centered_html(*c, pairs_view(reps@)));
    }
    r
}

fn render_checkbox(c: &Checkbox) -> (r: String)
    ensures
        r@ == checkbox_html(*c),
{
    if c.value {
        "<input type='checkbox' checked disabled>".to_owned()
    } else {
        "<input type='checkbox'disabled>".to_owned()
    }
}

fn render_emoji(e: &Emoji) -> (r: String)
    ensures
        r@ == emoji_html(*e),
{
    let mut r = "<span class='emoji' emoji-name='".to_owned();
    let ea = encode_attribute(e.name.as_str());
    r.append(ea.as_str());
    r.append("'>");
    push_char(&mut r, e.value);
    r.append("</span>");
    proof {
        assert(r@ =~= emoji_html(*e));
    }
    r
}

fn render_metadata_value(v: &MetadataValue, reps: &Vec<(String, String)>) -> (r: String)
    ensures
        r@ == metadata_value_html(*v, pairs_view(reps@)),
    decreases v, 1int,
{
    match v {
        MetadataValue::String(s) => encode_minimal(s.as_str()),
        MetadataValue::Integer(n) => i64_to_string(*n),
        MetadataValue::Bool(b) => {
            if *b {
                "true".to_owned()
            } else {
                "false".to_owned()
            }
        },
        MetadataValue::Placeholder(p) => render_placeholder(p, reps),
        MetadataValue::Template(t) => render_template(t, reps),
    }
}

fn meta_reps_exec(data: &Vec<(String, MetadataValue)>, reps: &Vec<(String, String)>) -> (out: Vec<
    (String, String),
>)
    ensures
        pairs_view(out@) == meta_reps(data@, pairs_view(reps@)),
    decreases data@, 1int,
{
    let mut out: Vec<(String, String)> = Vec::new();
    let mut i: usize = 0;
    while i < data.len()
        invariant
            i <= data@.len(),
            pairs_view(out@) =~= meta_reps(data@.subrange(0, i as int), pairs_view(reps@)),
        decreases data@.len() - i,
    {
        let v = render_metadata_value(&data[i].1, reps);
        out.push((data[i].0.clone(), v));
        proof {
            assert(data@.subrange(0, i + 1).drop_last() =~= data@.subrange(0, i as int));
            assert(data@.subrange(0, i + 1).last() == data@[i as int]);
            assert(pairs_view(out@) =~= meta_reps(data@.subrange(0, i + 1), pairs_view(reps@)));
        }
        i = i + 1;
    }
    proof {
        assert(data@.subrange(0, data@.len() as int) =~= data@);
    }
    out
}

fn render_meta_list(data: &Vec<(String, MetadataValue)>, reps: &Vec<(String, String)>) -> (r:
    String)
    ensures
        r@ == meta_list_html(data@, pairs_view(reps@)),
    decreases data@, 1int,
{
    let mut r = String::new();
    let mut i: usize = 0;
    while i < data.len()
        invariant
            i <= data@.len(),
            r@ =~= meta_list_html(data@.subrange(0, i as int), pairs_view(reps@)),
        decreases data@.len() - i,
    {
        r.append(" ");
        r.append(data[i].0.as_str());
        r.append("=");
        let v = render_metadata_value(&data[i].1, reps);
        r.append(v.as_str());
        r.append(",");
        proof {
            assert(data@.subrange(0, i + 1).drop_last() =~= data@.subrange(0, i as int));
            assert(data@.subrange(0, i + 1).last() == data@[i as int]);
            assert(r@ =~= meta_list_html(data@.subrange(0, i + 1), pairs_view(reps@)));
        }
        i = i + 1;
    }
    proof {
        assert(data@.subrange(0, data@.len() as int) =~= data@);
    }
    r
}

fn render_inline_metadata(m: &InlineMetadata, reps: &Vec<(String, String)>) -> (r: String)
    ensures
        r@ == inline_metadata_html(*m, pairs_view(reps@)),
    decreases m, 1int,
{
    let dkey = "display".to_owned();
    let di = meta_find_exec(&m.data, &dkey);
    if di < m.data.len() {
        let is_string = match &m.data[di].1 {
            MetadataValue::String(_) => true,
            _ => false,
        };
        if is_string {
            match &m.data[di].1 {
                MetadataValue::String(f) => {
                    let table = meta_reps_exec(&m.data, reps);
                    return subst_string(f, &table);
                },
                _ => {},
            }
        }
    }
    render_meta_list(&m.data, reps)
}

fn render_bib_reference(b: &BibReference) -> (r: String)
    ensures
        r@ == bib_reference_html(*b),
{
    let mut r = "<sup><a href='#".to_owned();
    r.append(b.key.as_str());
    r.append("'>");
    match b.index {
        Some(i) => {
            r.append("[");
            let num = u64_to_string(i as u64);
            r.append(num.as_str());
            r.append("]");
        },
        None => {},
    }
    r.append("</a></sup>");
    proof {
        assert(r@ =~= bib_reference_html(*b));
    }
    r
}

fn render_bib_entry(b: &BibEntry, reps: &Vec<(String, String)>) -> (r: String)
    ensures
        r@ == bib_entry_html(*b, pairs_view(reps@)),
    decreases b, 1int,
{
    if !b.visible {
        return String::new();
    }
    match &b.display {
        Some(Value::Template(t)) => {
            let r = render_elements(&t.text, &b.fields);
            proof {
                assert(r@ =~= bib_entry_html(*b, pairs_view(reps@)));
            }
            r
        },
        Some(Value::String(f)) => {
            let sub = subst_string(f, &b.fields);
            let em = encode_minimal(sub.as_str());
            let ea = encode_attribute(b.key.as_str());
            let mut r = "<span id='".to_owned();
            r.append(ea.as_str());
            r.append("'>");
            r.append(em.as_str());
            r.append("</span>");
            proof {
                assert(r@ =~= bib_entry_html(*b, pairs_view(reps@)));
            }
            r
        },
        None => {
            match &b.url {
                Some(u) => {
                    let ek = encode_minimal(b.key.as_str());
                    let ea = encode_attribute(u.as_str());
                    let mut r = "<a id=".to_owned();
                    r.append(ek.as_str());
                    r.append(" href='");
                    r.append(ea.as_str());
                    r.append("'>");
                    r.append(ek.as_str());
                    r.append("</a>");
                    proof {
                        assert(r@ =~= bib_entry_html(*b, pairs_view(reps@)));
                    }
                    r
                },
                None => {
                    let ea = encode_attribute(b.key.as_str());
                    let mut r = "<span id='".to_owned();
                    r.append(ea.as_str());
                    r.append("'><u>");
                    r.append(ea.as_str());
                    r.append("</u></span>");
                    proof {
                        assert(r@ =~= bib_entry_html(*b, pairs_view(reps@)));
                    }
                    r
                },
            }
        },
    }
}

fn render_template(t: &Template, reps: &Vec<(String, String)>) -> (r: String)
    ensures
        r@ == template_html(*t, pairs_view(reps@)),
    decreases t, 1int,
{
    render_elements(&t.text, reps)
}

fn render_template_variable(t: &TemplateVariable, reps: &Vec<(String, String)>) -> (r: String)
    ensures
        r@ == template_variable_html(*t, pairs_view(reps@)),
    decreases t, 1int,
{
    match &t.value {
        Some(e) => {
            let mut r = encode_minimal(t.prefix.as_str());
            let inner = render_element(e, reps);
            r.append(inner.as_str());
            let es = encode_minimal(t.suffix.as_str());
            r.append(es.as_str());
            proof {
                assert(r@ =~= template_variable_html(*t, pairs_view(reps@)));
            }
            r
        },
        None => {
            match lookup_rep_exec(reps, &t.name) {
                Some(v) => {
                    let mut r = encode_minimal(t.prefix.as_str());
                    let ev = encode_minimal(v.as_str());
                    r.append(ev.as_str());
                    let es = encode_minimal(t.suffix.as_str());
                    r.append(es.as_str());
                    proof {
                        assert(r@ =~= template_variable_html(*t, pairs_view(reps@)));
                    }
                    r
                },
                None => String::new(),
            }
        },
    }
}

/// Serialization to HTML. `html` is the functional model of the output;
/// `to_html` returns exactly that text, so rendering a frozen tree is
/// deterministic.
pub trait ToHtml {
    spec fn html(&self) -> Seq<char>;

    fn to_html(&self) -> (r: String)
        ensures
            r@ == self.html(),
    ;
}

pub open spec fn no_reps() -> Seq<(Seq<char>, Seq<char>)> {
    Seq::empty()
}

fn empty_reps() -> (v: Vec<(String, String)>)
    ensures
        pairs_view(v@) == no_reps(),
{
    let v: Vec<(String, String)> = Vec::new();
    proof {
        assert(pairs_view(v@) =~= no_reps());
    }
    v
}

impl ToHtml for Element {
    open spec fn html(&self) -> Seq<char> {
        element_html(*self, no_reps())
    }

    fn to_html(&self) -> (r: String) {
        let reps = empty_reps();
        render_element(self, &reps)
    }
}

impl ToHtml for Block {
    open spec fn html(&self) -> Seq<char> {
        block_html(*self, no_reps())
    }

    fn to_html(&self) -> (r: String) {
        let reps = empty_reps();
        render_block(self, &reps)
    }
}

impl ToHtml for Line {
    open spec fn html(&self) -> Seq<char> {
        line_html(*self, no_reps())
    }

    fn to_html(&self) -> (r: String) {
        let reps = empty_reps();
        render_line(self, &reps)
    }
}

impl ToHtml for Inline {
    open spec fn html(&self) -> Seq<char> {
        inline_html(*self, no_reps())
    }

    fn to_html(&self) -> (r: String) {
        let reps = empty_reps();
        render_inline(self, &reps)
    }
}

impl ToHtml for MetadataValue {
    open spec fn html(&self) -> Seq<char> {
        metadata_value_html(*self, no_reps())
    }

    fn to_html(&self) -> (r: String) {
        let reps = empty_reps();
        render_metadata_value(self, &reps)
    }
}

impl ToHtml for Document {
    open spec fn html(&self) -> Seq<char> {
        document_html(*self, no_reps())
    }

    fn to_html(&self) -> (r: String) {
        let reps = empty_reps();
        render_document(self, &reps)
    }
}

impl ToHtml for Import {
    open spec fn html(&self) -> Seq<char> {
        import_html(*self, no_reps())
    }

    fn to_html(&self) -> (r: String) {
        let reps = empty_reps();
        render_import(self, &reps)
    }
}

impl ToHtml for Section {
    open spec fn html(&self) -> Seq<char> {
        section_html(*self, no_reps())
    }

    fn to_html(&self) -> (r: String) {
        let reps = empty_reps();
        render_section(self, &reps)
    }
}

impl ToHtml for Header {
    open spec fn html(&self) -> Seq<char> {
        header_html(*self, no_reps())
    }

    fn to_html(&self) -> (r: String) {
        let reps = empty_reps();
        render_header(self, &reps)
    }
}

impl ToHtml for Paragraph {
    open spec fn html(&self) -> Seq<char> {
        paragraph_html(*self, no_reps())
    }

    fn to_html(&self) -> (r: String) {
        let reps = empty_reps();
        render_paragraph(self, &reps)
    }
}

impl ToHtml for List {
    open spec fn html(&self) -> Seq<char> {
        list_html(*self, no_reps())
    }

    fn to_html(&self) -> (r: String) {
        let reps = empty_reps();
        render_list(self, &reps)
    }
}

impl ToHtml for ListItem {
    open spec fn html(&self) -> Seq<char> {
        list_item_html(*self, no_reps())
    }

    fn to_html(&self) -> (r: String) {
        let reps = empty_reps();
        render_list_item(self, &reps)
    }
}

impl ToHtml for Table {
    open spec fn html(&self) -> Seq<char> {
        table_html(*self, no_reps())
    }

    fn to_html(&self) -> (r: String) {
        let reps = empty_reps();
        render_table(self, &reps)
    }
}

impl ToHtml for Row {
    open spec fn html(&self) -> Seq<char> {
        row_html(*self, no_reps())
    }

    fn to_html(&self) -> (r: String) {
        let reps = empty_reps();
        render_row(self, &reps)
    }
}

impl ToHtml for Cell {
    open spec fn html(&self) -> Seq<char> {
        cell_html(*self, no_reps())
    }

    fn to_html(&self) -> (r: String) {
        let reps = empty_reps();
        render_cell(self, &reps)
    }
}

impl ToHtml for CodeBlock {
    open spec fn html(&self) -> Seq<char> {
        code_block_html(*self)
    }

    fn to_html(&self) -> (r: String) {
        render_code_block(self)
    }
}

impl ToHtml for Quote {
    open spec fn html(&self) -> Seq<char> {
        quote_html(*self, no_reps())
    }

    fn to_html(&self) -> (r: String) {
        let reps = empty_reps();
        render_quote(self, &reps)
    }
}

impl ToHtml for Ruler {
    open spec fn html(&self) -> Seq<char> {
        ruler_html(*self)
    }

    fn to_html(&self) -> (r: String) {
        render_ruler(self)
    }
}

impl ToHtml for TextLine {
    open spec fn html(&self) -> Seq<char> {
        textline_html(*self, no_reps())
    }

    fn to_html(&self) -> (r: String) {
        let reps = empty_reps();
        render_textline(self, &reps)
    }
}

impl ToHtml for Image {
    open spec fn html(&self) -> Seq<char> {
        image_html(*self, no_reps())
    }

    fn to_html(&self) -> (r: String) {
        let reps = empty_reps();
        render_image(self, &reps)
    }
}

impl ToHtml for BoldText {
    open spec fn html(&self) -> Seq<char> {
        "<b>"@ + inline_html(*self.value, no_reps()) + "</b>"@
    }

    fn to_html(&self) -> (r: String) {
        let reps = empty_reps();
        let mut r = "<b>".to_owned();
        let inner = render_inline(&self.value, &reps);
        r.append(inner.as_str());
        r.append("</b>");
        r
    }
}

impl ToHtml for UnderlinedText {
    open spec fn html(&self) -> Seq<char> {
        "<u>"@ + inline_html(*self.value, no_reps()) + "</u>"@
    }

    fn to_html(&self) -> (r: String) {
        let reps = empty_reps();
        let mut r = "<u>".to_owned();
        let inner = render_inline(&self.value, &reps);
        r.append(inner.as_str());
        r.append("</u>");
        r
    }
}

impl ToHtml for ItalicText {
    open spec fn html(&self) -> Seq<char> {
        "<i>"@ + inline_html(*self.value, no_reps()) + "</i>"@
    }

    fn to_html(&self) -> (r: String) {
        let reps = empty_reps();
        let mut r = "<i>".to_owned();
        let inner = render_inline(&self.value, &reps);
        r.append(inner.as_str());
        r.append("</i>");
        r
    }
}

impl ToHtml for StrikedText {
    open spec fn html(&self) -> Seq<char> {
        "<del>"@ + inline_html(*self.value, no_reps()) + "</del>"@
    }

    fn to_html(&self) -> (r: String) {
        let reps = empty_reps();
        let mut r = "<del>".to_owned();
        let inner = render_inline(&self.value, &reps);
        r.append(inner.as_str());
        r.append("</del>");
        r
    }
}

impl ToHtml for SuperscriptText {
    open spec fn html(&self) -> Seq<char> {
        "<sup>"@ + inline_html(*self.value, no_reps()) + "</sup>"@
    }

    fn to_html(&self) -> (r: String) {
        let reps = empty_reps();
        let mut r = "<sup>".to_owned();
        let inner = render_inline(&self.value, &reps);
        r.append(inner.as_str());
        r.append("</sup>");
        r
    }
}

impl ToHtml for MonospaceText {
    open spec fn html(&self) -> Seq<char> {
        monospace_html(*self)
    }

    fn to_html(&self) -> (r: String) {
        render_monospace(self)
    }
}

impl ToHtml for Url {
    open spec fn html(&self) -> Seq<char> {
        url_html(*self)
    }

    fn to_html(&self) -> (r: String) {
        render_url(self)
    }
}

impl ToHtml for PlainText {
    open spec fn html(&self) -> Seq<char> {
        plain_html(*self)
    }

    fn to_html(&self) -> (r: String) {
        render_plain(self)
    }
}

impl ToHtml for Placeholder {
    open spec fn html(&self) -> Seq<char> {
        placeholder_html(*self, no_reps())
    }

    fn to_html(&self) -> (r: String) {
        let reps = empty_reps();
        render_placeholder(self, &reps)
    }
}

impl ToHtml for Anchor {
    open spec fn html(&self) -> Seq<char> {
        anchor_html(*self, no_reps())
    }

    fn to_html(&self) -> (r: String) {
        let reps = empty_reps();
        render_anchor(self, &reps)
    }
}

impl ToHtml for InlineMetadata {
    open spec fn html(&self) -> Seq<char> {
        inline_metadata_html(*self, no_reps())
    }

    fn to_html(&self) -> (r: String) {
        let reps = empty_reps();
        render_inline_metadata(self, &reps)
    }
}

impl ToHtml for Centered {
    open spec fn html(&self) -> Seq<char> {
        centered_html(*self, no_reps())
    }

    fn to_html(&self) -> (r: String) {
        let reps = empty_reps();
        render_centered(self, &reps)
    }
}

impl ToHtml for Checkbox {
    open spec fn html(&self) -> Seq<char> {
        checkbox_html(*self)
    }

    fn to_html(&self) -> (r: String) {
        render_checkbox(self)
    }
}

impl ToHtml for Emoji {
    open spec fn html(&self) -> Seq<char> {
        emoji_html(*self)
    }

    fn to_html(&self) -> (r: String) {
        render_emoji(self)
    }
}

impl ToHtml for Colored {
    open spec fn html(&self) -> Seq<char> {
        "<span class='colored' style='color:"@ + encode_attr(self.color@) + ";'>"@ + inline_html(
            *self.value,
            no_reps(),
        ) + "</span>"@
    }

    fn to_html(&self) -> (r: String) {
        let reps = empty_reps();
        let mut r = "<span class='colored' style='color:".to_owned();
        let ea = encode_attribute(self.color.as_str());
        r.append(ea.as_str());
        r.append(";'>");
        let inner = render_inline(&self.value, &reps);
        r.append(inner.as_str());
        r.append("</span>");
        r
    }
}

impl ToHtml for BibReference {
    open spec fn html(&self) -> Seq<char> {
        bib_reference_html(*self)
    }

    fn to_html(&self) -> (r: String) {
        render_bib_reference(self)
    }
}

impl ToHtml for BibEntry {
    open spec fn html(&self) -> Seq<char> {
        bib_entry_html(*self, no_reps())
    }

    fn to_html(&self) -> (r: String) {
        let reps = empty_reps();
        render_bib_entry(self, &reps)
    }
}

impl ToHtml for Template {
    open spec fn html(&self) -> Seq<char> {
        template_html(*self, no_reps())
    }

    fn to_html(&self) -> (r: String) {
        let reps = empty_reps();
        render_template(self, &reps)
    }
}

impl ToHtml for TemplateVariable {
    open spec fn html(&self) -> Seq<char> {
        template_variable_html(*self, no_reps())
    }

    fn to_html(&self) -> (r: String) {
        let reps = empty_reps();
        render_template_variable(self, &reps)
    }
}

} // verus!
