//! The typed document tree: blocks, lines and inlines, plus the late-bound
//! nodes (import anchors, placeholders, bibliography entries and references,
//! template variables) and their well-formedness conditions.
//!
//! Late-bound nodes are owned by the tree; an import anchor starts out
//! pending and is published once, after parsing, by `Document::publish_all`.

use vstd::prelude::*;

verus! {

/// The top-level sum of everything that can stand in a document.
pub enum Element {
    Block(Box<Block>),
    Line(Box<Line>),
    Inline(Box<Inline>),
}

/// A block-level construct.
pub enum Block {
    Paragraph(Paragraph),
    List(List),
    Table(Table),
    CodeBlock(CodeBlock),
    Quote(Quote),
    Section(Section),
    Import(Import),
    Placeholder(Placeholder),
}

/// A single line of a paragraph or other line-oriented context.
pub enum Line {
    Text(TextLine),
    Ruler(Ruler),
    Anchor(Anchor),
    Centered(Centered),
    BibEntry(BibEntry),
}

/// An inline (sub-line) construct.
pub enum Inline {
    Plain(PlainText),
    Bold(BoldText),
    Italic(ItalicText),
    Underlined(UnderlinedText),
    Striked(StrikedText),
    Superscript(SuperscriptText),
    Monospace(MonospaceText),
    Url(Url),
    Image(Image),
    Checkbox(Checkbox),
    Emoji(Emoji),
    Colored(Colored),
    Placeholder(Placeholder),
    BibReference(BibReference),
    TemplateVar(TemplateVariable),
}

/// A whole document. A root document renders as a complete HTML page with
/// the embedded style; a non-root document renders as an embeddable
/// fragment.
pub struct Document {
    pub elements: Vec<Block>,
    pub is_root: bool,
    pub path: Option<String>,
    /// Raw style sheet embedded (minified) into a root document's output.
    pub style: String,
}

/// A section: a header plus the blocks nested under it.
pub struct Section {
    pub header: Header,
    pub elements: Vec<Block>,
    pub metadata: Option<InlineMetadata>,
}

pub struct Header {
    pub size: u8,
    pub anchor: String,
    pub line: Line,
}

pub struct Paragraph {
    pub elements: Vec<Line>,
}

pub struct List {
    pub ordered: bool,
    pub items: Vec<ListItem>,
}

pub struct ListItem {
    pub text: Line,
    pub level: u16,
    pub ordered: bool,
    pub children: Vec<ListItem>,
}

pub struct Table {
    pub header: Row,
    pub rows: Vec<Row>,
}

pub struct Row {
    pub cells: Vec<Cell>,
}

pub struct Cell {
    pub text: Line,
}

pub struct CodeBlock {
    pub language: String,
    pub code: String,
}

pub struct Quote {
    pub metadata: Option<InlineMetadata>,
    pub text: Vec<TextLine>,
}

/// An import of another document. The anchor is pending until the target
/// has been parsed (or the import has been declared failed).
pub struct Import {
    pub path: String,
    pub anchor: ImportAnchor,
}

/// The slot that receives an imported document. `published` is set exactly
/// once, whether the import succeeded (`document` set) or failed.
pub struct ImportAnchor {
    pub document: Option<Document>,
    pub published: bool,
}

pub struct TextLine {
    pub subtext: Vec<Inline>,
}

pub struct Ruler {}

pub struct Anchor {
    pub description: Box<Line>,
    pub reference: String,
}

pub struct Centered {
    pub line: TextLine,
}

pub struct PlainText {
    pub value: String,
}

pub struct BoldText {
    pub value: Box<Inline>,
}

pub struct ItalicText {
    pub value: Box<Inline>,
}

pub struct UnderlinedText {
    pub value: Box<Inline>,
}

pub struct StrikedText {
    pub value: Box<Inline>,
}

pub struct SuperscriptText {
    pub value: Box<Inline>,
}

pub struct MonospaceText {
    pub value: String,
}

pub struct Url {
    pub url: String,
    pub description: Option<String>,
}

pub struct Image {
    pub url: Url,
    pub metadata: Option<InlineMetadata>,
}

pub struct Checkbox {
    pub value: bool,
}

pub struct Emoji {
    pub name: String,
    pub value: char,
}

pub struct Colored {
    pub color: String,
    pub value: Box<Inline>,
}

/// A named hole in the document, resolved during post-processing.
/// An unresolved placeholder renders as a diagnostic message.
pub struct Placeholder {
    pub name: String,
    pub value: Option<Box<Element>>,
}

/// A bibliography citation; linked to the entry of the same key during
/// post-processing, receiving an index in first-use order.
pub struct BibReference {
    pub key: String,
    pub index: Option<u32>,
}

/// A bibliography definition.
pub struct BibEntry {
    pub key: String,
    pub fields: Vec<(String, String)>,
    pub display: Option<Value>,
    pub url: Option<String>,
    pub visible: bool,
}

/// A configuration value, as far as the tree needs to see it.
pub enum Value {
    String(String),
    Template(Template),
}

/// A reusable fragment with named variables, rendered by substitution.
pub struct Template {
    pub text: Vec<Element>,
}

/// A variable inside a template; bound at render time.
pub struct TemplateVariable {
    pub name: String,
    pub prefix: String,
    pub suffix: String,
    pub value: Option<Box<Element>>,
}

/// A key/value map attached to certain blocks and images; insertion order
/// is kept because the default rendering lists the entries in order.
pub struct InlineMetadata {
    pub data: Vec<(String, MetadataValue)>,
}

pub enum MetadataValue {
    String(String),
    Integer(i64),
    Bool(bool),
    Placeholder(Placeholder),
    Template(Template),
}

impl Document {
    /// A fresh, empty document.
    pub fn new(is_root: bool) -> (d: Document)
        ensures
            d.elements@ =~= Seq::<Block>::empty(),
            d.is_root == is_root,
            d.path is None,
            d.style@ =~= Seq::<char>::empty(),
    {
        Document { elements: Vec::new(), is_root, path: None, style: String::new() }
    }

    pub fn add_element(&mut self, block: Block)
        ensures
            final(self).elements@ == old(self).elements@.push(block),
            final(self).is_root == old(self).is_root,
            final(self).path == old(self).path,
            final(self).style == old(self).style,
    {
        self.elements.push(block);
    }
}

impl Section {
    pub fn new(header: Header) -> (s: Section)
        ensures
            s.header == header,
            s.elements@ =~= Seq::<Block>::empty(),
            s.metadata is None,
    {
        Section { header, elements: Vec::new(), metadata: None }
    }

    pub fn add_element(&mut self, block: Block)
        ensures
            final(self).elements@ == old(self).elements@.push(block),
            final(self).header == old(self).header,
            final(self).metadata == old(self).metadata,
    {
        self.elements.push(block);
    }
}

impl Paragraph {
    pub fn new() -> (p: Paragraph)
        ensures
            p.elements@ =~= Seq::<Line>::empty(),
    {
        Paragraph { elements: Vec::new() }
    }

    pub fn add_element(&mut self, line: Line)
        ensures
            final(self).elements@ == old(self).elements@.push(line),
    {
        self.elements.push(line);
    }
}

impl List {
    pub fn new() -> (l: List)
        ensures
            l.items@ =~= Seq::<ListItem>::empty(),
            l.ordered == false,
    {
        List { ordered: false, items: Vec::new() }
    }

    pub fn add_item(&mut self, item: ListItem)
        ensures
            final(self).items@ == old(self).items@.push(item),
            final(self).ordered == old(self).ordered,
    {
        self.items.push(item);
    }
}

impl ListItem {
    pub fn new(text: Line, level: u16, ordered: bool) -> (it: ListItem)
        ensures
            it.text == text,
            it.level == level,
            it.ordered == ordered,
            it.children@ =~= Seq::<ListItem>::empty(),
    {
        ListItem { text, level, ordered, children: Vec::new() }
    }

    pub fn add_child(&mut self, child: ListItem)
        ensures
            final(self).children@ == old(self).children@.push(child),
            final(self).text == old(self).text,
            final(self).level == old(self).level,
            final(self).ordered == old(self).ordered,
    {
        self.children.push(child);
    }
}

impl Table {
    pub fn new(header: Row) -> (t: Table)
        ensures
            t.header == header,
            t.rows@ =~= Seq::<Row>::empty(),
    {
        Table { header, rows: Vec::new() }
    }

    pub fn add_row(&mut self, row: Row)
        ensures
            final(self).rows@ == old(self).rows@.push(row),
            final(self).header == old(self).header,
    {
        self.rows.push(row);
    }
}

impl Row {
    pub fn new() -> (r: Row)
        ensures
            r.cells@ =~= Seq::<Cell>::empty(),
    {
        Row { cells: Vec::new() }
    }

    pub fn add_cell(&mut self, cell: Cell)
        ensures
            final(self).cells@ == old(self).cells@.push(cell),
    {
        self.cells.push(cell);
    }
}

impl Quote {
    pub fn new(metadata: Option<InlineMetadata>) -> (q: Quote)
        ensures
            q.metadata == metadata,
            q.text@ =~= Seq::<TextLine>::empty(),
    {
        Quote { metadata, text: Vec::new() }
    }

    pub fn add_text(&mut self, line: TextLine)
        ensures
            final(self).text@ == old(self).text@.push(line),
            final(self).metadata == old(self).metadata,
    {
        self.text.push(line);
    }
}

impl TextLine {
    pub fn new() -> (t: TextLine)
        ensures
            t.subtext@ =~= Seq::<Inline>::empty(),
    {
        TextLine { subtext: Vec::new() }
    }

    pub fn add_subtext(&mut self, inline: Inline)
        ensures
            final(self).subtext@ == old(self).subtext@.push(inline),
    {
        self.subtext.push(inline);
    }
}

impl ImportAnchor {
    /// A pending anchor: nothing published yet.
    pub fn new() -> (a: ImportAnchor)
        ensures
            a.document is None,
            !a.published,
    {
        ImportAnchor { document: None, published: false }
    }
}

/// Does a block respect the section size of its enclosing section?
/// (A non-section block always does.)
pub open spec fn block_deeper_than(b: Block, size: int) -> bool {
    match b {
        Block::Section(s) => s.header.size as int > size,
        _ => true,
    }
}

/// Well-formedness of a list item: every child sits strictly deeper
/// than its parent.
pub open spec fn list_item_wf(it: ListItem) -> bool
    decreases it,
{
    forall|i: int|
        0 <= i < it.children@.len() ==> (list_item_wf(#[trigger] it.children@[i])
            && it.children@[i].level > it.level)
}

pub open spec fn list_wf(l: List) -> bool {
    forall|i: int| 0 <= i < l.items@.len() ==> list_item_wf(#[trigger] l.items@[i])
}

/// Well-formedness of a block: section sizes strictly increase along every
/// path of nested sections, and all lists keep their level hierarchy.
pub open spec fn block_wf(b: Block) -> bool
    decreases b,
{
    match b {
        Block::Section(s) => {
            &&& s.header.size >= 1
            &&& forall|i: int|
                0 <= i < s.elements@.len() ==> (block_wf(#[trigger] s.elements@[i])
                    && block_deeper_than(s.elements@[i], s.header.size as int))
        },
        Block::List(l) => list_wf(l),
        _ => true,
    }
}

/// Well-formedness of a whole parsed document.
pub open spec fn doc_wf(d: Document) -> bool {
    forall|i: int| 0 <= i < d.elements@.len() ==> block_wf(#[trigger] d.elements@[i])
}

} // verus!
