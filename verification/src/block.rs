//! Block productions: sections, lists, tables, code blocks, quotes,
//! imports, placeholders and paragraphs, tried in a fixed priority order.
//!
//! Every production is a transaction: failure restores the cursor. A
//! successful block is well-formed: section sizes strictly increase along
//! nested sections, and list items nest strictly by level. A section whose
//! header is not deeper than the enclosing one records the target size in
//! `section_return`, which unwinds the enclosing sections one by one.

use vstd::prelude::*;
use vstd::multiset::Multiset;
use vstd::seq_lib::lemma_multiset_commutative;
use crate::elements::{
    block_deeper_than, block_wf, Block, CodeBlock, Header, Import, ImportAnchor, Line, List,
    ListItem, list_item_wf, list_wf, Paragraph, Quote, Section, Table,
};
use crate::numfmt::push_char;
use crate::inline::{leading_plain, opener_at, placeholder_at, placeholder_name, plain_line_start};
use crate::parser::{
    first_non_inline_ws, first_non_ws, is_ws, scan_stop, scan_stop_seq, seq_matches, special_at,
    special_group_at, ParseError, Parser,
};

verus! {

/// The import paths a block contributes, in order of appearance.
pub open spec fn block_import_paths(b: Block) -> Seq<String> {
    match b {
        Block::Import(im) => seq![im.path],
        _ => Seq::<String>::empty(),
    }
}

/// The import paths of a sequence of blocks, in order.
pub open spec fn blocks_import_paths(s: Seq<Block>) -> Seq<String>
    decreases s,
{
    if s.len() == 0 {
        Seq::<String>::empty()
    } else {
        blocks_import_paths(s.drop_last()) + block_import_paths(s.last())
    }
}

/// The number of consecutive unescaped `#` characters at `i`.
pub open spec fn hash_run(t: Seq<char>, i: int) -> nat
    decreases t.len() - i,
{
    if special_at(t, i, '#') {
        (1 + hash_run(t, i + 1)) as nat
    } else {
        0
    }
}

/// A run of `#` characters seen one by one is the whole run.
proof fn lemma_hash_run(t: Seq<char>, i: int, m: int)
    requires
        0 <= m,
        forall|k: int| 0 <= k < m ==> #[trigger] special_at(t, i + k, '#'),
        !special_at(t, i + m, '#'),
    ensures
        hash_run(t, i) == m,
    decreases m,
{
    if m > 0 {
        assert(special_at(t, i + 0, '#'));
        assert forall|k: int| 0 <= k < m - 1 implies #[trigger] special_at(t, i + 1 + k, '#') by {
            assert(special_at(t, i + (k + 1), '#'));
        }
        assert(!special_at(t, (i + 1) + (m - 1), '#'));
        lemma_hash_run(t, i + 1, m - 1);
    }
}

/// A header's size: the run of `#` characters, capped at 255.
pub open spec fn header_size_at(t: Seq<char>, w: int) -> nat {
    if hash_run(t, w) <= 255 {
        hash_run(t, w)
    } else {
        255
    }
}

/// Where a code block's language token ends: at the linebreak after the
/// opening fence.
pub open spec fn code_lang_end(t: Seq<char>, w: int) -> int {
    scan_stop(t, w + 3, seq!['\n'], Seq::<char>::empty())
}

/// Where a code block's body begins: past that linebreak.
pub open spec fn code_body_start(t: Seq<char>, w: int) -> int {
    if code_lang_end(t, w) < t.len() {
        code_lang_end(t, w) + 1
    } else {
        code_lang_end(t, w)
    }
}

/// Where a code block's body ends: at the closing fence (or the end of the
/// input).
pub open spec fn code_body_end(t: Seq<char>, w: int) -> int {
    scan_stop_seq(t, code_body_start(t, w), seq![seq!['`', '`', '`']], Seq::<char>::empty())
}

/// A sequence without its final linebreak, if it ends in one.
pub open spec fn without_final_lb(s: Seq<char>) -> Seq<char> {
    if s.len() > 0 && s.last() == '\n' {
        s.drop_last()
    } else {
        s
    }
}

/// Is a code block, with the given opening fence position, delimited as
/// the source says?
pub open spec fn code_block_from(t: Seq<char>, w: int, c: CodeBlock) -> bool {
    &&& seq_matches(t, w, seq!['`', '`', '`'])
    &&& c.language@ == t.subrange(w + 3, code_lang_end(t, w))
    &&& c.code@ == without_final_lb(t.subrange(code_body_start(t, w), code_body_end(t, w)))
}

/// Where an import's path ends: at the closing bracket.
pub open spec fn import_path_end(t: Seq<char>, w: int) -> int {
    scan_stop(t, w + 3, seq![']'], seq!['\n'])
}

/// Does `<![path]>` with a nonempty, linebreak-free path stand at `w`?
pub open spec fn import_syntax_at(t: Seq<char>, w: int) -> bool {
    &&& seq_matches(t, w, seq!['<', '!', '['])
    &&& special_at(t, import_path_end(t, w), ']')
    &&& special_at(t, import_path_end(t, w) + 1, '>')
    &&& import_path_end(t, w) > w + 3
}

/// Is this import block the one delimited at `w`?
pub open spec fn import_from(t: Seq<char>, w: int, im: Import) -> bool {
    import_syntax_at(t, w) && im.path@ == t.subrange(w + 3, import_path_end(t, w))
}

/// Does a paragraph's first line carry exactly the plain text at `w`?
pub open spec fn paragraph_from(t: Seq<char>, w: int, p: Paragraph) -> bool {
    &&& p.elements@.len() > 0
    &&& p.elements@[0] is Text
    &&& p.elements@[0]->Text_0.subtext@.len() > 0
    &&& p.elements@[0]->Text_0.subtext@[0] is Plain
    &&& p.elements@[0]->Text_0.subtext@[0]->Plain_0.value@ == leading_plain(t, w)
}

/// A position where no block construct opens: not whitespace, no inline
/// opener, and none of the block openers (header hash, bullet or digit,
/// quote mark, import bracket, dash). Such a position starts a paragraph.
pub open spec fn plain_block_start(t: Seq<char>, i: int) -> bool {
    &&& 0 <= i < t.len()
    &&& !is_ws(t[i])
    &&& !opener_at(t, i)
    &&& !special_at(t, i, '#')
    &&& !special_group_at(t, i, seq!['-', '*', '+'])
    &&& !special_group_at(t, i, seq!['0', '1', '2', '3', '4', '5', '6', '7', '8', '9'])
    &&& !special_at(t, i, '>')
    &&& !special_at(t, i, '<')
    &&& t[i] != '-'
}

/// Is this section the one opened at `w`: the capped hash-run size, and
/// the header line carrying the text after the hashes?
pub open spec fn section_from(t: Seq<char>, w: int, s: Section) -> bool {
    &&& s.header.size as nat == header_size_at(t, w)
    &&& s.header.line is Text
    &&& s.header.line->Text_0.subtext@.len() > 0
    &&& s.header.line->Text_0.subtext@[0] is Plain
    &&& s.header.line->Text_0.subtext@[0]->Plain_0.value@ == leading_plain(
        t,
        first_non_inline_ws(t, w + hash_run(t, w)),
    )
}

/// Does some block construct open at position `i` (after whitespace where
/// the construct seeks it)?
pub open spec fn first_block_owed(t: Seq<char>, i: int, nesting: u8) -> bool {
    ||| section_owed(t, first_non_ws(t, i), nesting)
    ||| item_owed(t, first_non_ws(t, i))
    ||| row_owed(t, first_non_inline_ws(t, i))
    ||| seq_matches(t, first_non_ws(t, i), seq!['`', '`', '`'])
    ||| quote_owed(t, first_non_ws(t, i))
    ||| (import_syntax_at(t, first_non_ws(t, i)) && nesting == 0)
    ||| placeholder_at(t, i)
    ||| plain_block_start(t, i)
}

/// Which block the construct opening at `i` yields, with its delimited
/// contents where the productions fix them.
pub open spec fn first_block_shape(t: Seq<char>, i: int, nesting: u8, b: Block) -> bool {
    &&& (section_owed(t, first_non_ws(t, i), nesting) ==> b is Section && section_from(
        t,
        first_non_ws(t, i),
        b->Section_0,
    ))
    &&& (item_owed(t, first_non_ws(t, i)) ==> b is List)
    &&& (row_owed(t, first_non_inline_ws(t, i)) ==> b is Table)
    &&& (seq_matches(t, first_non_ws(t, i), seq!['`', '`', '`']) ==> b is CodeBlock
        && code_block_from(t, first_non_ws(t, i), b->CodeBlock_0))
    &&& (quote_owed(t, first_non_ws(t, i)) ==> b is Quote)
    &&& (import_syntax_at(t, first_non_ws(t, i)) && nesting == 0 ==> b is Import && import_from(
        t,
        first_non_ws(t, i),
        b->Import_0,
    ))
    &&& (placeholder_at(t, i) ==> b is Placeholder && b->Placeholder_0.name@ == placeholder_name(
        t,
        i,
    ))
    &&& (plain_block_start(t, i) ==> b is Paragraph && paragraph_from(t, i, b->Paragraph_0))
}

/// A quote line is owed: `>`, inline whitespace, then plain text.
pub open spec fn quote_owed(t: Seq<char>, w: int) -> bool {
    &&& special_at(t, w, '>')
    &&& first_non_inline_ws(t, w + 1) > w + 1
    &&& plain_line_start(t, first_non_inline_ws(t, w + 1))
}

/// A row is owed: `|` with a plain-text cell after it.
pub open spec fn row_owed(t: Seq<char>, b: int) -> bool {
    &&& special_at(t, b, '|')
    &&& b + 1 < t.len()
    &&& plain_line_start(t, first_non_inline_ws(t, b + 1))
}

/// An unordered item is owed: a bullet, whitespace, then plain text.
pub open spec fn item_owed(t: Seq<char>, b: int) -> bool {
    &&& special_group_at(t, b, seq!['-', '*', '+'])
    &&& first_non_inline_ws(t, b + 1) > b + 1
    &&& plain_line_start(t, first_non_inline_ws(t, b + 1))
}

/// A section is owed: a deeper `#` run, whitespace, then a plain header
/// line.
pub open spec fn section_owed(t: Seq<char>, w: int, nesting: u8) -> bool {
    &&& special_at(t, w, '#')
    &&& header_size_at(t, w) > nesting
    &&& w + hash_run(t, w) < t.len()
    &&& is_ws(t[w + hash_run(t, w)])
    &&& plain_line_start(t, first_non_inline_ws(t, w + hash_run(t, w)))
    &&& t[first_non_inline_ws(t, w + hash_run(t, w))] != '-'
}

/// A character that is none of the bullets is not in the bullet group.
proof fn lemma_not_in_bullets(c: char)
    requires
        c != '-',
        c != '*',
        c != '+',
    ensures
        !crate::parser::group_contains(seq!['-', '*', '+'], c),
{
    assert forall|j: int| 0 <= j < seq!['-', '*', '+'].len() implies seq!['-', '*', '+'][j]
        != c by {
        if j == 0 {
            assert(seq!['-', '*', '+'][0] == '-');
        } else if j == 1 {
            assert(seq!['-', '*', '+'][1] == '*');
        } else {
            assert(seq!['-', '*', '+'][2] == '+');
        }
    }
}

/// A character that is no digit is not in the digit group.
proof fn lemma_not_in_digits(c: char)
    requires
        c != '0',
        c != '1',
        c != '2',
        c != '3',
        c != '4',
        c != '5',
        c != '6',
        c != '7',
        c != '8',
        c != '9',
    ensures
        !crate::parser::group_contains(
            seq!['0', '1', '2', '3', '4', '5', '6', '7', '8', '9'],
            c,
        ),
{
    let digits = seq!['0', '1', '2', '3', '4', '5', '6', '7', '8', '9'];
    assert forall|j: int| 0 <= j < digits.len() implies digits[j] != c by {
        if j == 0 {
            assert(digits[0] == '0');
        } else if j == 1 {
            assert(digits[1] == '1');
        } else if j == 2 {
            assert(digits[2] == '2');
        } else if j == 3 {
            assert(digits[3] == '3');
        } else if j == 4 {
            assert(digits[4] == '4');
        } else if j == 5 {
            assert(digits[5] == '5');
        } else if j == 6 {
            assert(digits[6] == '6');
        } else if j == 7 {
            assert(digits[7] == '7');
        } else if j == 8 {
            assert(digits[8] == '8');
        } else {
            assert(digits[9] == '9');
        }
    }
}

/// At a position whose character is not special-`|`-compatible, neither a
/// row nor a list opens: the shared exclusion argument for a known opener
/// character `c` standing where the whitespace seeks stop.
proof fn lemma_excludes_list_and_row(t: Seq<char>, i: int, c: char)
    requires
        0 <= i <= t.len(),
        first_non_ws(t, i) < t.len(),
        t[first_non_ws(t, i)] == c,
        c != '-',
        c != '*',
        c != '+',
        c != '0',
        c != '1',
        c != '2',
        c != '3',
        c != '4',
        c != '5',
        c != '6',
        c != '7',
        c != '8',
        c != '9',
        c != '|',
    ensures
        !special_group_at(t, first_non_ws(t, i), seq!['-', '*', '+']),
        !special_group_at(
            t,
            first_non_ws(t, i),
            seq!['0', '1', '2', '3', '4', '5', '6', '7', '8', '9'],
        ),
        !special_at(t, first_non_inline_ws(t, i), '|'),
{
    let w = first_non_ws(t, i);
    let b = first_non_inline_ws(t, i);
    lemma_not_in_bullets(c);
    lemma_not_in_digits(c);
    crate::parser::lemma_first_non_inline_char(t, i);
    if special_at(t, b, '|') {
        assert(!is_ws(t[b]));
        crate::parser::lemma_seeks_agree(t, i);
        assert(w == b);
        assert(false);
    }
}

/// The lower-case form of an ASCII letter (other characters unchanged).
pub open spec fn lower_ascii(c: char) -> char {
    if c == 'A' {
        'a'
    } else if c == 'B' {
        'b'
    } else if c == 'C' {
        'c'
    } else if c == 'D' {
        'd'
    } else if c == 'E' {
        'e'
    } else if c == 'F' {
        'f'
    } else if c == 'G' {
        'g'
    } else if c == 'H' {
        'h'
    } else if c == 'I' {
        'i'
    } else if c == 'J' {
        'j'
    } else if c == 'K' {
        'k'
    } else if c == 'L' {
        'l'
    } else if c == 'M' {
        'm'
    } else if c == 'N' {
        'n'
    } else if c == 'O' {
        'o'
    } else if c == 'P' {
        'p'
    } else if c == 'Q' {
        'q'
    } else if c == 'R' {
        'r'
    } else if c == 'S' {
        's'
    } else if c == 'T' {
        't'
    } else if c == 'U' {
        'u'
    } else if c == 'V' {
        'v'
    } else if c == 'W' {
        'w'
    } else if c == 'X' {
        'x'
    } else if c == 'Y' {
        'y'
    } else if c == 'Z' {
        'z'
    } else {
        c
    }
}

pub open spec fn is_ascii_lower_digit(c: char) -> bool {
    ('a' as u32 <= c as u32 && c as u32 <= 'z' as u32) || ('0' as u32 <= c as u32 && c as u32
        <= '9' as u32)
}

pub open spec fn is_ascii_upper(c: char) -> bool {
    'A' as u32 <= c as u32 && c as u32 <= 'Z' as u32
}

/// What one header character contributes to the anchor: letters lowered,
/// digits kept, spaces dashed, everything else dropped.
pub open spec fn anchor_char(c: char) -> Seq<char> {
    if is_ascii_lower_digit(c) {
        seq![c]
    } else if is_ascii_upper(c) {
        seq![lower_ascii(c)]
    } else if c == ' ' {
        seq!['-']
    } else {
        Seq::<char>::empty()
    }
}

/// The anchor derived from the header text `t[i..j]`.
pub open spec fn sanitize_anchor(t: Seq<char>, i: int, j: int) -> Seq<char>
    decreases j - i,
{
    if i < 0 || i >= j || i >= t.len() {
        Seq::<char>::empty()
    } else {
        anchor_char(t[i]) + sanitize_anchor(t, i + 1, j)
    }
}

proof fn lemma_sanitize_snoc(t: Seq<char>, i: int, j: int)
    requires
        0 <= i <= j < t.len(),
    ensures
        sanitize_anchor(t, i, j + 1) == sanitize_anchor(t, i, j) + anchor_char(t[j]),
    decreases j - i,
{
    if i < j {
        lemma_sanitize_snoc(t, i + 1, j);
        assert(sanitize_anchor(t, i, j + 1) =~= sanitize_anchor(t, i, j) + anchor_char(t[j]));
    } else {
        assert(sanitize_anchor(t, j + 1, j + 1) =~= Seq::<char>::empty());
        assert(sanitize_anchor(t, i, j) =~= Seq::<char>::empty());
        assert(sanitize_anchor(t, i, j + 1) =~= sanitize_anchor(t, i, j) + anchor_char(t[j]));
    }
}

fn anchor_char_exec(c: char, out: &mut String)
    ensures
        final(out)@ == old(out)@ + anchor_char(c),
{
    let ghost prev = out@;
    if ('a' <= c && c <= 'z') || ('0' <= c && c <= '9') {
        push_char(out, c);
        proof {
            assert(final(out)@ =~= prev + anchor_char(c));
        }
    } else if 'A' <= c && c <= 'Z' {
        let lowered = lower_ascii_exec(c);
        push_char(out, lowered);
        proof {
            assert(final(out)@ =~= prev + anchor_char(c));
        }
    } else if c == ' ' {
        push_char(out, '-');
        proof {
            assert(final(out)@ =~= prev + anchor_char(c));
        }
    } else {
        proof {
            assert(final(out)@ =~= prev + anchor_char(c));
        }
    }
}

fn lower_ascii_exec(c: char) -> (r: char)
    ensures
        r == lower_ascii(c),
{
    if c == 'A' {
        'a'
    } else if c == 'B' {
        'b'
    } else if c == 'C' {
        'c'
    } else if c == 'D' {
        'd'
    } else if c == 'E' {
        'e'
    } else if c == 'F' {
        'f'
    } else if c == 'G' {
        'g'
    } else if c == 'H' {
        'h'
    } else if c == 'I' {
        'i'
    } else if c == 'J' {
        'j'
    } else if c == 'K' {
        'k'
    } else if c == 'L' {
        'l'
    } else if c == 'M' {
        'm'
    } else if c == 'N' {
        'n'
    } else if c == 'O' {
        'o'
    } else if c == 'P' {
        'p'
    } else if c == 'Q' {
        'q'
    } else if c == 'R' {
        'r'
    } else if c == 'S' {
        's'
    } else if c == 'T' {
        't'
    } else if c == 'U' {
        'u'
    } else if c == 'V' {
        'v'
    } else if c == 'W' {
        'w'
    } else if c == 'X' {
        'x'
    } else if c == 'Y' {
        'y'
    } else if c == 'Z' {
        'z'
    } else {
        c
    }
}

/// Every item of the sequence is well-formed.
pub open spec fn items_all_wf(s: Seq<ListItem>) -> bool {
    forall|i: int| 0 <= i < s.len() ==> list_item_wf(#[trigger] s[i])
}

/// An item's own content, apart from where it sits in the hierarchy.
pub open spec fn item_core(it: ListItem) -> (Line, u16, bool) {
    (it.text, it.level, it.ordered)
}

/// Every item of a tree, the parent before its children.
pub open spec fn flat_item(it: ListItem) -> Seq<(Line, u16, bool)>
    decreases it,
{
    seq![item_core(it)] + flat_items(it.children@)
}

/// Every item of a forest, in order.
pub open spec fn flat_items(s: Seq<ListItem>) -> Seq<(Line, u16, bool)>
    decreases s,
{
    if s.len() == 0 {
        Seq::empty()
    } else {
        flat_items(s.drop_last()) + flat_item(s.last())
    }
}

/// Attaching a child appends exactly the child's items.
proof fn lemma_flat_add_child(p0: ListItem, p1: ListItem, c: ListItem)
    requires
        p1.children@ == p0.children@.push(c),
        p1.text == p0.text,
        p1.level == p0.level,
        p1.ordered == p0.ordered,
    ensures
        flat_item(p1) == flat_item(p0) + flat_item(c),
{
    assert(p0.children@.push(c).drop_last() =~= p0.children@);
    assert(p0.children@.push(c).last() == c);
    assert(flat_item(p1) =~= flat_item(p0) + flat_item(c));
}

/// Pushing onto a forest appends exactly the item's items.
proof fn lemma_flat_items_push(s: Seq<ListItem>, x: ListItem)
    ensures
        flat_items(s.push(x)) == flat_items(s) + flat_item(x),
{
    assert(s.push(x).drop_last() =~= s);
    assert(s.push(x).last() == x);
    assert(flat_items(s.push(x)) =~= flat_items(s) + flat_item(x));
}

/// Everything the assembly holds: the finished items and the open stack.
pub open spec fn assembly_cores(list: List, h: Seq<ListItem>) -> Multiset<(Line, u16, bool)> {
    flat_items(list.items@).to_multiset().add(flat_items(h).to_multiset())
}

/// The stack of open list items: well-formed, with strictly increasing
/// levels from the bottom up.
pub open spec fn hier_wf(h: Seq<ListItem>) -> bool {
    &&& items_all_wf(h)
    &&& forall|i: int, j: int| 0 <= i < j < h.len() ==> #[trigger] h[i].level < #[trigger] h[j].level
}

/// Attaching a strictly deeper, well-formed child keeps an item
/// well-formed.
proof fn lemma_add_child_wf(parent_old: ListItem, parent_new: ListItem, child: ListItem)
    requires
        list_item_wf(parent_old),
        list_item_wf(child),
        child.level > parent_old.level,
        parent_new.children@ == parent_old.children@.push(child),
        parent_new.level == parent_old.level,
    ensures
        list_item_wf(parent_new),
{
    assert forall|i: int| 0 <= i < parent_new.children@.len() implies (#[trigger] list_item_wf(
        parent_new.children@[i],
    ) && parent_new.children@[i].level > parent_new.level) by {
        if i < parent_old.children@.len() {
            assert(list_item_wf(parent_old));
            assert(parent_old.children@.push(child)[i] == parent_old.children@[i]);
            assert(parent_new.children@[i] == parent_old.children@[i]);
            assert(list_item_wf(parent_old.children@[i]));
            assert(parent_old.children@[i].level > parent_old.level);
        } else {
            assert(parent_old.children@.push(child)[i] == child);
            assert(parent_new.children@[i] == child);
        }
    }
}

/// Folds finished items off the stack until the new item can sit on top,
/// then pushes it: a deeper top becomes a child, an equal top a sibling.
/// No item is lost or duplicated: afterwards the assembly holds exactly
/// what it held before plus the new item (with everything under it).
#[verifier::rlimit(100)]
#[verifier::spinoff_prover]
pub fn merge_into_hierarchy(hierarchy: &mut Vec<ListItem>, list: &mut List, item: ListItem)
    requires
        hier_wf(old(hierarchy)@),
        items_all_wf(old(list).items@),
        list_item_wf(item),
    ensures
        hier_wf(final(hierarchy)@),
        items_all_wf(final(list).items@),
        final(hierarchy)@.len() > 0,
        final(list).ordered == old(list).ordered,
        assembly_cores(*final(list), final(hierarchy)@) == assembly_cores(
            *old(list),
            old(hierarchy)@,
        ).add(flat_item(item).to_multiset()),
{
    let ghost total0 = assembly_cores(*old(list), old(hierarchy)@).add(
        flat_item(item).to_multiset(),
    );
    let mut item = item;
    loop
        invariant
            hier_wf(hierarchy@),
            items_all_wf(list.items@),
            list_item_wf(item),
            list.ordered == old(list).ordered,
            assembly_cores(*list, hierarchy@).add(flat_item(item).to_multiset()) == total0,
        ensures
            hier_wf(hierarchy@),
            items_all_wf(list.items@),
            list_item_wf(item),
            list.ordered == old(list).ordered,
            hierarchy@.len() == 0 || hierarchy@.last().level < item.level,
            assembly_cores(*list, hierarchy@).add(flat_item(item).to_multiset()) == total0,
        decreases hierarchy@.len(),
    {
        let ghost hpre = hierarchy@;
        let parent_item = match hierarchy.pop() {
            Some(p) => p,
            None => {
                break ;
            },
        };
        proof {
            assert(list_item_wf(parent_item));
            assert(hpre.drop_last() =~= hierarchy@);
            assert(hpre.last() == parent_item);
            assert(flat_items(hpre) =~= flat_items(hierarchy@) + flat_item(parent_item));
        }
        if parent_item.level < item.level {
            hierarchy.push(parent_item);
            proof {
                lemma_flat_items_push(hpre.drop_last(), parent_item);
                assert(flat_items(hierarchy@) =~= flat_items(hpre));
            }
            break ;
        } else if parent_item.level == item.level {
            // a sibling: the finished item closes onto the level above
            match hierarchy.pop() {
                Some(grand) => {
                    proof {
                        assert(list_item_wf(grand));
                        assert(grand.level < parent_item.level);
                    }
                    let ghost h2 = hierarchy@;
                    let ghost g0 = grand;
                    let mut grand = grand;
                    grand.add_child(parent_item);
                    proof {
                        lemma_add_child_wf(g0, grand, parent_item);
                        lemma_flat_add_child(g0, grand, parent_item);
                        assert(hpre.drop_last().drop_last() =~= h2);
                        assert(hpre.drop_last().last() == g0);
                        assert(flat_items(hpre.drop_last()) =~= flat_items(h2) + flat_item(g0));
                    }
                    hierarchy.push(grand);
                    proof {
                        lemma_flat_items_push(h2, grand);
                        assert(flat_items(hierarchy@) =~= flat_items(hpre));
                    }
                },
                None => {
                    let ghost items0 = list.items@;
                    list.add_item(parent_item);
                    proof {
                        lemma_flat_items_push(items0, parent_item);
                        assert(hpre =~= seq![parent_item]);
                        assert(flat_items(hpre) =~= flat_item(parent_item));
                        assert(flat_items(Seq::<ListItem>::empty()) =~= Seq::<(
                            Line,
                            u16,
                            bool,
                        )>::empty());
                        broadcast use vstd::multiset::group_multiset_axioms;
                        broadcast use vstd::seq_lib::group_to_multiset_ensures;

                        assert(Seq::<(Line, u16, bool)>::empty().to_multiset() =~= Multiset::<(
                            Line,
                            u16,
                            bool,
                        )>::empty());
                        lemma_multiset_commutative(flat_items(items0), flat_item(parent_item));
                        assert(assembly_cores(*list, hierarchy@).add(flat_item(item).to_multiset())
                            =~= total0);
                    }
                },
            }
            break ;
        } else {
            // the finished deeper item closes onto its parent
            match hierarchy.pop() {
                Some(grand) => {
                    proof {
                        assert(list_item_wf(grand));
                        assert(grand.level < parent_item.level);
                    }
                    let ghost h2 = hierarchy@;
                    let ghost g0 = grand;
                    let mut grand = grand;
                    grand.add_child(parent_item);
                    proof {
                        lemma_add_child_wf(g0, grand, parent_item);
                        lemma_flat_add_child(g0, grand, parent_item);
                        assert(hpre.drop_last().drop_last() =~= h2);
                        assert(hpre.drop_last().last() == g0);
                        assert(flat_items(hpre.drop_last()) =~= flat_items(h2) + flat_item(g0));
                    }
                    hierarchy.push(grand);
                    proof {
                        lemma_flat_items_push(h2, grand);
                        assert(flat_items(hierarchy@) =~= flat_items(hpre));
                    }
                },
                None => {
                    let ghost it0 = item;
                    item.add_child(parent_item);
                    proof {
                        lemma_add_child_wf(it0, item, parent_item);
                        lemma_flat_add_child(it0, item, parent_item);
                        assert(hpre =~= seq![parent_item]);
                        assert(flat_items(hpre) =~= flat_item(parent_item));
                        assert(flat_items(Seq::<ListItem>::empty()) =~= Seq::<(
                            Line,
                            u16,
                            bool,
                        )>::empty());
                        broadcast use vstd::multiset::group_multiset_axioms;
                        broadcast use vstd::seq_lib::group_to_multiset_ensures;

                        assert(Seq::<(Line, u16, bool)>::empty().to_multiset() =~= Multiset::<(
                            Line,
                            u16,
                            bool,
                        )>::empty());
                        lemma_multiset_commutative(flat_item(it0), flat_item(parent_item));
                        assert(assembly_cores(*list, hierarchy@).add(flat_item(item).to_multiset())
                            =~= total0);
                    }
                },
            }
        }
    }
    let ghost hfin = hierarchy@;
    let ghost item_now = item;
    hierarchy.push(item);
    proof {
        broadcast use vstd::multiset::group_multiset_axioms;

        lemma_flat_items_push(hfin, item_now);
        lemma_multiset_commutative(flat_items(hfin), flat_item(item_now));
        assert(flat_items(hierarchy@).to_multiset() =~= flat_items(hfin).to_multiset().add(
            flat_item(item_now).to_multiset(),
        ));
        assert(assembly_cores(*list, hierarchy@) =~= assembly_cores(*list, hfin).add(
            flat_item(item_now).to_multiset(),
        ));
        assert(assembly_cores(*list, hfin).add(flat_item(item_now).to_multiset()) == total0);
        assert(assembly_cores(*list, hierarchy@) == total0);
    }
}

/// Folds the remaining open items into one chain (each onto the one
/// below), leaving at most one item on the stack and keeping every item,
/// in order.
#[verifier::rlimit(100)]
pub fn drain_hierarchy(hierarchy: &mut Vec<ListItem>)
    requires
        hier_wf(old(hierarchy)@),
    ensures
        hier_wf(final(hierarchy)@),
        final(hierarchy)@.len() <= 1,
        old(hierarchy)@.len() == 0 ==> final(hierarchy)@.len() == 0,
        old(hierarchy)@.len() > 0 ==> final(hierarchy)@.len() == 1,
        flat_items(final(hierarchy)@) == flat_items(old(hierarchy)@),
{
    loop
        invariant
            hier_wf(hierarchy@),
            old(hierarchy)@.len() == 0 ==> hierarchy@.len() == 0,
            old(hierarchy)@.len() > 0 ==> hierarchy@.len() > 0,
            flat_items(hierarchy@) == flat_items(old(hierarchy)@),
        ensures
            hier_wf(hierarchy@),
            hierarchy@.len() <= 1,
            old(hierarchy)@.len() == 0 ==> hierarchy@.len() == 0,
            old(hierarchy)@.len() > 0 ==> hierarchy@.len() == 1,
            flat_items(hierarchy@) == flat_items(old(hierarchy)@),
        decreases hierarchy@.len(),
    {
        if hierarchy.len() <= 1 {
            break ;
        }
        let ghost hpre = hierarchy@;
        let item = match hierarchy.pop() {
            Some(it) => it,
            None => {
                break ;
            },
        };
        proof {
            assert(hpre.drop_last() =~= hierarchy@);
            assert(hpre.last() == item);
            assert(flat_items(hpre) =~= flat_items(hierarchy@) + flat_item(item));
        }
        match hierarchy.pop() {
            Some(parent) => {
                proof {
                    assert(list_item_wf(parent));
                    assert(list_item_wf(item));
                    assert(parent.level < item.level);
                }
                let ghost h2 = hierarchy@;
                let ghost p0 = parent;
                let mut parent = parent;
                parent.add_child(item);
                proof {
                    lemma_add_child_wf(p0, parent, item);
                    lemma_flat_add_child(p0, parent, item);
                    assert(hpre.drop_last().drop_last() =~= h2);
                    assert(hpre.drop_last().last() == p0);
                    assert(flat_items(hpre.drop_last()) =~= flat_items(h2) + flat_item(p0));
                }
                hierarchy.push(parent);
                proof {
                    lemma_flat_items_push(h2, parent);
                    assert(flat_items(hierarchy@) =~= flat_items(hpre));
                }
            },
            None => {
                hierarchy.push(item);
                proof {
                    lemma_flat_items_push(hpre.drop_last(), item);
                    assert(flat_items(hierarchy@) =~= flat_items(hpre));
                }
                break ;
            },
        }
    }
}

/// Pushing a strictly larger size keeps the section stack strictly
/// increasing and positive.
proof fn lemma_stack_push_wf(stack: Seq<u8>, size: u8, nesting: u8)
    requires
        forall|i: int| 0 <= i && i + 1 < stack.len() ==> (#[trigger] stack[i]) < stack[i + 1],
        forall|i: int| 0 <= i < stack.len() ==> (#[trigger] stack[i]) >= 1,
        stack.len() > 0 ==> nesting == stack.last(),
        stack.len() == 0 ==> nesting == 0,
        size > nesting,
        size >= 1,
    ensures
        forall|i: int|
            0 <= i && i + 1 < stack.push(size).len() ==> (#[trigger] stack.push(size)[i]) < stack.push(
                size,
            )[i + 1],
        forall|i: int| 0 <= i < stack.push(size).len() ==> (#[trigger] stack.push(size)[i]) >= 1,
{
    let st = stack.push(size);
    assert forall|i: int| 0 <= i && i + 1 < st.len() implies (#[trigger] st[i]) < st[i + 1] by {
        if i + 1 < stack.len() {
            assert(st[i] == stack[i]);
            assert(st[i + 1] == stack[i + 1]);
        } else {
            assert(st[i] == stack[i]);
            assert(stack[i] == stack.last());
            assert(st[i + 1] == size);
        }
    }
    assert forall|i: int| 0 <= i < st.len() implies (#[trigger] st[i]) >= 1 by {
        if i < stack.len() {
            assert(st[i] == stack[i]);
        } else {
            assert(st[i] == size);
        }
    }
}

impl Parser {
    /// A header line: its text, and the anchor derived from it. The size
    /// is zero until the enclosing section sets it. A plain (non-dash)
    /// line is owed, and carries its leading text.
    pub fn parse_header(&mut self) -> (r: Result<Header, ParseError>)
        requires
            old(self).wf(),
        ensures
            final(self).wf(),
            old(self).only_cursor_changed(*final(self)),
            r is Ok ==> final(self).index > old(self).index,
            r is Err ==> final(self).index == old(self).index,
            plain_line_start(old(self).text@, old(self).index as int) && old(self).text@[old(
                self,
            ).index as int] != '-' ==> (r is Ok && r->Ok_0.line is Text
                && r->Ok_0.line->Text_0.subtext@.len() > 0
                && r->Ok_0.line->Text_0.subtext@[0] is Plain
                && r->Ok_0.line->Text_0.subtext@[0]->Plain_0.value@ == leading_plain(
                old(self).text@,
                old(self).index as int,
            )),
        decreases self.text@.len() - self.index, 5int,
    {
        let ghost t = self.text@;
        let hstart = self.index;
        let line = match self.parse_line() {
            Ok(l) => l,
            Err(e) => {
                return Err(e);
            },
        };
        let hend = self.index;
        let mut anchor = String::new();
        let mut k: usize = hstart;
        while k < hend
            invariant
                hstart <= k <= hend <= self.text@.len(),
                t == self.text@,
                anchor@ == sanitize_anchor(t, hstart as int, k as int),
            decreases hend - k,
        {
            proof {
                lemma_sanitize_snoc(t, hstart as int, k as int);
            }
            anchor_char_exec(self.text[k], &mut anchor);
            k = k + 1;
        }
        Ok(Header { size: 0, anchor, line })
    }

    /// Counts the run of `#` characters under the cursor (capped at 255)
    /// and moves the cursor past the run.
    #[verifier::rlimit(100)]
    fn count_hashes(&mut self) -> (size: u8)
        requires
            old(self).wf(),
            special_at(old(self).text@, old(self).index as int, '#'),
        ensures
            final(self).wf(),
            old(self).only_cursor_changed(*final(self)),
            final(self).index as int == old(self).index + hash_run(
                old(self).text@,
                old(self).index as int,
            ),
            size as nat == header_size_at(old(self).text@, old(self).index as int),
    {
        let ghost t = self.text@;
        let ghost w = self.index as int;
        let mut size: u8 = 1;
        loop
            invariant_except_break
                self.wf(),
                old(self).only_cursor_changed(*self),
                t == self.text@,
                w == old(self).index,
                w <= self.index,
                size >= 1,
                forall|k: int| 0 <= k <= self.index - w ==> #[trigger] special_at(t, w + k, '#'),
                size as int == (if self.index - w + 1 <= 255 {
                    self.index - w + 1
                } else {
                    255
                }),
            ensures
                self.wf(),
                old(self).only_cursor_changed(*self),
                t == self.text@,
                w == old(self).index,
                w < self.index,
                forall|k: int| 0 <= k < self.index - w ==> #[trigger] special_at(t, w + k, '#'),
                !special_at(t, self.index as int, '#'),
                size as int == (if self.index - w <= 255 {
                    self.index - w
                } else {
                    255
                }),
            decreases self.text@.len() - self.index,
        {
            let ghost before = self.index as int;
            proof {
                assert(special_at(t, w + (before - w), '#'));
            }
            if self.next_char().is_none() {
                proof {
                    assert forall|k: int| 0 <= k < self.index - w implies #[trigger] special_at(
                        t,
                        w + k,
                        '#',
                    ) by {
                        assert(k <= before - w);
                    }
                }
                break ;
            }
            if !self.check_special('#') {
                proof {
                    assert forall|k: int| 0 <= k < self.index - w implies #[trigger] special_at(
                        t,
                        w + k,
                        '#',
                    ) by {
                        assert(k <= before - w);
                    }
                }
                break ;
            }
            if size < 255 {
                size = size + 1;
            }
        }
        proof {
            lemma_hash_run(t, w, self.index - w);
        }
        size
    }

    /// A section: a run of `#` characters fixing the size (capped at 255),
    /// the header line, then every block that parses strictly deeper. A
    /// header at or above the enclosing size records its size as the
    /// unwinding target instead; without a leading `#` nothing changes.
    #[verifier::rlimit(100)]
    #[verifier::spinoff_prover]
    pub fn parse_section(&mut self) -> (r: Result<Section, ParseError>)
        requires
            old(self).wf(),
        ensures
            final(self).wf(),
            old(self).same_text(*final(self)),
            old(self).same_imports(*final(self)),
            final(self).sections@ == old(self).sections@,
            final(self).section_nesting == old(self).section_nesting,
            r is Ok ==> final(self).index > old(self).index,
            r is Ok ==> block_wf(Block::Section(r->Ok_0)) && r->Ok_0.header.size > old(
                self,
            ).section_nesting,
            r is Ok ==> r->Ok_0.header.size as nat == header_size_at(
                old(self).text@,
                first_non_ws(old(self).text@, old(self).index as int),
            ),
            !special_at(
                old(self).text@,
                first_non_ws(old(self).text@, old(self).index as int),
                '#',
            ) ==> r is Err && final(self).section_return == old(self).section_return,
            special_at(old(self).text@, first_non_ws(old(self).text@, old(self).index as int), '#')
                && header_size_at(
                old(self).text@,
                first_non_ws(old(self).text@, old(self).index as int),
            ) <= old(self).section_nesting ==> r is Err && final(self).section_return == Some(
                header_size_at(
                    old(self).text@,
                    first_non_ws(old(self).text@, old(self).index as int),
                ) as u8,
            ),
            section_owed(
                old(self).text@,
                first_non_ws(old(self).text@, old(self).index as int),
                old(self).section_nesting,
            ) ==> (r is Ok && r->Ok_0.header.line is Text
                && r->Ok_0.header.line->Text_0.subtext@.len() > 0
                && r->Ok_0.header.line->Text_0.subtext@[0] is Plain
                && r->Ok_0.header.line->Text_0.subtext@[0]->Plain_0.value@ == leading_plain(
                old(self).text@,
                first_non_inline_ws(
                    old(self).text@,
                    first_non_ws(old(self).text@, old(self).index as int) + hash_run(
                        old(self).text@,
                        first_non_ws(old(self).text@, old(self).index as int),
                    ),
                ),
            )),
            r is Err ==> final(self).index == old(self).index,
        decreases self.text@.len() - self.index, 6int,
    {
        let ghost t = self.text@;
        let start = self.index;
        self.seek_whitespace();
        let ghost w = self.index as int;
        if !self.check_special('#') {
            return Err(self.revert_with_error(start));
        }
        let size: u8 = self.count_hashes();
        let not_ws = self.index >= self.text.len() || !crate::parser::is_ws_char(
            self.current_char,
        );
        if size <= self.section_nesting || not_ws {
            if size <= self.section_nesting {
                self.section_return = Some(size);
            }
            let e = self.revert_with_error(start);
            return Err(e);
        }
        self.seek_inline_whitespace();
        let mut header = match self.parse_header() {
            Ok(h) => h,
            Err(_) => {
                let e = self.revert_with_error(start);
                return Err(e);
            },
        };
        header.size = size;
        let ghost header_line = header.line;
        let ghost old_nesting = self.section_nesting;
        self.section_nesting = size;
        let ghost old_stack = self.sections@;
        self.sections.push(size);
        proof {
            lemma_stack_push_wf(old_stack, size, old_nesting);
            assert(self.wf());
        }
        let mut section = Section::new(header);
        self.seek_whitespace();
        loop
            invariant
                self.wf(),
                old(self).same_text(*self),
                old(self).same_imports(*self),
                self.section_nesting == size,
                size >= 1,
                size > old(self).section_nesting,
                self.sections@ == old(self).sections@.push(size),
                start < self.index,
                start == old(self).index,
                section.header.size == size,
                section.header.line == header_line,
                forall|i: int|
                    0 <= i < section.elements@.len() ==> (block_wf(
                        #[trigger] section.elements@[i],
                    ) && block_deeper_than(section.elements@[i], size as int)),
            ensures
                self.wf(),
                old(self).same_text(*self),
                old(self).same_imports(*self),
                self.section_nesting == size,
                self.sections@ == old(self).sections@.push(size),
                start < self.index,
                section.header.size == size,
                section.header.line == header_line,
                forall|i: int|
                    0 <= i < section.elements@.len() ==> (block_wf(
                        #[trigger] section.elements@[i],
                    ) && block_deeper_than(section.elements@[i], size as int)),
            decreases self.text@.len() - self.index,
        {
            match self.parse_block() {
                Ok(block) => {
                    proof {
                        assert(block_import_paths(block) =~= Seq::<String>::empty());
                    }
                    section.add_element(block);
                },
                Err(_) => {
                    break ;
                },
            }
        }
        self.sections.pop();
        proof {
            assert(old(self).sections@.push(size).drop_last() =~= old(self).sections@);
        }
        if self.sections.len() > 0 {
            self.section_nesting = self.sections[self.sections.len() - 1];
        } else {
            self.section_nesting = 0;
        }
        proof {
            assert(block_wf(Block::Section(section)));
        }
        Ok(section)
    }

    /// A paragraph: consecutive lines, ending before the first line that
    /// opens a block (`-`, `#`, a backtick, `|`, `>`, `<`) or when nothing
    /// more parses. A line of plain text (no opener, no dash) after the
    /// leading whitespace makes the paragraph succeed, with that text as
    /// the first line's first inline; consumption never stops on a further
    /// parsable plain line.
    #[verifier::rlimit(100)]
    pub fn parse_paragraph(&mut self) -> (r: Result<Paragraph, ParseError>)
        requires
            old(self).wf(),
        ensures
            final(self).wf(),
            old(self).only_cursor_changed(*final(self)),
            r is Ok ==> final(self).index > old(self).index,
            plain_line_start(old(self).text@, first_non_ws(old(self).text@, old(self).index as int))
                && old(self).text@[first_non_ws(old(self).text@, old(self).index as int)] != '-'
                ==> (r is Ok && paragraph_from(
                old(self).text@,
                first_non_ws(old(self).text@, old(self).index as int),
                r->Ok_0,
            )),
            r is Ok ==> final(self).index as int >= old(self).text@.len() || special_group_at(
                old(self).text@,
                final(self).index as int,
                seq!['-', '#', '`', '|', '>', '<'],
            ) || !plain_line_start(old(self).text@, final(self).index as int) || old(self).text@[
                final(self).index as int
            ] == '-',
            r is Err ==> final(self).index == old(self).index,
        decreases self.text@.len() - self.index, 6int,
    {
        let ghost t = self.text@;
        let start = self.index;
        self.seek_whitespace();
        let ghost w = self.index as int;
        let ghost pstart = plain_line_start(t, w) && t[w] != '-';
        let breakers: &[char] = &['-', '#', '`', '|', '>', '<'];
        proof {
            assert(breakers@ =~= seq!['-', '#', '`', '|', '>', '<']);
        }
        let mut paragraph = Paragraph::new();
        loop
            invariant
                self.wf(),
                old(self).only_cursor_changed(*self),
                t == self.text@,
                start == old(self).index,
                start <= self.index,
                start < self.text@.len() || self.index == start,
                w == first_non_ws(t, start as int),
                pstart == (plain_line_start(t, w) && t[w] != '-'),
                breakers@ == seq!['-', '#', '`', '|', '>', '<'],
                pstart && paragraph.elements@.len() == 0 ==> self.index as int == w,
                pstart && paragraph.elements@.len() > 0 ==> paragraph_from(t, w, paragraph),
                paragraph.elements@.len() > 0 ==> self.index > start,
            ensures
                self.wf(),
                old(self).only_cursor_changed(*self),
                t == self.text@,
                start <= self.index,
                start < self.text@.len() || self.index == start,
                pstart ==> paragraph.elements@.len() > 0 && paragraph_from(t, w, paragraph),
                paragraph.elements@.len() > 0 ==> self.index > start,
                self.index as int >= t.len() || special_group_at(
                    t,
                    self.index as int,
                    seq!['-', '#', '`', '|', '>', '<'],
                ) || !plain_line_start(t, self.index as int) || t[self.index as int] == '-',
            decreases self.text@.len() - self.index,
        {
            let ghost before = paragraph.elements@;
            match self.parse_line() {
                Ok(line) => {
                    paragraph.add_element(line);
                    proof {
                        if before.len() > 0 {
                            assert(paragraph.elements@[0] == before[0]);
                        }
                    }
                },
                Err(_) => {
                    proof {
                        if pstart && before.len() == 0 {
                            assert(plain_line_start(t, self.index as int));
                            assert(false);
                        }
                        if self.index < t.len() && plain_line_start(t, self.index as int)
                            && t[self.index as int] != '-' {
                            assert(false);
                        }
                    }
                    break ;
                },
            }
            if self.check_special_group(breakers) {
                break ;
            }
        }
        if paragraph.elements.len() > 0 {
            Ok(paragraph)
        } else {
            let e = self.revert_with_error(start);
            Err(e)
        }
    }

    /// One list item: indentation fixing the level, a bullet (`-`, `*`,
    /// `+`, or digits and a dot for an ordered item), whitespace, then the
    /// item's line. The item starts with no children; its level is the
    /// count of indentation characters (capped), its polarity follows the
    /// bullet; with no bullet at all it fails.
    #[verifier::rlimit(100)]
    pub fn parse_list_item(&mut self) -> (r: Result<ListItem, ParseError>)
        requires
            old(self).wf(),
        ensures
            final(self).wf(),
            old(self).only_cursor_changed(*final(self)),
            r is Ok ==> final(self).index > old(self).index,
            r is Ok ==> list_item_wf(r->Ok_0) && r->Ok_0.children@.len() == 0,
            r is Ok ==> r->Ok_0.level as int == (if first_non_inline_ws(
                old(self).text@,
                old(self).index as int,
            ) - old(self).index <= 65535 {
                first_non_inline_ws(old(self).text@, old(self).index as int) - old(self).index
            } else {
                65535
            }),
            r is Ok ==> r->Ok_0.ordered == !special_group_at(
                old(self).text@,
                first_non_inline_ws(old(self).text@, old(self).index as int),
                seq!['-', '*', '+'],
            ),
            !special_group_at(
                old(self).text@,
                first_non_inline_ws(old(self).text@, old(self).index as int),
                seq!['-', '*', '+'],
            ) && !special_group_at(
                old(self).text@,
                first_non_inline_ws(old(self).text@, old(self).index as int),
                seq!['0', '1', '2', '3', '4', '5', '6', '7', '8', '9'],
            ) ==> r is Err,
            item_owed(old(self).text@, first_non_inline_ws(old(self).text@, old(self).index as int))
                ==> (r is Ok && r->Ok_0.text is Text && r->Ok_0.text->Text_0.subtext@.len() > 0
                && r->Ok_0.text->Text_0.subtext@[0] is Plain
                && r->Ok_0.text->Text_0.subtext@[0]->Plain_0.value@ == leading_plain(
                old(self).text@,
                first_non_inline_ws(
                    old(self).text@,
                    first_non_inline_ws(old(self).text@, old(self).index as int) + 1,
                ),
            )),
            r is Err ==> final(self).index == old(self).index,
        decreases self.text@.len() - self.index, 5int,
    {
        let start = self.index;
        self.seek_inline_whitespace();
        let indent = self.index - start;
        let level: u16 = if indent > 65535 {
            65535
        } else {
            #[verifier::truncate]
            (indent as u16)
        };
        let ordered: bool;
        let bullets: &[char] = &['-', '*', '+'];
        let digits: &[char] = &['0', '1', '2', '3', '4', '5', '6', '7', '8', '9'];
        proof {
            assert(bullets@ =~= seq!['-', '*', '+']);
            assert(digits@ =~= seq!['0', '1', '2', '3', '4', '5', '6', '7', '8', '9']);
        }
        if self.check_special_group(bullets) {
            ordered = false;
            self.skip_char();
        } else if self.check_special_group(digits) {
            ordered = true;
            loop
                invariant
                    self.wf(),
                    old(self).only_cursor_changed(*self),
                    start <= self.index,
                ensures
                    self.wf(),
                    old(self).only_cursor_changed(*self),
                    start <= self.index,
                decreases self.text@.len() - self.index,
            {
                self.skip_char();
                if !self.check_special_group(digits) {
                    break ;
                }
            }
            if !self.check_special('.') {
                let e = self.revert_with_error(start);
                return Err(e);
            }
            self.skip_char();
        } else {
            let e = self.revert_with_error(start);
            return Err(e);
        }
        if !self.check_seek_inline_whitespace() {
            let e = self.revert_with_error(start);
            return Err(e);
        }
        let line = match self.parse_inline() {
            Ok(l) => l,
            Err(_) => {
                let e = self.revert_with_error(start);
                return Err(e);
            },
        };
        Ok(ListItem::new(line, level, ordered))
    }

    /// A list: items assembled into a hierarchy by their levels. A deeper
    /// item becomes a child; an item at the same level a sibling; a
    /// shallower one closes the deeper items first. The polarity follows
    /// the first bullet; with no bullet or digit at the first item's
    /// position the list fails.
    #[verifier::rlimit(100)]
    pub fn parse_list(&mut self) -> (r: Result<List, ParseError>)
        requires
            old(self).wf(),
        ensures
            final(self).wf(),
            old(self).only_cursor_changed(*final(self)),
            r is Ok ==> final(self).index > old(self).index,
            r is Ok ==> list_wf(r->Ok_0),
            r is Ok ==> r->Ok_0.ordered == !special_group_at(
                old(self).text@,
                first_non_ws(old(self).text@, old(self).index as int),
                seq!['-', '*', '+'],
            ),
            !special_group_at(
                old(self).text@,
                first_non_ws(old(self).text@, old(self).index as int),
                seq!['-', '*', '+'],
            ) && !special_group_at(
                old(self).text@,
                first_non_ws(old(self).text@, old(self).index as int),
                seq!['0', '1', '2', '3', '4', '5', '6', '7', '8', '9'],
            ) ==> r is Err,
            r is Ok ==> r->Ok_0.items@.len() > 0,
            item_owed(old(self).text@, first_non_ws(old(self).text@, old(self).index as int))
                ==> r is Ok,
            r is Err ==> final(self).index == old(self).index,
        decreases self.text@.len() - self.index, 6int,
    {
        let ghost t = self.text@;
        let start = self.index;
        let mut list = List::new();
        self.seek_whitespace();
        let ghost w = self.index as int;
        let ghost owed = item_owed(t, w);
        let ghost nolist = !special_group_at(t, w, seq!['-', '*', '+']) && !special_group_at(
            t,
            w,
            seq!['0', '1', '2', '3', '4', '5', '6', '7', '8', '9'],
        );
        let bullets: &[char] = &['-', '*', '+'];
        proof {
            assert(bullets@ =~= seq!['-', '*', '+']);
            crate::parser::lemma_first_non_ws_char(t, start as int);
        }
        let ordered = !self.check_special_group(bullets);
        list.ordered = ordered;
        let mut hierarchy: Vec<ListItem> = Vec::new();
        loop
            invariant
                self.wf(),
                old(self).only_cursor_changed(*self),
                t == self.text@,
                start == old(self).index,
                start <= self.index,
                start < self.text@.len() || self.index == start,
                w == first_non_ws(t, start as int),
                owed == item_owed(t, w),
                nolist == (!special_group_at(t, w, seq!['-', '*', '+']) && !special_group_at(
                    t,
                    w,
                    seq!['0', '1', '2', '3', '4', '5', '6', '7', '8', '9'],
                )),
                nolist ==> self.index as int == w && hierarchy@.len() == 0 && list.items@.len()
                    == 0,
                owed && hierarchy@.len() == 0 && list.items@.len() == 0 ==> self.index as int == w,
                list.ordered == ordered,
                items_all_wf(list.items@),
                hier_wf(hierarchy@),
                hierarchy@.len() > 0 || list.items@.len() > 0 ==> self.index > start,
            ensures
                self.wf(),
                old(self).only_cursor_changed(*self),
                t == self.text@,
                start <= self.index,
                start < self.text@.len() || self.index == start,
                nolist ==> hierarchy@.len() == 0 && list.items@.len() == 0,
                owed ==> hierarchy@.len() > 0 || list.items@.len() > 0,
                list.ordered == ordered,
                items_all_wf(list.items@),
                hier_wf(hierarchy@),
                hierarchy@.len() > 0 || list.items@.len() > 0 ==> self.index > start,
            decreases self.text@.len() - self.index,
        {
            let ghost empty_so_far = hierarchy@.len() == 0 && list.items@.len() == 0;
            proof {
                if nolist || owed {
                    crate::parser::lemma_first_non_ws_char(t, start as int);
                    if w < t.len() {
                        assert(first_non_inline_ws(t, w) == w);
                    }
                }
            }
            let item = match self.parse_list_item() {
                Ok(it) => it,
                Err(_) => {
                    proof {
                        if owed && empty_so_far {
                            assert(false);
                        }
                    }
                    break ;
                },
            };
            merge_into_hierarchy(&mut hierarchy, &mut list, item);
        }
        let ghost had_any = hierarchy@.len() > 0 || list.items@.len() > 0;
        proof {
            assert(had_any ==> self.index > start);
        }
        drain_hierarchy(&mut hierarchy);
        match hierarchy.pop() {
            Some(it) => {
                list.add_item(it);
            },
            None => {},
        }
        if list.items.len() > 0 {
            proof {
                assert(had_any);
            }
            Ok(list)
        } else {
            let e = self.revert_with_error(start);
            Err(e)
        }
    }

    /// One table row: `|`-separated cells, each a text line trimmed of
    /// surrounding inline whitespace. Without a pipe after the leading
    /// inline whitespace there is no row; a pipe followed by a parsable
    /// cell owes a row, and a row never comes back empty. Consumption ends
    /// at a linebreak, the end of the input, or where no cell parses.
    #[verifier::rlimit(100)]
    pub fn parse_row(&mut self) -> (r: Result<crate::elements::Row, ParseError>)
        requires
            old(self).wf(),
        ensures
            final(self).wf(),
            old(self).only_cursor_changed(*final(self)),
            r is Ok ==> final(self).index > old(self).index,
            r is Ok ==> r->Ok_0.cells@.len() > 0,
            r is Ok ==> forall|i: int|
                0 <= i < r->Ok_0.cells@.len() ==> (#[trigger] r->Ok_0.cells@[i].text) is Text,
            !special_at(
                old(self).text@,
                first_non_inline_ws(old(self).text@, old(self).index as int),
                '|',
            ) ==> r is Err,
            row_owed(old(self).text@, first_non_inline_ws(old(self).text@, old(self).index as int))
                ==> r is Ok,
            r is Ok ==> final(self).index as int >= old(self).text@.len() || special_at(
                old(self).text@,
                final(self).index as int,
                '\n',
            ) || !plain_line_start(old(self).text@, final(self).index as int),
            r is Err ==> final(self).index == old(self).index,
        decreases self.text@.len() - self.index, 5int,
    {
        let ghost t = self.text@;
        let start = self.index;
        self.seek_inline_whitespace();
        let ghost b = self.index as int;
        let ghost ro = row_owed(t, b);
        if !self.check_special('|') {
            let e = self.revert_with_error(start);
            return Err(e);
        }
        if self.next_char().is_none() {
            proof {
                if ro {
                    assert(b + 1 < t.len());
                    assert(false);
                }
            }
            let e = self.revert_with_error(start);
            return Err(e);
        }
        let mut row = crate::elements::Row::new();
        loop
            invariant
                self.wf(),
                old(self).only_cursor_changed(*self),
                t == self.text@,
                start == old(self).index,
                start < self.index,
                ro == row_owed(t, b),
                ro && row.cells@.len() == 0 ==> self.index as int == b + 1,
                forall|i: int|
                    0 <= i < row.cells@.len() ==> (#[trigger] row.cells@[i].text) is Text,
            ensures
                self.wf(),
                old(self).only_cursor_changed(*self),
                t == self.text@,
                start < self.index,
                ro ==> row.cells@.len() > 0,
                forall|i: int|
                    0 <= i < row.cells@.len() ==> (#[trigger] row.cells@[i].text) is Text,
                self.index as int >= t.len() || special_at(t, self.index as int, '\n')
                    || !plain_line_start(t, self.index as int),
            decreases self.text@.len() - self.index,
        {
            let ghost before = row.cells@;
            self.seek_inline_whitespace();
            let mut text = match self.parse_text() {
                Ok(cell_line) => cell_line,
                Err(_) => {
                    proof {
                        if ro && before.len() == 0 {
                            assert(false);
                        }
                    }
                    break ;
                },
            };
            trim_textline_end(&mut text);
            row.add_cell(crate::elements::Cell { text: Line::Text(text) });
            if self.check_special('|') {
                if self.next_char().is_none() {
                    break ;
                }
            }
            if self.check_linebreak() {
                break ;
            }
        }
        if row.cells.len() > 0 {
            Ok(row)
        } else {
            let e = self.revert_with_error(start);
            Err(e)
        }
    }

    /// A table: a header row, a separator line of `-` and `|`, then the
    /// body rows. Without a separator the table is only its header;
    /// without a pipe there is no table; a parsable header row owes a
    /// table, whose header and body rows all hold at least one text cell.
    #[verifier::rlimit(100)]
    pub fn parse_table(&mut self) -> (r: Result<Table, ParseError>)
        requires
            old(self).wf(),
        ensures
            final(self).wf(),
            old(self).only_cursor_changed(*final(self)),
            r is Ok ==> final(self).index > old(self).index,
            r is Ok ==> r->Ok_0.header.cells@.len() > 0,
            r is Ok ==> forall|i: int|
                0 <= i < r->Ok_0.rows@.len() ==> (#[trigger] r->Ok_0.rows@[i]).cells@.len() > 0,
            !special_at(
                old(self).text@,
                first_non_inline_ws(old(self).text@, old(self).index as int),
                '|',
            ) ==> r is Err,
            row_owed(old(self).text@, first_non_inline_ws(old(self).text@, old(self).index as int))
                ==> r is Ok,
            r is Err ==> final(self).index == old(self).index,
        decreases self.text@.len() - self.index, 6int,
    {
        let ghost i0 = self.index;
        let header = match self.parse_row() {
            Ok(h) => h,
            Err(e) => {
                return Err(e);
            },
        };
        if self.check_linebreak() {
            self.skip_char();
        }
        let seek_index = self.index;
        let mut table = Table::new(header);
        loop
            invariant
                self.wf(),
                old(self).only_cursor_changed(*self),
                seek_index <= self.index,
                i0 < seek_index,
                table.header.cells@.len() > 0,
                table.rows@.len() == 0,
            ensures
                self.wf(),
                old(self).only_cursor_changed(*self),
                seek_index <= self.index,
                table.header.cells@.len() > 0,
                table.rows@.len() == 0,
            decreases self.text@.len() - self.index,
        {
            if self.next_char().is_none() {
                break ;
            }
            self.seek_inline_whitespace();
            if !self.check_special_group(&['-', '|']) || self.check_linebreak() {
                break ;
            }
        }
        if !self.check_linebreak() {
            let _ = self.revert_to(seek_index);
            return Ok(table);
        }
        self.seek_whitespace();
        loop
            invariant
                self.wf(),
                old(self).only_cursor_changed(*self),
                i0 < self.index,
                table.header.cells@.len() > 0,
                forall|i: int|
                    0 <= i < table.rows@.len() ==> (#[trigger] table.rows@[i]).cells@.len() > 0,
            ensures
                self.wf(),
                old(self).only_cursor_changed(*self),
                i0 < self.index,
                table.header.cells@.len() > 0,
                forall|i: int|
                    0 <= i < table.rows@.len() ==> (#[trigger] table.rows@[i]).cells@.len() > 0,
            decreases self.text@.len() - self.index,
        {
            let ghost prev_rows = table.rows@;
            match self.parse_row() {
                Ok(body_row) => {
                    table.add_row(body_row);
                    proof {
                        assert(forall|i: int|
                            0 <= i < prev_rows.len() ==> table.rows@[i] == prev_rows[i]);
                    }
                    self.seek_whitespace();
                },
                Err(_) => {
                    break ;
                },
            }
        }
        Ok(table)
    }

    /// A code block: three backticks, an optional language token up to the
    /// line break, the body up to the closing three backticks. It parses
    /// exactly when the opening fence stands after the leading whitespace,
    /// and the language and body are the delimited slices (the body loses
    /// its final linebreak).
    #[verifier::rlimit(100)]
    pub fn parse_code_block(&mut self) -> (r: Result<CodeBlock, ParseError>)
        requires
            old(self).wf(),
        ensures
            final(self).wf(),
            old(self).only_cursor_changed(*final(self)),
            r is Ok ==> final(self).index > old(self).index,
            r is Err ==> final(self).index == old(self).index,
            r is Ok <==> seq_matches(
                old(self).text@,
                first_non_ws(old(self).text@, old(self).index as int),
                seq!['`', '`', '`'],
            ),
            r is Ok ==> code_block_from(
                old(self).text@,
                first_non_ws(old(self).text@, old(self).index as int),
                r->Ok_0,
            ),
        decreases self.text@.len() - self.index, 6int,
    {
        let ghost t = self.text@;
        let start = self.index;
        self.seek_whitespace();
        let ghost w = self.index as int;
        if !self.check_special_sequence(&['`', '`', '`']) {
            let e = self.revert_with_error(start);
            return Err(e);
        }
        self.skip_char();
        let lb: &[char] = &['\n'];
        let none: &[char] = &[];
        proof {
            assert(lb@ =~= seq!['\n']);
            assert(none@ =~= Seq::<char>::empty());
        }
        let language = match self.get_string_until(lb, none) {
            Ok(l) => l,
            Err(_) => {
                let e = self.revert_with_error(start);
                return Err(e);
            },
        };
        self.skip_char();
        let fence: &[char] = &['`', '`', '`'];
        let breaks: &[&[char]] = &[fence];
        proof {
            assert(fence@ =~= seq!['`', '`', '`']);
            assert(crate::parser::seqs_view(breaks@) =~= seq![seq!['`', '`', '`']]);
            assert(forall|m: int| 0 <= m < breaks@.len() ==> (#[trigger] breaks@[m])@.len() > 0);
        }
        let code = match self.get_string_until_sequence(breaks, none) {
            Ok(c) => c,
            Err(_) => {
                let e = self.revert_with_error(start);
                return Err(e);
            },
        };
        self.skip_char();
        self.skip_char();
        let code = strip_trailing_lb(code);
        proof {
            assert(code_block_from(t, w, CodeBlock { language, code }));
        }
        Ok(CodeBlock { language, code })
    }

    /// A quote: lines introduced by `>`. Without a quote mark after the
    /// leading whitespace there is no quote; a `>` followed by whitespace
    /// and plain text owes a quote whose first line carries that text, and
    /// a quote never comes back empty.
    #[verifier::rlimit(100)]
    pub fn parse_quote(&mut self) -> (r: Result<Quote, ParseError>)
        requires
            old(self).wf(),
        ensures
            final(self).wf(),
            old(self).only_cursor_changed(*final(self)),
            r is Ok ==> final(self).index > old(self).index,
            r is Ok ==> r->Ok_0.text@.len() > 0,
            !special_at(
                old(self).text@,
                first_non_ws(old(self).text@, old(self).index as int),
                '>',
            ) ==> r is Err,
            quote_owed(old(self).text@, first_non_ws(old(self).text@, old(self).index as int))
                ==> (r is Ok && r->Ok_0.text@.len() > 0 && r->Ok_0.text@[0].subtext@.len() > 0
                && r->Ok_0.text@[0].subtext@[0] is Plain
                && r->Ok_0.text@[0].subtext@[0]->Plain_0.value@ == leading_plain(
                old(self).text@,
                first_non_inline_ws(
                    old(self).text@,
                    first_non_ws(old(self).text@, old(self).index as int) + 1,
                ),
            )),
            r is Err ==> final(self).index == old(self).index,
        decreases self.text@.len() - self.index, 6int,
    {
        let ghost t = self.text@;
        let start = self.index;
        self.seek_whitespace();
        let ghost w = self.index as int;
        let ghost qo = quote_owed(t, w);
        let ghost q = first_non_inline_ws(t, w + 1);
        let mut quote = Quote::new(None);
        loop
            invariant
                self.wf(),
                old(self).only_cursor_changed(*self),
                t == self.text@,
                start == old(self).index,
                start <= self.index,
                start < self.text@.len() || self.index == start,
                w == first_non_ws(t, start as int),
                qo == quote_owed(t, w),
                q == first_non_inline_ws(t, w + 1),
                !special_at(t, w, '>') ==> self.index as int == w && quote.text@.len() == 0,
                qo && quote.text@.len() == 0 ==> self.index as int == w,
                qo && quote.text@.len() > 0 ==> (quote.text@[0].subtext@.len() > 0
                    && quote.text@[0].subtext@[0] is Plain
                    && quote.text@[0].subtext@[0]->Plain_0.value@ == leading_plain(t, q)),
                quote.text@.len() > 0 ==> self.index > start,
            ensures
                self.wf(),
                old(self).only_cursor_changed(*self),
                t == self.text@,
                start <= self.index,
                start < self.text@.len() || self.index == start,
                !special_at(t, w, '>') ==> quote.text@.len() == 0,
                qo ==> (quote.text@.len() > 0 && quote.text@[0].subtext@.len() > 0
                    && quote.text@[0].subtext@[0] is Plain
                    && quote.text@[0].subtext@[0]->Plain_0.value@ == leading_plain(t, q)),
                quote.text@.len() > 0 ==> self.index > start,
            decreases self.text@.len() - self.index,
        {
            let ghost before = quote.text@;
            if !self.check_special('>') {
                proof {
                    if qo && before.len() == 0 {
                        assert(false);
                    }
                }
                break ;
            }
            if self.next_char().is_none() {
                proof {
                    if qo && before.len() == 0 {
                        assert(w + 1 < t.len());
                        assert(false);
                    }
                }
                break ;
            }
            let moved = self.check_seek_inline_whitespace();
            if !moved && !self.check_linebreak() {
                proof {
                    if qo && before.len() == 0 {
                        assert(false);
                    }
                }
                break ;
            }
            match self.parse_text() {
                Ok(text) => {
                    if text.subtext.len() > 0 {
                        quote.add_text(text);
                        proof {
                            if before.len() > 0 {
                                assert(quote.text@[0] == before[0]);
                            }
                        }
                    } else {
                        proof {
                            if qo && before.len() == 0 {
                                assert(false);
                            }
                        }
                    }
                },
                Err(_) => {
                    proof {
                        if qo && before.len() == 0 {
                            assert(false);
                        }
                    }
                    break ;
                },
            }
        }
        if quote.text.len() == 0 {
            let e = self.revert_with_error(start);
            return Err(e);
        }
        Ok(quote)
    }

    /// An import: `<![path]>`, legal only at the document's top level; a
    /// nested one fails and records an unwinding target of zero. It parses
    /// exactly when that shape (with a nonempty, linebreak-free path)
    /// stands after the leading whitespace and no section is open; the
    /// path is the delimited slice, added to the pending imports, and the
    /// anchor starts out unpublished.
    #[verifier::rlimit(100)]
    #[verifier::spinoff_prover]
    pub fn parse_import(&mut self) -> (r: Result<Import, ParseError>)
        requires
            old(self).wf(),
        ensures
            final(self).wf(),
            old(self).same_text(*final(self)),
            final(self).sections@ == old(self).sections@,
            final(self).section_nesting == old(self).section_nesting,
            final(self).paths@ == old(self).paths@,
            r is Ok <==> import_syntax_at(
                old(self).text@,
                first_non_ws(old(self).text@, old(self).index as int),
            ) && old(self).section_nesting == 0,
            r is Ok ==> import_from(
                old(self).text@,
                first_non_ws(old(self).text@, old(self).index as int),
                r->Ok_0,
            ),
            import_syntax_at(old(self).text@, first_non_ws(old(self).text@, old(self).index as int))
                && old(self).section_nesting > 0 ==> final(self).section_return == Some(0u8),
            !import_syntax_at(
                old(self).text@,
                first_non_ws(old(self).text@, old(self).index as int),
            ) ==> final(self).section_return == old(self).section_return,
            r is Ok ==> final(self).section_return == old(self).section_return,
            r is Ok ==> final(self).index > old(self).index,
            r is Ok ==> old(self).section_nesting == 0 && final(self).pending_imports@ == old(
                self,
            ).pending_imports@.push(r->Ok_0.path) && !r->Ok_0.anchor.published,
            r is Err ==> final(self).index == old(self).index && final(self).pending_imports@
                == old(self).pending_imports@,
        decreases self.text@.len() - self.index, 6int,
    {
        let ghost t = self.text@;
        let start = self.index;
        self.seek_whitespace();
        let ghost w = self.index as int;
        if !self.check_special_sequence(&['<', '!', '[']) {
            let e = self.revert_with_error(start);
            return Err(e);
        }
        self.skip_char();
        let brk: &[char] = &[']'];
        let err: &[char] = &['\n'];
        proof {
            assert(brk@ =~= seq![']']);
            assert(err@ =~= seq!['\n']);
        }
        let ghost j = import_path_end(t, w);
        let path = match self.get_string_until(brk, err) {
            Ok(p) => p,
            Err(_) => {
                proof {
                    assert(special_group_at(t, j, seq!['\n']));
                    let m = choose|m: int|
                        0 <= m < seq!['\n'].len() && seq!['\n'][m] == t[j];
                    assert(t[j] == '\n');
                }
                let e = self.revert_with_error(start);
                return Err(e);
            },
        };
        if !self.check_special(']') {
            let e = self.revert_with_error(start);
            return Err(e);
        }
        self.skip_char();
        if !self.check_special('>') {
            let e = self.revert_with_error(start);
            return Err(e);
        }
        self.skip_char();
        if path.as_str().is_empty() {
            let e = self.revert_with_error(start);
            return Err(e);
        }
        if self.section_nesting > 0 {
            self.section_return = Some(0);
            let e = self.revert_with_error(start);
            return Err(ParseError::new_with_message(e.index, "import section nesting error"));
        }
        self.seek_whitespace();
        let path_copy = path.clone();
        self.pending_imports.push(path_copy);
        Ok(Import { path, anchor: ImportAnchor::new() })
    }

    /// One block, by priority: section, list, table, code block, quote,
    /// import, placeholder, paragraph. A pending section-return unwinds
    /// before anything else is tried.
    #[verifier::rlimit(100)]
    #[verifier::spinoff_prover]
    pub fn parse_block(&mut self) -> (r: Result<Block, ParseError>)
        requires
            old(self).wf(),
        ensures
            final(self).wf(),
            old(self).same_text(*final(self)),
            final(self).sections@ == old(self).sections@,
            final(self).section_nesting == old(self).section_nesting,
            final(self).paths@ == old(self).paths@,
            r is Ok ==> final(self).index > old(self).index,
            r is Ok ==> block_wf(r->Ok_0) && block_deeper_than(
                r->Ok_0,
                old(self).section_nesting as int,
            ),
            r is Ok ==> final(self).pending_imports@ == old(self).pending_imports@
                + block_import_paths(r->Ok_0),
            r is Ok && r->Ok_0 is Import ==> old(self).section_nesting == 0,
            r is Err ==> final(self).index == old(self).index && final(self).pending_imports@
                == old(self).pending_imports@,
            old(self).section_return is Some && old(self).section_return->0 <= old(
                self,
            ).section_nesting && old(self).section_nesting > 0 ==> r is Err && *final(self)
                == *old(self),
            r is Ok && r->Ok_0 is Section ==> special_at(
                old(self).text@,
                first_non_ws(old(self).text@, old(self).index as int),
                '#',
            ),
            r is Ok && r->Ok_0 is CodeBlock ==> code_block_from(
                old(self).text@,
                first_non_ws(old(self).text@, old(self).index as int),
                r->Ok_0->CodeBlock_0,
            ),
            r is Ok && r->Ok_0 is Import ==> import_from(
                old(self).text@,
                first_non_ws(old(self).text@, old(self).index as int),
                r->Ok_0->Import_0,
            ),
            r is Ok && r->Ok_0 is Placeholder ==> placeholder_at(
                old(self).text@,
                old(self).index as int,
            ) && r->Ok_0->Placeholder_0.name@ == placeholder_name(
                old(self).text@,
                old(self).index as int,
            ),
            !(old(self).section_return is Some && old(self).section_return->0 <= old(
                self,
            ).section_nesting && old(self).section_nesting > 0) && section_owed(
                old(self).text@,
                first_non_ws(old(self).text@, old(self).index as int),
                old(self).section_nesting,
            ) ==> (r is Ok && r->Ok_0 is Section && section_from(
                old(self).text@,
                first_non_ws(old(self).text@, old(self).index as int),
                r->Ok_0->Section_0,
            )),
            !(old(self).section_return is Some && old(self).section_return->0 <= old(
                self,
            ).section_nesting && old(self).section_nesting > 0) && item_owed(
                old(self).text@,
                first_non_ws(old(self).text@, old(self).index as int),
            ) ==> (r is Ok && r->Ok_0 is List),
            !(old(self).section_return is Some && old(self).section_return->0 <= old(
                self,
            ).section_nesting && old(self).section_nesting > 0) && row_owed(
                old(self).text@,
                first_non_inline_ws(old(self).text@, old(self).index as int),
            ) ==> (r is Ok && r->Ok_0 is Table),
            !(old(self).section_return is Some && old(self).section_return->0 <= old(
                self,
            ).section_nesting && old(self).section_nesting > 0) && seq_matches(
                old(self).text@,
                first_non_ws(old(self).text@, old(self).index as int),
                seq!['`', '`', '`'],
            ) ==> (r is Ok && r->Ok_0 is CodeBlock),
            !(old(self).section_return is Some && old(self).section_return->0 <= old(
                self,
            ).section_nesting && old(self).section_nesting > 0) && quote_owed(
                old(self).text@,
                first_non_ws(old(self).text@, old(self).index as int),
            ) ==> (r is Ok && r->Ok_0 is Quote),
            !(old(self).section_return is Some && old(self).section_return->0 <= old(
                self,
            ).section_nesting && old(self).section_nesting > 0) && import_syntax_at(
                old(self).text@,
                first_non_ws(old(self).text@, old(self).index as int),
            ) && old(self).section_nesting == 0 ==> (r is Ok && r->Ok_0 is Import),
            !(old(self).section_return is Some && old(self).section_return->0 <= old(
                self,
            ).section_nesting && old(self).section_nesting > 0) && placeholder_at(old(self).text@, old(self).index as int) ==> (r is Ok
                && r->Ok_0 is Placeholder),
            plain_block_start(old(self).text@, old(self).index as int) && !(old(
                self,
            ).section_return is Some && old(self).section_return->0 <= old(self).section_nesting
                && old(self).section_nesting > 0) ==> (r is Ok && r->Ok_0 is Paragraph
                && paragraph_from(
                old(self).text@,
                old(self).index as int,
                r->Ok_0->Paragraph_0,
            )),
        decreases self.text@.len() - self.index, 10int,
    {
        proof {
            let t = old(self).text@;
            let i0 = old(self).index as int;
            let w = first_non_ws(t, i0);
            let b = first_non_inline_ws(t, i0);
            if item_owed(t, w) {
                let m = choose|m: int|
                    0 <= m < seq!['-', '*', '+'].len() && seq!['-', '*', '+'][m] == t[w];
                assert(t[w] == '-' || t[w] == '*' || t[w] == '+');
            }
            if row_owed(t, b) {
                assert(t[b] == '|');
                assert(!is_ws(t[b]));
                crate::parser::lemma_seeks_agree(t, i0);
                assert(t[w] == '|');
            }
            if seq_matches(t, w, seq!['`', '`', '`']) {
                assert(t.subrange(w, w + 3)[0] == t[w]);
            }
            if import_syntax_at(t, w) {
                assert(t.subrange(w, w + 3)[0] == t[w]);
            }
            if placeholder_at(t, i0) {
                assert(t.subrange(i0, i0 + 2)[0] == t[i0]);
                assert(first_non_ws(t, i0) == i0);
            }
        }
        match self.section_return {
            Some(s) => {
                if s <= self.section_nesting && self.section_nesting > 0 {
                    return Err(ParseError::new_with_message(self.index, "invalid section nesting"));
                } else {
                    self.section_return = None;
                }
            },
            None => {},
        }
        match self.parse_section() {
            Ok(section) => {
                proof {
                    assert(block_import_paths(Block::Section(section)) =~= Seq::<String>::empty());
                }
                return Ok(Block::Section(section));
            },
            Err(_) => {},
        }
        if self.section_return.is_some() {
            return Err(ParseError::new(self.index));
        }
        self.parse_block_rest()
    }

    /// The block alternatives below sections, in priority order.
    #[verifier::rlimit(100)]
    #[verifier::spinoff_prover]
    fn parse_block_rest(&mut self) -> (r: Result<Block, ParseError>)
        requires
            old(self).wf(),
        ensures
            final(self).wf(),
            old(self).same_text(*final(self)),
            final(self).sections@ == old(self).sections@,
            final(self).section_nesting == old(self).section_nesting,
            final(self).paths@ == old(self).paths@,
            r is Ok ==> final(self).index > old(self).index,
            r is Ok ==> block_wf(r->Ok_0) && block_deeper_than(
                r->Ok_0,
                old(self).section_nesting as int,
            ),
            r is Ok ==> final(self).pending_imports@ == old(self).pending_imports@
                + block_import_paths(r->Ok_0),
            r is Ok && r->Ok_0 is Import ==> old(self).section_nesting == 0,
            r is Err ==> final(self).index == old(self).index && final(self).pending_imports@
                == old(self).pending_imports@,
            r is Ok ==> !(r->Ok_0 is Section),
            r is Ok && r->Ok_0 is CodeBlock ==> code_block_from(
                old(self).text@,
                first_non_ws(old(self).text@, old(self).index as int),
                r->Ok_0->CodeBlock_0,
            ),
            r is Ok && r->Ok_0 is Import ==> import_from(
                old(self).text@,
                first_non_ws(old(self).text@, old(self).index as int),
                r->Ok_0->Import_0,
            ),
            r is Ok && r->Ok_0 is Placeholder ==> placeholder_at(
                old(self).text@,
                old(self).index as int,
            ) && r->Ok_0->Placeholder_0.name@ == placeholder_name(
                old(self).text@,
                old(self).index as int,
            ),
            item_owed(old(self).text@, first_non_ws(old(self).text@, old(self).index as int))
                ==> (r is Ok && r->Ok_0 is List),
            row_owed(old(self).text@, first_non_inline_ws(old(self).text@, old(self).index as int))
                ==> (r is Ok && r->Ok_0 is Table),
            seq_matches(
                old(self).text@,
                first_non_ws(old(self).text@, old(self).index as int),
                seq!['`', '`', '`'],
            ) ==> (r is Ok && r->Ok_0 is CodeBlock),
            quote_owed(old(self).text@, first_non_ws(old(self).text@, old(self).index as int))
                ==> (r is Ok && r->Ok_0 is Quote),
            import_syntax_at(
                old(self).text@,
                first_non_ws(old(self).text@, old(self).index as int),
            ) && old(self).section_nesting == 0 ==> (r is Ok && r->Ok_0 is Import),
            placeholder_at(old(self).text@, old(self).index as int) && old(self).section_return
                is None ==> (r is Ok && r->Ok_0 is Placeholder),
            plain_block_start(old(self).text@, old(self).index as int) && old(self).section_return
                is None ==> (r is Ok && r->Ok_0 is Paragraph && paragraph_from(
                old(self).text@,
                old(self).index as int,
                r->Ok_0->Paragraph_0,
            )),
        decreases self.text@.len() - self.index, 9int,
    {
        proof {
            let t = old(self).text@;
            let i0 = old(self).index as int;
            let w = first_non_ws(t, i0);
            let b = first_non_inline_ws(t, i0);
            if plain_block_start(t, i0) {
                assert(first_non_ws(t, i0) == i0);
                assert(first_non_inline_ws(t, i0) == i0);
            }
            if row_owed(t, b) {
                assert(t[b] == '|');
                assert(!is_ws(t[b]));
                crate::parser::lemma_seeks_agree(t, i0);
                lemma_not_in_bullets('|');
                lemma_not_in_digits('|');
            }
            if seq_matches(t, w, seq!['`', '`', '`']) {
                assert(t.subrange(w, w + 3)[0] == t[w]);
                lemma_excludes_list_and_row(t, i0, '`');
            }
            if quote_owed(t, w) {
                lemma_excludes_list_and_row(t, i0, '>');
            }
            if import_syntax_at(t, w) {
                assert(t.subrange(w, w + 3)[0] == t[w]);
                lemma_excludes_list_and_row(t, i0, '<');
            }
            if placeholder_at(t, i0) {
                assert(t.subrange(i0, i0 + 2)[0] == t[i0]);
                assert(first_non_ws(t, i0) == i0);
                lemma_excludes_list_and_row(t, i0, '[');
            }
        }
        match self.parse_list() {
            Ok(list) => {
                proof {
                    assert(block_import_paths(Block::List(list)) =~= Seq::<String>::empty());
                }
                return Ok(Block::List(list));
            },
            Err(_) => {},
        }
        match self.parse_table() {
            Ok(table) => {
                proof {
                    assert(block_import_paths(Block::Table(table)) =~= Seq::<String>::empty());
                }
                return Ok(Block::Table(table));
            },
            Err(_) => {},
        }
        self.parse_block_mid()
    }

    /// The middle block alternatives: code block, then quote.
    #[verifier::rlimit(100)]
    #[verifier::spinoff_prover]
    fn parse_block_mid(&mut self) -> (r: Result<Block, ParseError>)
        requires
            old(self).wf(),
        ensures
            final(self).wf(),
            old(self).same_text(*final(self)),
            final(self).sections@ == old(self).sections@,
            final(self).section_nesting == old(self).section_nesting,
            final(self).paths@ == old(self).paths@,
            r is Ok ==> final(self).index > old(self).index,
            r is Ok ==> block_wf(r->Ok_0) && block_deeper_than(
                r->Ok_0,
                old(self).section_nesting as int,
            ),
            r is Ok ==> final(self).pending_imports@ == old(self).pending_imports@
                + block_import_paths(r->Ok_0),
            r is Ok && r->Ok_0 is Import ==> old(self).section_nesting == 0,
            r is Err ==> final(self).index == old(self).index && final(self).pending_imports@
                == old(self).pending_imports@,
            r is Ok ==> !(r->Ok_0 is Section),
            r is Ok && r->Ok_0 is CodeBlock ==> code_block_from(
                old(self).text@,
                first_non_ws(old(self).text@, old(self).index as int),
                r->Ok_0->CodeBlock_0,
            ),
            r is Ok && r->Ok_0 is Import ==> import_from(
                old(self).text@,
                first_non_ws(old(self).text@, old(self).index as int),
                r->Ok_0->Import_0,
            ),
            r is Ok && r->Ok_0 is Placeholder ==> placeholder_at(
                old(self).text@,
                old(self).index as int,
            ) && r->Ok_0->Placeholder_0.name@ == placeholder_name(
                old(self).text@,
                old(self).index as int,
            ),
            seq_matches(
                old(self).text@,
                first_non_ws(old(self).text@, old(self).index as int),
                seq!['`', '`', '`'],
            ) ==> (r is Ok && r->Ok_0 is CodeBlock),
            quote_owed(old(self).text@, first_non_ws(old(self).text@, old(self).index as int))
                ==> (r is Ok && r->Ok_0 is Quote),
            import_syntax_at(
                old(self).text@,
                first_non_ws(old(self).text@, old(self).index as int),
            ) && old(self).section_nesting == 0 ==> (r is Ok && r->Ok_0 is Import),
            placeholder_at(old(self).text@, old(self).index as int) && old(self).section_return
                is None ==> (r is Ok && r->Ok_0 is Placeholder),
            plain_block_start(old(self).text@, old(self).index as int) && old(self).section_return
                is None ==> (r is Ok && r->Ok_0 is Paragraph && paragraph_from(
                old(self).text@,
                old(self).index as int,
                r->Ok_0->Paragraph_0,
            )),
        decreases self.text@.len() - self.index, 8int,
    {
        proof {
            if plain_block_start(old(self).text@, old(self).index as int) {
                assert(first_non_ws(old(self).text@, old(self).index as int) == old(self).index);
            }
        }
        match self.parse_code_block() {
            Ok(code) => {
                proof {
                    assert(block_import_paths(Block::CodeBlock(code)) =~= Seq::<String>::empty());
                }
                return Ok(Block::CodeBlock(code));
            },
            Err(_) => {},
        }
        match self.parse_quote() {
            Ok(quote) => {
                proof {
                    assert(block_import_paths(Block::Quote(quote)) =~= Seq::<String>::empty());
                }
                return Ok(Block::Quote(quote));
            },
            Err(_) => {},
        }
        self.parse_block_tail()
    }

    /// The last block alternatives: import, placeholder, paragraph.
    #[verifier::rlimit(100)]
    #[verifier::spinoff_prover]
    fn parse_block_tail(&mut self) -> (r: Result<Block, ParseError>)
        requires
            old(self).wf(),
        ensures
            final(self).wf(),
            old(self).same_text(*final(self)),
            final(self).sections@ == old(self).sections@,
            final(self).section_nesting == old(self).section_nesting,
            final(self).paths@ == old(self).paths@,
            r is Ok ==> final(self).index > old(self).index,
            r is Ok ==> block_wf(r->Ok_0) && block_deeper_than(
                r->Ok_0,
                old(self).section_nesting as int,
            ),
            r is Ok ==> final(self).pending_imports@ == old(self).pending_imports@
                + block_import_paths(r->Ok_0),
            r is Ok && r->Ok_0 is Import ==> old(self).section_nesting == 0,
            r is Err ==> final(self).index == old(self).index && final(self).pending_imports@
                == old(self).pending_imports@,
            r is Ok ==> !(r->Ok_0 is Section),
            r is Ok && r->Ok_0 is CodeBlock ==> code_block_from(
                old(self).text@,
                first_non_ws(old(self).text@, old(self).index as int),
                r->Ok_0->CodeBlock_0,
            ),
            r is Ok && r->Ok_0 is Import ==> import_from(
                old(self).text@,
                first_non_ws(old(self).text@, old(self).index as int),
                r->Ok_0->Import_0,
            ),
            r is Ok && r->Ok_0 is Placeholder ==> placeholder_at(
                old(self).text@,
                old(self).index as int,
            ) && r->Ok_0->Placeholder_0.name@ == placeholder_name(
                old(self).text@,
                old(self).index as int,
            ),
            import_syntax_at(
                old(self).text@,
                first_non_ws(old(self).text@, old(self).index as int),
            ) && old(self).section_nesting == 0 ==> (r is Ok && r->Ok_0 is Import),
            placeholder_at(old(self).text@, old(self).index as int) && old(self).section_return
                is None ==> (r is Ok && r->Ok_0 is Placeholder),
            plain_block_start(old(self).text@, old(self).index as int) && old(self).section_return
                is None ==> (r is Ok && r->Ok_0 is Paragraph && paragraph_from(
                old(self).text@,
                old(self).index as int,
                r->Ok_0->Paragraph_0,
            )),
        decreases self.text@.len() - self.index, 7int,
    {
        proof {
            let t = old(self).text@;
            let i0 = old(self).index as int;
            if plain_block_start(t, i0) {
                assert(first_non_ws(t, i0) == i0);
                if seq_matches(t, i0, seq!['<', '!', '[']) {
                    assert(t.subrange(i0, i0 + 3)[0] == t[i0]);
                    assert(crate::parser::special_at(t, i0, '<'));
                }
                if seq_matches(t, i0, seq!['[', '[']) {
                    assert(t.subrange(i0, i0 + 2)[0] == t[i0]);
                    assert(crate::inline::opener_at(t, i0));
                }
            }
        }
        match self.parse_import() {
            Ok(import) => {
                proof {
                    assert(old(self).pending_imports@ + block_import_paths(Block::Import(import))
                        =~= old(self).pending_imports@.push(import.path));
                }
                return Ok(Block::Import(import));
            },
            Err(_) => {},
        }
        if self.section_return.is_some() {
            return Err(ParseError::new(self.index));
        }
        match self.parse_placeholder() {
            Ok(ph) => {
                proof {
                    assert(block_import_paths(Block::Placeholder(ph)) =~= Seq::<String>::empty());
                }
                return Ok(Block::Placeholder(ph));
            },
            Err(_) => {},
        }
        match self.parse_paragraph() {
            Ok(paragraph) => {
                proof {
                    assert(block_import_paths(Block::Paragraph(paragraph)) =~= Seq::<
                        String,
                    >::empty());
                }
                return Ok(Block::Paragraph(paragraph));
            },
            Err(_) => {},
        }
        Err(ParseError::new(self.index))
    }
}

/// Drops trailing inline whitespace from the last plain piece of a cell's
/// line (the piece goes away entirely when nothing of it remains); a line
/// not ending in plain text is untouched.
fn trim_textline_end(text: &mut crate::elements::TextLine)
    ensures
        old(text).subtext@.len() == 0 ==> final(text).subtext@ == old(text).subtext@,
        old(text).subtext@.len() > 0 && !(old(text).subtext@.last() is Plain)
            ==> final(text).subtext@ == old(text).subtext@,
        old(text).subtext@.len() > 0 && old(text).subtext@.last() is Plain ==> ((
        final(text).subtext@.len() == old(text).subtext@.len() && final(text).subtext@.drop_last()
            == old(text).subtext@.drop_last() && final(text).subtext@.last() is Plain
            && final(text).subtext@.last()->Plain_0.value@ == trim_end_ws_spec(
            old(text).subtext@.last()->Plain_0.value@,
        )) || (final(text).subtext@ == old(text).subtext@.drop_last() && trim_end_ws_spec(
            old(text).subtext@.last()->Plain_0.value@,
        ).len() == 0)),
{
    let n = text.subtext.len();
    if n == 0 {
        return ;
    }
    let is_plain = match &text.subtext[n - 1] {
        crate::elements::Inline::Plain(_) => true,
        _ => false,
    };
    if !is_plain {
        return ;
    }
    let last = text.subtext.pop();
    match last {
        Some(crate::elements::Inline::Plain(p)) => {
            let trimmed = trim_end_ws(&p.value);
            if !trimmed.as_str().is_empty() {
                text.subtext.push(
                    crate::elements::Inline::Plain(crate::elements::PlainText { value: trimmed }),
                );
            }
        },
        Some(other) => {
            text.subtext.push(other);
        },
        None => {},
    }
}

/// The string without its final linebreak, if it ends in one: a code
/// block's body ends where the closing fence's line begins.
fn strip_trailing_lb(s: String) -> (r: String)
    ensures
        r@ == without_final_lb(s@),
{
    let cs = crate::numfmt::str_chars_vec(s.as_str());
    if cs.len() > 0 && cs[cs.len() - 1] == '\n' {
        let mut r = String::new();
        let mut k: usize = 0;
        while k < cs.len() - 1
            invariant
                k < cs@.len(),
                cs@ == s@,
                r@ == s@.subrange(0, k as int),
            decreases cs@.len() - k,
        {
            push_char(&mut r, cs[k]);
            proof {
                assert(s@.subrange(0, k + 1) =~= s@.subrange(0, k as int).push(s@[k as int]));
            }
            k = k + 1;
        }
        proof {
            assert(s@.subrange(0, s@.len() - 1) =~= s@.drop_last());
        }
        r
    } else {
        s
    }
}

/// The string without its trailing spaces and tabs.
fn trim_end_ws(s: &String) -> (r: String)
    ensures
        r@ == trim_end_ws_spec(s@),
{
    let cs = crate::numfmt::str_chars_vec(s.as_str());
    let mut end = cs.len();
    proof {
        assert(s@.subrange(0, s@.len() as int) =~= s@);
    }
    while end > 0 && (cs[end - 1] == ' ' || cs[end - 1] == '\t')
        invariant
            end <= cs@.len(),
            cs@ == s@,
            trim_end_ws_spec(s@) == trim_end_ws_spec(s@.subrange(0, end as int)),
        decreases end,
    {
        proof {
            assert(s@.subrange(0, end as int).drop_last() =~= s@.subrange(0, end - 1));
        }
        end = end - 1;
    }
    let mut r = String::new();
    let mut k: usize = 0;
    while k < end
        invariant
            k <= end <= cs@.len(),
            cs@ == s@,
            trim_end_ws_spec(s@) == trim_end_ws_spec(s@.subrange(0, end as int)),
            end > 0 ==> !(s@[end - 1] == ' ' || s@[end - 1] == '\t'),
            r@ == s@.subrange(0, k as int),
        decreases end - k,
    {
        push_char(&mut r, cs[k]);
        proof {
            assert(s@.subrange(0, k + 1) =~= s@.subrange(0, k as int).push(s@[k as int]));
        }
        k = k + 1;
    }
    proof {
        if end > 0 {
            assert(trim_end_ws_spec(s@.subrange(0, end as int)) =~= s@.subrange(0, end as int));
        } else {
            assert(trim_end_ws_spec(s@.subrange(0, 0)) =~= s@.subrange(0, 0));
        }
    }
    r
}

/// The sequence without its trailing spaces and tabs.
pub open spec fn trim_end_ws_spec(s: Seq<char>) -> Seq<char>
    decreases s.len(),
{
    if s.len() > 0 && (s.last() == ' ' || s.last() == '\t') {
        trim_end_ws_spec(s.drop_last())
    } else {
        s
    }
}

} // verus!
