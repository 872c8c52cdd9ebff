//! Unit tests of the cursor, the escape logic, the import bookkeeping and
//! the number formatting.

use snekdown::document::{claim_path, publish_all, transform_path};
use snekdown::elements::Block;
use snekdown::numfmt::{i64_to_string, u64_to_string};
use snekdown::parser::{ParseError, Parser};
use snekdown::render::ToHtml;

#[test]
fn cursor_revert_restores_position_and_char() {
    let mut p = Parser::new("abc".to_string(), None);
    assert_eq!(p.index, 0);
    assert_eq!(p.current_char, 'a');
    let saved = p.index;
    assert_eq!(p.next_char(), Some('b'));
    assert_eq!(p.next_char(), Some('c'));
    assert!(p.revert_to(saved).is_ok());
    assert_eq!(p.index, saved);
    assert_eq!(p.current_char, 'a');
    let mid = 1;
    assert!(p.revert_to(mid).is_ok());
    assert_eq!(p.index, 1);
    assert_eq!(p.current_char, 'b');
}

#[test]
fn cursor_revert_out_of_range_fails() {
    let mut p = Parser::new("ab".to_string(), None);
    let r = p.revert_to(7);
    assert!(r.is_err());
    assert_eq!(p.index, 0);
}

#[test]
fn escape_parity() {
    // in `a\\\*`, the asterisk is escaped (one effective backslash)
    let mut p = Parser::new("a\\\\\\*".to_string(), None);
    // index 4 is the asterisk: backslashes at 1,2,3; the run has odd length
    while p.index < 4 {
        p.next_char();
    }
    assert!(p.check_escaped());
    assert!(!p.check_special('*'));
}

#[test]
fn double_backslash_does_not_escape() {
    let mut p = Parser::new("\\\\*i*".to_string(), None);
    while p.index < 2 {
        p.next_char();
    }
    // two backslashes cancel out: the asterisk at index 2 is special
    assert!(!p.check_escaped());
    assert!(p.check_special('*'));
}

#[test]
fn claim_path_claims_once() {
    let mut seen: Vec<String> = Vec::new();
    let a = "a.md".to_string();
    assert!(claim_path(&mut seen, &a));
    assert!(!claim_path(&mut seen, &a));
    let b = "b.md".to_string();
    assert!(claim_path(&mut seen, &b));
    assert!(!claim_path(&mut seen, &b));
    assert_eq!(seen.len(), 2);
}

#[test]
fn transform_path_rules() {
    assert_eq!(transform_path(&None, &"x.md".to_string()), "x.md");
    assert_eq!(transform_path(&Some("dir/sub/doc.md".to_string()), &"x.md".to_string()), "dir/sub/x.md");
    assert_eq!(transform_path(&Some("doc.md".to_string()), &"x.md".to_string()), "x.md");
    assert_eq!(transform_path(&Some("dir/doc.md".to_string()), &"/abs.md".to_string()), "/abs.md");
}

#[test]
fn imports_are_recorded_and_published() {
    let mut parser = Parser::new("<![a.md]>\n<![b.md]>".to_string(), None);
    let doc = parser.parse();
    let pending = parser.import_paths();
    assert_eq!(pending, vec!["a.md".to_string(), "b.md".to_string()]);
    assert_eq!(doc.elements.len(), 2);

    let mut child_parser = Parser::child("child text".to_string(), "a.md".to_string(), Vec::new());
    let child = child_parser.parse();
    assert!(!child.is_root);

    let published = publish_all(doc, vec![Some(child), None]);
    for b in &published.elements {
        match b {
            Block::Import(im) => assert!(im.anchor.published),
            _ => panic!("expected only import blocks"),
        }
    }
    let mut root = published;
    root.is_root = false;
    let html = root.to_html();
    assert!(html.contains("child text"), "got: {}", html);
    assert!(html.contains("path='a&#x2E;md'"), "got: {}", html);
}

#[test]
fn failed_import_renders_empty() {
    let mut parser = Parser::new("<![missing.md]>".to_string(), None);
    let doc = parser.parse();
    let mut published = publish_all(doc, vec![None]);
    published.is_root = false;
    assert_eq!(published.to_html(), "<div class='documentImport' document-import=true ></div>");
}

#[test]
fn import_inside_section_unwinds_to_root() {
    let mut parser = Parser::new("# T\n<![a.md]>".to_string(), None);
    let doc = parser.parse();
    // the import failed inside the section, the section closed, and the
    // import was taken again at the document's top level
    assert_eq!(parser.import_paths(), vec!["a.md".to_string()]);
    assert_eq!(doc.elements.len(), 2);
    assert!(matches!(doc.elements[0], Block::Section(_)));
    assert!(matches!(doc.elements[1], Block::Import(_)));
}

#[test]
fn decimal_rendering() {
    assert_eq!(u64_to_string(0), "0");
    assert_eq!(u64_to_string(7), "7");
    assert_eq!(u64_to_string(1234), "1234");
    assert_eq!(i64_to_string(-45), "-45");
    assert_eq!(i64_to_string(45), "45");
}

#[test]
fn parse_error_fields() {
    let e = ParseError::new(12);
    assert_eq!(e.index, 12);
    assert!(e.message.is_none());
    assert!(!e.eof);
    let m = ParseError::new_with_message(3, "bad");
    assert_eq!(m.message.as_deref(), Some("bad"));
}

#[test]
fn get_string_until_stops_and_reverts() {
    let mut p = Parser::new("abc|def\n".to_string(), None);
    let s = p.get_string_until(&['|'], &[]).unwrap();
    assert_eq!(s, "abc");
    assert_eq!(p.current_char, '|');
    let start = p.index;
    let r = p.get_string_until(&['\n'], &['d']);
    assert!(r.is_err());
    assert_eq!(p.index, start);
}

#[test]
fn sequence_check_moves_to_last_char() {
    let mut p = Parser::new("```rust\n".to_string(), None);
    assert!(p.check_special_sequence(&['`', '`', '`']));
    assert_eq!(p.index, 2);
    assert!(!p.check_special_sequence(&['x', 'y']));
    assert_eq!(p.index, 2);
}

#[test]
fn partial_document_on_malformed_tail() {
    // a construct that opens nothing parseable truncates the document there
    let mut parser = Parser::new("fine text\n\n| |".to_string(), None);
    let mut doc = parser.parse();
    doc.is_root = false;
    let html = doc.to_html();
    assert!(html.contains("fine text"), "got: {}", html);
}

#[test]
fn error_position_line_and_column() {
    let e = ParseError::new(4);
    assert_eq!(e.get_position("ab\ncd"), Some((2, 2)));
    let at_break = ParseError::new(2);
    assert_eq!(at_break.get_position("ab\ncd"), Some((1, 3)));
    let out = ParseError::new(10);
    assert_eq!(out.get_position("ab\ncd"), None);
}
