//! Tests for footnote/endnote detection over the document tree.

use loki_layout::note_scan::{
    BlockNode, InlineNode, block_has_note, changed_region_has_note, document_has_notes,
    inlines_have_note, table_has_note,
};

fn para(inlines: Vec<InlineNode>) -> BlockNode {
    BlockNode::Inlines(inlines)
}

fn plain() -> BlockNode {
    para(vec![InlineNode::Leaf, InlineNode::Container(vec![InlineNode::Leaf])])
}

fn noted() -> BlockNode {
    para(vec![InlineNode::Leaf, InlineNode::Container(vec![InlineNode::Container(vec![InlineNode::Note])])])
}

#[test]
fn a_note_nested_in_formatting_is_found() {
    assert!(block_has_note(&noted()));
    assert!(!block_has_note(&plain()));
    assert!(inlines_have_note(&vec![InlineNode::Note]));
    assert!(!inlines_have_note(&vec![]));
}

#[test]
fn notes_inside_lists_quotes_lines_and_tables_are_found() {
    assert!(block_has_note(&BlockNode::List(vec![vec![plain()], vec![plain(), noted()]])));
    assert!(block_has_note(&BlockNode::Nested(vec![BlockNode::Nested(vec![noted()])])));
    assert!(block_has_note(&BlockNode::Lines(vec![vec![], vec![InlineNode::Note]])));
    assert!(!block_has_note(&BlockNode::Lines(vec![vec![InlineNode::Leaf]])));
    let table = vec![vec![vec![plain()], vec![]], vec![vec![plain(), noted()]]];
    assert!(table_has_note(&table));
    assert!(block_has_note(&BlockNode::Table(table)));
    assert!(!block_has_note(&BlockNode::Table(vec![vec![vec![plain()]]])));
    assert!(!block_has_note(&BlockNode::Leaf));
}

#[test]
fn a_document_has_notes_when_any_section_does() {
    assert!(!document_has_notes(&vec![vec![plain()], vec![]]));
    assert!(document_has_notes(&vec![vec![plain()], vec![plain(), noted()]]));
}

#[test]
fn only_the_changed_region_is_scanned() {
    let blocks = vec![noted(), plain(), plain(), noted()];
    assert!(!changed_region_has_note(&blocks, 1, 1));
    assert!(changed_region_has_note(&blocks, 0, 1));
    assert!(changed_region_has_note(&blocks, 1, 0));
    assert!(!changed_region_has_note(&blocks, 2, 2));
}
