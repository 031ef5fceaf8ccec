use symboltree::node::{check_wf, NodeKind, SyntaxNode};
use symboltree::scanner::scan;
use symboltree::utils::GetStringFromNode;

fn make_leaf(kind: NodeKind, start: usize, end: usize) -> SyntaxNode {
    SyntaxNode { kind, start_byte: start, end_byte: end, start_row: 0, is_error: false, children: Vec::new() }
}

fn make_parent(kind: NodeKind, start: usize, end: usize, children: Vec<SyntaxNode>) -> SyntaxNode {
    SyntaxNode { kind, start_byte: start, end_byte: end, start_row: 0, is_error: false, children }
}

#[test]
fn get_string_reads_the_span() {
    let code = "hello".to_string();
    let n = make_leaf(NodeKind::Identifier, 1, 3);
    assert_eq!(n.get_string(&code), "el");
}

#[test]
fn get_string_clamps_to_the_text() {
    let code = "hello".to_string();
    let past_end = make_leaf(NodeKind::Identifier, 10, 20);
    assert_eq!(past_end.get_string(&code), "");
    let across_end = make_leaf(NodeKind::Identifier, 3, 10);
    assert_eq!(across_end.get_string(&code), "lo");
    let whole = make_leaf(NodeKind::Identifier, 0, 5);
    assert_eq!(whole.get_string(&code), "hello");
}

#[test]
fn check_wf_accepts_forward_spans() {
    let tree = make_parent(
        NodeKind::Module,
        0,
        9,
        vec![make_leaf(NodeKind::Other, 0, 4), make_leaf(NodeKind::Identifier, 5, 9)],
    );
    assert!(check_wf(&tree));
}

#[test]
fn check_wf_rejects_backwards_span() {
    let bad_child = make_leaf(NodeKind::Other, 7, 2);
    let tree = make_parent(NodeKind::Module, 0, 9, vec![bad_child]);
    assert!(!check_wf(&tree));
}

#[test]
fn scan_finds_nothing_in_a_clean_tree() {
    let code = "a b".to_string();
    let tree = make_parent(
        NodeKind::Module,
        0,
        3,
        vec![make_leaf(NodeKind::Identifier, 0, 1), make_leaf(NodeKind::Identifier, 2, 3)],
    );
    assert!(scan(&tree, &code).is_none());
}

#[test]
fn scan_reports_the_first_error_depth_first() {
    let code = "ab\ncd".to_string();
    let mut deep_error = make_leaf(NodeKind::Other, 1, 2);
    deep_error.is_error = true;
    deep_error.start_row = 0;
    let wrapper = make_parent(NodeKind::Other, 0, 2, vec![deep_error]);
    let mut later_error = make_leaf(NodeKind::Other, 3, 5);
    later_error.is_error = true;
    later_error.start_row = 1;
    let tree = make_parent(NodeKind::Module, 0, 5, vec![wrapper, later_error]);
    let loc = scan(&tree, &code).expect("expected an error location");
    assert_eq!(loc.line, 1);
    assert_eq!(loc.text, "b");
}

#[test]
fn scan_reports_the_spanned_text() {
    let code = "x = ???".to_string();
    let mut bad = make_leaf(NodeKind::Other, 4, 7);
    bad.is_error = true;
    bad.start_row = 0;
    let tree = make_parent(NodeKind::Module, 0, 7, vec![make_leaf(NodeKind::Identifier, 0, 1), bad]);
    let loc = scan(&tree, &code).expect("expected an error location");
    assert_eq!(loc.line, 1);
    assert_eq!(loc.text, "???");
}
