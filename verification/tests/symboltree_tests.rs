use symboltree::node::{NodeKind, SyntaxNode};
use symboltree::symboltree::{
    get_all_block_identifiers, SymbolTree, SymbolTreeEntry, SymbolTreeError, SymbolTreeType,
};

fn leaf(kind: NodeKind, start: usize, end: usize) -> SyntaxNode {
    SyntaxNode { kind, start_byte: start, end_byte: end, start_row: 0, is_error: false, children: Vec::new() }
}

fn parent(kind: NodeKind, start: usize, end: usize, children: Vec<SyntaxNode>) -> SyntaxNode {
    SyntaxNode { kind, start_byte: start, end_byte: end, start_row: 0, is_error: false, children }
}

fn sorted(v: &[String]) -> Vec<String> {
    let mut s: Vec<String> = v.to_vec();
    s.sort();
    s
}

fn build(root: &SyntaxNode, code: &str) -> SymbolTree {
    SymbolTree::from_ast(root, &code.to_string(), "main.py".to_string()).expect("expected a symbol tree")
}

/// Asserts `has_children == (symbols.len() > 0)` on this entry and below.
fn assert_children_consistent(entry: &SymbolTreeEntry) {
    assert_eq!(entry.has_children, !entry.symbols.is_empty());
    for child in &entry.symbols {
        assert_children_consistent(child);
    }
}

/// The tree for `def outer():\n    def inner():\n        return 1\n    return inner()`.
fn outer_inner_tree() -> (SyntaxNode, String) {
    let code = "def outer():\n    def inner():\n        return 1\n    return inner()".to_string();
    let inner_body = parent(
        NodeKind::Block,
        38,
        46,
        vec![parent(
            NodeKind::Other,
            38,
            46,
            vec![leaf(NodeKind::Other, 38, 44), leaf(NodeKind::Other, 45, 46)],
        )],
    );
    let inner_def = parent(
        NodeKind::FunctionDefinition,
        17,
        46,
        vec![
            leaf(NodeKind::Other, 17, 20),
            leaf(NodeKind::Identifier, 21, 26),
            parent(NodeKind::Other, 26, 28, Vec::new()),
            leaf(NodeKind::Other, 28, 29),
            inner_body,
        ],
    );
    let outer_return = parent(
        NodeKind::Other,
        51,
        65,
        vec![
            leaf(NodeKind::Other, 51, 57),
            parent(
                NodeKind::Other,
                58,
                65,
                vec![leaf(NodeKind::Identifier, 58, 63), leaf(NodeKind::Other, 63, 65)],
            ),
        ],
    );
    let outer_body = parent(NodeKind::Block, 17, 65, vec![inner_def, outer_return]);
    let outer_def = parent(
        NodeKind::FunctionDefinition,
        0,
        65,
        vec![
            leaf(NodeKind::Other, 0, 3),
            leaf(NodeKind::Identifier, 4, 9),
            parent(NodeKind::Other, 9, 11, Vec::new()),
            leaf(NodeKind::Other, 11, 12),
            outer_body,
        ],
    );
    (parent(NodeKind::Module, 0, 65, vec![outer_def]), code)
}

#[test]
fn module_with_no_definitions_has_no_symbols() {
    let code = "x = 1";
    let stmt = parent(
        NodeKind::Other,
        0,
        5,
        vec![
            leaf(NodeKind::Identifier, 0, 1),
            leaf(NodeKind::Other, 2, 3),
            leaf(NodeKind::Other, 4, 5),
        ],
    );
    let root = parent(NodeKind::Module, 0, 5, vec![stmt]);
    let tree = build(&root, code);
    assert!(tree.module_entry.symbols.is_empty());
    assert!(!tree.module_entry.has_children);
    assert_eq!(sorted(&tree.module_entry.identifiers), vec!["x".to_string()]);
}

#[test]
fn module_entry_shape() {
    let root = parent(NodeKind::Module, 0, 0, Vec::new());
    let tree = build(&root, "");
    assert_eq!(tree.filename, "main.py");
    assert_eq!(tree.module_entry.symbol_name, "MODULE");
    assert!(matches!(tree.module_entry.symbol_type, SymbolTreeType::Module));
    assert!(!tree.module_entry.nested);
    assert!(!tree.module_entry.has_children);
    assert!(tree.module_entry.identifiers.is_empty());
    assert!(tree.module_entry.symbols.is_empty());
}

#[test]
fn children_consistency_holds_recursively() {
    let (root, code) = outer_inner_tree();
    let tree = build(&root, &code);
    assert_children_consistent(&tree.module_entry);
}

#[test]
fn nested_function_scenario() {
    let (root, code) = outer_inner_tree();
    let tree = build(&root, &code);
    assert_eq!(sorted(&tree.module_entry.identifiers), vec!["outer".to_string()]);
    assert_eq!(tree.module_entry.symbols.len(), 1);
    assert!(tree.module_entry.has_children);
    let outer = &tree.module_entry.symbols[0];
    assert_eq!(outer.symbol_name, "outer");
    assert!(matches!(outer.symbol_type, SymbolTreeType::Function));
    assert!(!outer.nested);
    assert!(outer.has_children);
    assert_eq!(sorted(&outer.identifiers), vec!["inner".to_string()]);
    assert_eq!(outer.symbols.len(), 1);
    let inner = &outer.symbols[0];
    assert_eq!(inner.symbol_name, "inner");
    assert!(matches!(inner.symbol_type, SymbolTreeType::Function));
    assert!(inner.nested);
    assert!(!inner.has_children);
    assert!(inner.identifiers.is_empty());
    assert!(inner.symbols.is_empty());
}

#[test]
fn function_merges_parameter_and_body_identifiers() {
    // def f(x=1): return x + y
    let code = "def f(x=1): return x + y";
    let params = parent(
        NodeKind::Other,
        5,
        10,
        vec![
            leaf(NodeKind::Other, 5, 6),
            parent(
                NodeKind::DefaultParameter,
                6,
                9,
                vec![
                    leaf(NodeKind::Identifier, 6, 7),
                    leaf(NodeKind::Other, 7, 8),
                    leaf(NodeKind::Other, 8, 9),
                ],
            ),
            leaf(NodeKind::Other, 9, 10),
        ],
    );
    let body = parent(
        NodeKind::Block,
        12,
        24,
        vec![parent(
            NodeKind::Other,
            12,
            24,
            vec![
                leaf(NodeKind::Other, 12, 18),
                parent(
                    NodeKind::Other,
                    19,
                    24,
                    vec![
                        leaf(NodeKind::Identifier, 19, 20),
                        leaf(NodeKind::Other, 21, 22),
                        leaf(NodeKind::Identifier, 23, 24),
                    ],
                ),
            ],
        )],
    );
    let def = parent(
        NodeKind::FunctionDefinition,
        0,
        24,
        vec![
            leaf(NodeKind::Other, 0, 3),
            leaf(NodeKind::Identifier, 4, 5),
            params,
            leaf(NodeKind::Other, 10, 11),
            body,
        ],
    );
    let root = parent(NodeKind::Module, 0, 24, vec![def]);
    let tree = build(&root, code);
    assert_eq!(sorted(&tree.module_entry.identifiers), vec!["f".to_string()]);
    let f = &tree.module_entry.symbols[0];
    assert_eq!(f.symbol_name, "f");
    assert_eq!(sorted(&f.identifiers), vec!["x".to_string(), "y".to_string()]);
    assert!(!f.identifiers.contains(&"1".to_string()));
    assert!(!f.identifiers.contains(&"f".to_string()));
}

#[test]
fn class_header_excluded_method_params_included() {
    // class C(Base): def m(self): pass
    let code = "class C(Base): def m(self): pass";
    let method = parent(
        NodeKind::FunctionDefinition,
        15,
        32,
        vec![
            leaf(NodeKind::Other, 15, 18),
            leaf(NodeKind::Identifier, 19, 20),
            parent(
                NodeKind::Other,
                20,
                26,
                vec![
                    leaf(NodeKind::Other, 20, 21),
                    leaf(NodeKind::Identifier, 21, 25),
                    leaf(NodeKind::Other, 25, 26),
                ],
            ),
            leaf(NodeKind::Other, 26, 27),
            parent(NodeKind::Block, 28, 32, vec![leaf(NodeKind::Other, 28, 32)]),
        ],
    );
    let class_def = parent(
        NodeKind::ClassDefinition,
        0,
        32,
        vec![
            leaf(NodeKind::Other, 0, 5),
            leaf(NodeKind::Identifier, 6, 7),
            parent(
                NodeKind::Other,
                7,
                13,
                vec![
                    leaf(NodeKind::Other, 7, 8),
                    leaf(NodeKind::Identifier, 8, 12),
                    leaf(NodeKind::Other, 12, 13),
                ],
            ),
            leaf(NodeKind::Other, 13, 14),
            parent(NodeKind::Block, 15, 32, vec![method]),
        ],
    );
    let root = parent(NodeKind::Module, 0, 32, vec![class_def]);
    let tree = build(&root, code);
    assert_eq!(sorted(&tree.module_entry.identifiers), vec!["C".to_string()]);
    let class_entry = &tree.module_entry.symbols[0];
    assert_eq!(class_entry.symbol_name, "C");
    assert!(matches!(class_entry.symbol_type, SymbolTreeType::Class));
    assert!(!class_entry.nested);
    assert!(!class_entry.identifiers.contains(&"Base".to_string()));
    assert_eq!(sorted(&class_entry.identifiers), vec!["m".to_string()]);
    assert!(class_entry.has_children);
    let m = &class_entry.symbols[0];
    assert_eq!(m.symbol_name, "m");
    assert!(m.nested);
    assert_eq!(sorted(&m.identifiers), vec!["self".to_string()]);
}

#[test]
fn error_gate_reports_line_and_text() {
    let code = "x = $";
    let mut bad = leaf(NodeKind::Other, 4, 5);
    bad.is_error = true;
    bad.start_row = 0;
    let root = parent(NodeKind::Module, 0, 5, vec![bad]);
    let r = SymbolTree::from_ast(&root, &code.to_string(), "main.py".to_string());
    match r {
        Err(SymbolTreeError::SyntaxError { line, text }) => {
            assert_eq!(line, 1);
            assert_eq!(text, "$");
        }
        _ => panic!("expected a syntax error"),
    }
}

#[test]
fn error_on_later_line_is_one_based() {
    let code = "a\nb\n$$";
    let mut bad = leaf(NodeKind::Other, 4, 6);
    bad.is_error = true;
    bad.start_row = 2;
    let ok_stmt = leaf(NodeKind::Other, 0, 1);
    let root = parent(NodeKind::Module, 0, 6, vec![ok_stmt, bad]);
    let r = SymbolTree::from_ast(&root, &code.to_string(), "main.py".to_string());
    match r {
        Err(SymbolTreeError::SyntaxError { line, text }) => {
            assert_eq!(line, 3);
            assert_eq!(text, "$$");
        }
        _ => panic!("expected a syntax error"),
    }
}

#[test]
fn comment_only_block_is_empty() {
    let code = "# nothing here";
    let root = parent(NodeKind::Module, 0, 14, vec![leaf(NodeKind::Other, 0, 14)]);
    let tree = build(&root, code);
    assert!(tree.module_entry.identifiers.is_empty());
    assert!(tree.module_entry.symbols.is_empty());
    assert!(!tree.module_entry.has_children);
}

#[test]
fn root_kind_mismatch_is_reported() {
    let root = parent(NodeKind::Other, 0, 0, Vec::new());
    let r = SymbolTree::from_ast(&root, &"".to_string(), "main.py".to_string());
    assert!(matches!(r, Err(SymbolTreeError::RootKindMismatch)));
}

#[test]
fn decorated_definition_aborts() {
    let code = "@deco\ndef f(): pass";
    let root = parent(
        NodeKind::Module,
        0,
        19,
        vec![parent(NodeKind::DecoratedDefinition, 0, 19, Vec::new())],
    );
    let r = SymbolTree::from_ast(&root, &code.to_string(), "main.py".to_string());
    assert!(matches!(r, Err(SymbolTreeError::UnsupportedConstruct)));
}

#[test]
fn repeated_names_are_deduplicated() {
    let code = "x x";
    let stmt = parent(
        NodeKind::Other,
        0,
        3,
        vec![leaf(NodeKind::Identifier, 0, 1), leaf(NodeKind::Identifier, 2, 3)],
    );
    let root = parent(NodeKind::Module, 0, 3, vec![stmt]);
    let tree = build(&root, code);
    assert_eq!(tree.module_entry.identifiers.len(), 1);
    assert_eq!(tree.module_entry.identifiers[0], "x");
}

#[test]
fn definition_without_body_block_is_skipped() {
    let code = "def g(): class H:";
    let fn_def = parent(
        NodeKind::FunctionDefinition,
        0,
        8,
        vec![
            leaf(NodeKind::Other, 0, 3),
            leaf(NodeKind::Identifier, 4, 5),
            parent(NodeKind::Other, 5, 7, Vec::new()),
            leaf(NodeKind::Other, 7, 8),
        ],
    );
    let class_def = parent(
        NodeKind::ClassDefinition,
        9,
        17,
        vec![leaf(NodeKind::Other, 9, 14), leaf(NodeKind::Identifier, 15, 16)],
    );
    let root = parent(NodeKind::Module, 0, 17, vec![fn_def, class_def]);
    let tree = build(&root, code);
    assert!(tree.module_entry.symbols.is_empty());
    assert!(!tree.module_entry.has_children);
    // Nothing is merged for a skipped definition: not even its declared name.
    assert!(tree.module_entry.identifiers.is_empty());
}

#[test]
fn default_parameter_contributes_target_not_default_value() {
    let code = "q(a=b)";
    let stmt = parent(
        NodeKind::Other,
        0,
        6,
        vec![
            leaf(NodeKind::Identifier, 0, 1),
            parent(
                NodeKind::DefaultParameter,
                2,
                5,
                vec![
                    leaf(NodeKind::Identifier, 2, 3),
                    leaf(NodeKind::Other, 3, 4),
                    leaf(NodeKind::Identifier, 4, 5),
                ],
            ),
        ],
    );
    let root = parent(NodeKind::Module, 0, 6, vec![stmt]);
    let tree = build(&root, code);
    assert_eq!(
        sorted(&tree.module_entry.identifiers),
        vec!["a".to_string(), "q".to_string()]
    );
    assert!(!tree.module_entry.identifiers.contains(&"b".to_string()));
}

#[test]
fn collector_keeps_traversal_order_and_duplicates() {
    let code = "x y x".to_string();
    let stmt = parent(
        NodeKind::Other,
        0,
        5,
        vec![
            leaf(NodeKind::Identifier, 0, 1),
            leaf(NodeKind::Identifier, 2, 3),
            leaf(NodeKind::Identifier, 4, 5),
        ],
    );
    let names = get_all_block_identifiers(&stmt, &code);
    assert_eq!(names, vec!["x".to_string(), "y".to_string(), "x".to_string()]);
}

#[test]
fn default_values_are_empty() {
    let entry = SymbolTreeEntry::default();
    assert_eq!(entry.symbol_name, "");
    assert!(matches!(entry.symbol_type, SymbolTreeType::Module));
    assert!(!entry.nested);
    assert!(!entry.has_children);
    assert!(entry.identifiers.is_empty());
    assert!(entry.symbols.is_empty());
    let tree = SymbolTree::default();
    assert_eq!(tree.filename, "");
    assert!(tree.module_entry.symbols.is_empty());
}
