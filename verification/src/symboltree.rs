//! The symbol tree: the data model and the recursive builder that walks a
//! block of statements, classifies each one, recurses into nested function
//! and class bodies, and aggregates the identifiers each scope mentions.

use crate::idents::{
    distinct_names, extend_idents, idents_set, insert_ident, lemma_idents_set_concat,
    lemma_names_seq_concat, names_seq,
};
use crate::node::{get_string_at_cursor, span_text, wf_node, NodeKind, SyntaxNode};
use crate::scanner::{scan, scan_spec};
use vstd::prelude::*;

verus! {

/// What a symbol-tree entry stands for.
#[derive(Clone, Copy, Debug, PartialEq, Eq, Structural)]
pub enum SymbolTreeType {
    /// The single top-level entry of a file.
    Module,
    /// A function definition.
    Function,
    /// A class definition.
    Class,
}

/// One scope of the symbol tree: the module, a function, or a class.
#[derive(Debug)]
pub struct SymbolTreeEntry {
    /// The declared name; `"MODULE"` for the root entry.
    pub symbol_name: String,
    /// Whether this entry is the module, a function, or a class.
    pub symbol_type: SymbolTreeType,
    /// True iff the enclosing scope is itself a function or class.
    pub nested: bool,
    /// True iff `symbols` is non-empty.
    pub has_children: bool,
    /// The distinct names referenced or declared directly in this scope.
    pub identifiers: Vec<String>,
    /// The immediate child entries, in source order.
    pub symbols: Vec<SymbolTreeEntry>,
}

/// The root of the output for one source file.
#[derive(Debug)]
pub struct SymbolTree {
    /// The logical name of the analyzed file.
    pub filename: String,
    /// The single top-level entry of kind `Module`.
    pub module_entry: SymbolTreeEntry,
}

/// Why an analysis was aborted; none of these leaves a partial tree behind.
#[derive(Debug)]
pub enum SymbolTreeError {
    /// The tree's root node is not a module node.
    RootKindMismatch,
    /// The scanner found a parse error, on this 1-based line spanning this
    /// source text.
    SyntaxError { line: usize, text: String },
    /// A decorated or annotated definition was encountered.
    UnsupportedConstruct,
}

impl Default for SymbolTreeType {
    /// The default entry kind is `Module`.
    fn default() -> (r: Self)
        ensures
            r is Module,
    {
        SymbolTreeType::Module
    }
}

impl Default for SymbolTreeEntry {
    /// An empty, unnamed module-kind entry.
    fn default() -> (r: Self)
        ensures
            r.symbol_name@ == Seq::<char>::empty(),
            r.symbol_type is Module,
            !r.nested,
            !r.has_children,
            r.identifiers@ == Seq::<String>::empty(),
            r.symbols@ == Seq::<SymbolTreeEntry>::empty(),
    {
        SymbolTreeEntry {
            symbol_name: String::new(),
            symbol_type: SymbolTreeType::Module,
            nested: false,
            has_children: false,
            identifiers: Vec::new(),
            symbols: Vec::new(),
        }
    }
}

impl Default for SymbolTree {
    /// An unnamed tree with an empty module entry.
    fn default() -> (r: Self)
        ensures
            r.filename@ == Seq::<char>::empty(),
            r.module_entry.symbol_name@ == Seq::<char>::empty(),
            r.module_entry.symbol_type is Module,
            !r.module_entry.has_children,
    {
        SymbolTree { filename: String::new(), module_entry: SymbolTreeEntry::default() }
    }
}

/// The mathematical shape of one symbol-tree entry: names as character
/// sequences, identifiers as a set, children as a sequence.
#[verifier::ext_equal]
pub struct EntrySpec {
    /// The declared name.
    pub symbol_name: Seq<char>,
    /// Whether the entry is the module, a function, or a class.
    pub symbol_type: SymbolTreeType,
    /// True iff the enclosing scope is itself a function or class.
    pub nested: bool,
    /// True iff `symbols` is non-empty.
    pub has_children: bool,
    /// The names referenced or declared directly in this scope.
    pub identifiers: Set<Seq<char>>,
    /// The immediate child entries, in source order.
    pub symbols: Seq<EntrySpec>,
}

/// The shape of an entry, read off the executable representation.
pub open spec fn entry_view(e: SymbolTreeEntry) -> EntrySpec
    decreases e, 0int,
{
    EntrySpec {
        symbol_name: e.symbol_name@,
        symbol_type: e.symbol_type,
        nested: e.nested,
        has_children: e.has_children,
        identifiers: idents_set(e.identifiers@),
        symbols: entries_view(e.symbols@),
    }
}

/// The shapes of a sequence of entries, in order.
pub open spec fn entries_view(es: Seq<SymbolTreeEntry>) -> Seq<EntrySpec>
    decreases es, 1int,
{
    if es.len() == 0 {
        Seq::<EntrySpec>::empty()
    } else {
        entries_view(es.drop_last()).push(entry_view(es.last()))
    }
}

/// The entry's identifier vector holds no duplicate, here and in every
/// entry below.
pub open spec fn entry_distinct(e: SymbolTreeEntry) -> bool
    decreases e, 0int,
{
    &&& distinct_names(e.identifiers@)
    &&& entries_distinct(e.symbols@)
}

/// Every entry of the sequence is duplicate-free, recursively.
pub open spec fn entries_distinct(es: Seq<SymbolTreeEntry>) -> bool
    decreases es, 1int,
{
    forall|k: int| 0 <= k < es.len() ==> entry_distinct(#[trigger] es[k])
}

/// A duplicate-free entry appended to duplicate-free entries keeps the
/// property.
pub proof fn lemma_entries_distinct_push(es: Seq<SymbolTreeEntry>, e: SymbolTreeEntry)
    requires
        entries_distinct(es),
        entry_distinct(e),
    ensures
        entries_distinct(es.push(e)),
{
    assert forall|k: int| 0 <= k < es.push(e).len() implies entry_distinct(
        #[trigger] es.push(e)[k],
    ) by {
        if k < es.len() {
            assert(es.push(e)[k] == es[k]);
        } else {
            assert(es.push(e)[k] == e);
        }
    }
}

/// Every name mentioned in a non-definition subtree: a bare name leaf
/// contributes its text, a parameter with a default contributes only the name
/// of its target, anything else contributes what its children contribute.
pub open spec fn collect_idents(n: SyntaxNode, code: Seq<char>) -> Set<Seq<char>>
    decreases n, 0int,
{
    if n.kind is Identifier {
        Set::<Seq<char>>::empty().insert(
            span_text(code, n.start_byte as int, n.end_byte as int),
        )
    } else if n.kind is DefaultParameter {
        if n.children@.len() > 0 {
            Set::<Seq<char>>::empty().insert(
                span_text(
                    code,
                    n.children@[0].start_byte as int,
                    n.children@[0].end_byte as int,
                ),
            )
        } else {
            Set::<Seq<char>>::empty()
        }
    } else {
        collect_idents_list(n.children@, code)
    }
}

/// The names a non-definition subtree mentions, in depth-first traversal
/// order, duplicates preserved; deduplicating this sequence gives
/// `collect_idents`.
pub open spec fn collect_idents_seq(n: SyntaxNode, code: Seq<char>) -> Seq<Seq<char>>
    decreases n, 0int,
{
    if n.kind is Identifier {
        seq![span_text(code, n.start_byte as int, n.end_byte as int)]
    } else if n.kind is DefaultParameter {
        if n.children@.len() > 0 {
            seq![
                span_text(
                    code,
                    n.children@[0].start_byte as int,
                    n.children@[0].end_byte as int,
                ),
            ]
        } else {
            Seq::<Seq<char>>::empty()
        }
    } else {
        collect_idents_seq_list(n.children@, code)
    }
}

/// The names mentioned across a sequence of subtrees, in order.
pub open spec fn collect_idents_seq_list(ns: Seq<SyntaxNode>, code: Seq<char>) -> Seq<Seq<char>>
    decreases ns, 1int,
{
    if ns.len() == 0 {
        Seq::<Seq<char>>::empty()
    } else {
        collect_idents_seq_list(ns.drop_last(), code) + collect_idents_seq(ns.last(), code)
    }
}

/// The union of the names mentioned across a sequence of subtrees.
pub open spec fn collect_idents_list(ns: Seq<SyntaxNode>, code: Seq<char>) -> Set<Seq<char>>
    decreases ns, 1int,
{
    if ns.len() == 0 {
        Set::<Seq<char>>::empty()
    } else {
        collect_idents_list(ns.drop_last(), code).union(collect_idents(ns.last(), code))
    }
}

/// The position of the first child at or after `j` whose kind marks a block.
pub open spec fn first_block_at(ns: Seq<SyntaxNode>, j: int) -> Option<int>
    decreases ns.len() - j,
{
    if j < 0 || j >= ns.len() {
        None
    } else if ns[j].kind is Block {
        Some(j)
    } else {
        first_block_at(ns, j + 1)
    }
}

/// Where `first_block_at` points, it points at the first block from `j` on.
pub proof fn lemma_first_block_at_bounds(ns: Seq<SyntaxNode>, j: int)
    requires
        0 <= j,
    ensures
        match first_block_at(ns, j) {
            Some(b) => j <= b < ns.len() && ns[b].kind is Block && (forall|k: int|
                j <= k < b ==> !((#[trigger] ns[k]).kind is Block)),
            None => forall|k: int| j <= k < ns.len() ==> !((#[trigger] ns[k]).kind is Block),
        },
    decreases ns.len() - j,
{
    if j < ns.len() && !(ns[j].kind is Block) {
        lemma_first_block_at_bounds(ns, j + 1);
    }
}

/// One step of the builder: how one statement transforms the identifier set
/// and entry sequence accumulated so far; `None` means the analysis aborts on
/// an unsupported construct.
pub open spec fn build_step(
    prev: (Set<Seq<char>>, Seq<EntrySpec>),
    stmt: SyntaxNode,
    code: Seq<char>,
    nested: bool,
) -> Option<(Set<Seq<char>>, Seq<EntrySpec>)>
    decreases stmt, 0int,
{
    let ids = prev.0;
    let syms = prev.1;
    if stmt.kind is FunctionDefinition {
        if stmt.children@.len() < 2 {
            Some((ids, syms))
        } else {
            let name = span_text(
                code,
                stmt.children@[1].start_byte as int,
                stmt.children@[1].end_byte as int,
            );
            let params = if stmt.children@.len() >= 3 {
                build_block_spec(stmt.children@[2], code, true)
            } else {
                Some((Set::<Seq<char>>::empty(), Seq::<EntrySpec>::empty()))
            };
            match params {
                None => None,
                Some(p) => match first_block_at(stmt.children@, 2) {
                    None => Some((ids, syms)),
                    Some(bi) => if 2 <= bi < stmt.children@.len() {
                        match build_block_spec(stmt.children@[bi], code, true) {
                            None => None,
                            Some(b) => Some(
                                (
                                    ids.insert(name),
                                    syms.push(
                                        EntrySpec {
                                            symbol_name: name,
                                            symbol_type: SymbolTreeType::Function,
                                            nested,
                                            has_children: b.1.len() > 0,
                                            identifiers: p.0.union(b.0),
                                            symbols: b.1,
                                        },
                                    ),
                                ),
                            ),
                        }
                    } else {
                        Some((ids, syms))
                    },
                },
            }
        }
    } else if stmt.kind is ClassDefinition {
        if stmt.children@.len() < 2 {
            Some((ids, syms))
        } else {
            let name = span_text(
                code,
                stmt.children@[1].start_byte as int,
                stmt.children@[1].end_byte as int,
            );
            match first_block_at(stmt.children@, 1) {
                None => Some((ids, syms)),
                Some(bi) => if 1 <= bi < stmt.children@.len() {
                    match build_block_spec(stmt.children@[bi], code, true) {
                        None => None,
                        Some(b) => Some(
                            (
                                ids.insert(name),
                                syms.push(
                                    EntrySpec {
                                        symbol_name: name,
                                        symbol_type: SymbolTreeType::Class,
                                        nested,
                                        has_children: b.1.len() > 0,
                                        identifiers: b.0,
                                        symbols: b.1,
                                    },
                                ),
                            ),
                        ),
                    }
                } else {
                    Some((ids, syms))
                },
            }
        }
    } else if stmt.kind is DecoratedDefinition {
        None
    } else {
        Some((ids.union(collect_idents(stmt, code)), syms))
    }
}

/// The builder over a sequence of statements, processed in source order.
pub open spec fn build_stmts_spec(stmts: Seq<SyntaxNode>, code: Seq<char>, nested: bool) -> Option<
    (Set<Seq<char>>, Seq<EntrySpec>),
>
    decreases stmts, 1int,
{
    if stmts.len() == 0 {
        Some((Set::<Seq<char>>::empty(), Seq::<EntrySpec>::empty()))
    } else {
        match build_stmts_spec(stmts.drop_last(), code, nested) {
            None => None,
            Some(prev) => build_step(prev, stmts.last(), code, nested),
        }
    }
}

/// Collects every bare name a non-definition subtree mentions, in traversal
/// order, possibly with repetitions; the caller dedupes.
pub fn get_all_block_identifiers(n: &SyntaxNode, code: &String) -> (r: Vec<String>)
    requires
        wf_node(*n),
    ensures
        names_seq(r@) == collect_idents_seq(*n, code@),
        idents_set(r@) == collect_idents(*n, code@),
    decreases *n,
{
    match n.kind {
        NodeKind::Identifier => {
            let mut r: Vec<String> = Vec::new();
            r.push(get_string_at_cursor(n, code));
            proof {
                let t = span_text(code@, n.start_byte as int, n.end_byte as int);
                assert(r@.len() == 1 && r@[0]@ == t);
                assert(idents_set(r@).contains(t));
                assert(idents_set(r@) =~= collect_idents(*n, code@));
                assert(names_seq(r@) =~= collect_idents_seq(*n, code@));
            }
            r
        },
        NodeKind::DefaultParameter => {
            let mut r: Vec<String> = Vec::new();
            if n.children.len() > 0 {
                proof {
                    assert(wf_node(n.children@[0]));
                }
                r.push(get_string_at_cursor(&n.children[0], code));
                proof {
                    let t = span_text(
                        code@,
                        n.children@[0].start_byte as int,
                        n.children@[0].end_byte as int,
                    );
                    assert(r@.len() == 1 && r@[0]@ == t);
                    assert(idents_set(r@).contains(t));
                    assert(idents_set(r@) =~= collect_idents(*n, code@));
                    assert(names_seq(r@) =~= collect_idents_seq(*n, code@));
                }
            } else {
                proof {
                    assert(idents_set(r@) =~= collect_idents(*n, code@));
                    assert(names_seq(r@) =~= collect_idents_seq(*n, code@));
                }
            }
            r
        },
        _ => {
            let mut all: Vec<String> = Vec::new();
            let mut i: usize = 0;
            proof {
                assert(n.children@.subrange(0, 0) =~= Seq::<SyntaxNode>::empty());
                assert(idents_set(all@) =~= collect_idents_list(n.children@.subrange(0, 0), code@));
                assert(names_seq(all@) =~= collect_idents_seq_list(
                    n.children@.subrange(0, 0),
                    code@,
                ));
            }
            while i < n.children.len()
                invariant
                    wf_node(*n),
                    !(n.kind is Identifier),
                    !(n.kind is DefaultParameter),
                    i <= n.children@.len(),
                    idents_set(all@) == collect_idents_list(
                        n.children@.subrange(0, i as int),
                        code@,
                    ),
                    names_seq(all@) == collect_idents_seq_list(
                        n.children@.subrange(0, i as int),
                        code@,
                    ),
                decreases n.children@.len() - i,
            {
                proof {
                    assert(decreases_to!(*n => n.children@[i as int]));
                    assert(wf_node(n.children@[i as int]));
                }
                let mut child = get_all_block_identifiers(&n.children[i], code);
                let ghost prev = all@;
                let ghost childv = child@;
                all.append(&mut child);
                proof {
                    lemma_idents_set_concat(prev, childv);
                    lemma_names_seq_concat(prev, childv);
                    let sub1 = n.children@.subrange(0, i as int + 1);
                    assert(sub1.drop_last() =~= n.children@.subrange(0, i as int));
                    assert(sub1.last() == n.children@[i as int]);
                    assert(idents_set(all@) =~= collect_idents_list(sub1, code@));
                    assert(names_seq(all@) =~= collect_idents_seq_list(sub1, code@));
                }
                i += 1;
            }
            proof {
                assert(n.children@.subrange(0, n.children@.len() as int) =~= n.children@);
            }
            all
        },
    }
}

/// The builder over a block node: its immediate children are the statements.
pub open spec fn build_block_spec(n: SyntaxNode, code: Seq<char>, nested: bool) -> Option<
    (Set<Seq<char>>, Seq<EntrySpec>),
>
    decreases n, 2int,
{
    build_stmts_spec(n.children@, code, nested)
}

/// `has_children` agrees with `symbols` being non-empty, here and in every
/// entry below.
pub open spec fn entry_consistent(e: EntrySpec) -> bool
    decreases e, 0int,
{
    &&& e.has_children == (e.symbols.len() > 0)
    &&& entries_consistent(e.symbols)
}

/// Every entry of the sequence is consistent, recursively.
pub open spec fn entries_consistent(es: Seq<EntrySpec>) -> bool
    decreases es, 1int,
{
    forall|k: int| 0 <= k < es.len() ==> entry_consistent(#[trigger] es[k])
}

/// Every entry of the sequence carries this `nested` flag, and every entry
/// below it carries `true`.
pub open spec fn entries_nested_from(es: Seq<EntrySpec>, nested: bool) -> bool
    decreases es, 1int,
{
    forall|k: int|
        0 <= k < es.len() ==> (#[trigger] es[k]).nested == nested && entries_nested_from(
            es[k].symbols,
            true,
        )
}

/// A consistent entry appended to consistent entries stays consistent.
pub proof fn lemma_entries_consistent_push(es: Seq<EntrySpec>, e: EntrySpec)
    requires
        entries_consistent(es),
        entry_consistent(e),
    ensures
        entries_consistent(es.push(e)),
{
    assert forall|k: int| 0 <= k < es.push(e).len() implies entry_consistent(
        #[trigger] es.push(e)[k],
    ) by {
        if k < es.len() {
            assert(es.push(e)[k] == es[k]);
        } else {
            assert(es.push(e)[k] == e);
        }
    }
}

/// An entry with this flag and an all-nested subtree, appended to entries
/// with this flag, keeps the property.
pub proof fn lemma_entries_nested_from_push(es: Seq<EntrySpec>, e: EntrySpec, nested: bool)
    requires
        entries_nested_from(es, nested),
        e.nested == nested,
        entries_nested_from(e.symbols, true),
    ensures
        entries_nested_from(es.push(e), nested),
{
    assert forall|k: int| 0 <= k < es.push(e).len() implies (#[trigger] es.push(e)[k]).nested
        == nested && entries_nested_from(es.push(e)[k].symbols, true) by {
        if k < es.len() {
            assert(es.push(e)[k] == es[k]);
        } else {
            assert(es.push(e)[k] == e);
        }
    }
}

/// Children consistency: in every tree the builder produces, `has_children`
/// equals `symbols.len() > 0`, recursively, with no exception.
pub proof fn lemma_build_children_consistent(stmts: Seq<SyntaxNode>, code: Seq<char>, nested: bool)
    ensures
        build_stmts_spec(stmts, code, nested) matches Some(p) ==> entries_consistent(p.1),
    decreases stmts, 1int,
{
    if stmts.len() > 0 {
        lemma_build_children_consistent(stmts.drop_last(), code, nested);
        let stmt = stmts.last();
        if build_stmts_spec(stmts, code, nested) is Some {
            let prev = build_stmts_spec(stmts.drop_last(), code, nested)->Some_0;
            let p = build_stmts_spec(stmts, code, nested)->Some_0;
            assert(build_stmts_spec(stmts, code, nested) == build_step(prev, stmt, code, nested));
            if stmt.kind is FunctionDefinition && stmt.children@.len() >= 2 {
                lemma_first_block_at_bounds(stmt.children@, 2);
                match first_block_at(stmt.children@, 2) {
                    Some(bi) => {
                        lemma_block_children_consistent(stmt.children@[bi], code, true);
                        match build_block_spec(stmt.children@[bi], code, true) {
                            Some(b) => {
                                assert(p.1.last().symbols == b.1);
                                assert(entry_consistent(p.1.last()));
                                lemma_entries_consistent_push(prev.1, p.1.last());
                                assert(p.1 == prev.1.push(p.1.last()));
                            },
                            None => (),
                        }
                    },
                    None => (),
                }
            } else if stmt.kind is ClassDefinition && stmt.children@.len() >= 2 {
                lemma_first_block_at_bounds(stmt.children@, 1);
                match first_block_at(stmt.children@, 1) {
                    Some(bi) => {
                        lemma_block_children_consistent(stmt.children@[bi], code, true);
                        match build_block_spec(stmt.children@[bi], code, true) {
                            Some(b) => {
                                assert(p.1.last().symbols == b.1);
                                assert(entry_consistent(p.1.last()));
                                lemma_entries_consistent_push(prev.1, p.1.last());
                                assert(p.1 == prev.1.push(p.1.last()));
                            },
                            None => (),
                        }
                    },
                    None => (),
                }
            }
        }
    }
}

/// Children consistency over a block node.
pub proof fn lemma_block_children_consistent(n: SyntaxNode, code: Seq<char>, nested: bool)
    ensures
        build_block_spec(n, code, nested) matches Some(p) ==> entries_consistent(p.1),
    decreases n, 2int,
{
    lemma_build_children_consistent(n.children@, code, nested);
}

/// The nesting flag: every entry the builder emits for a block carries the
/// flag that call received, and every entry produced from recursing into a
/// function or class body carries `true`.
pub proof fn lemma_build_nested_flag(stmts: Seq<SyntaxNode>, code: Seq<char>, nested: bool)
    ensures
        build_stmts_spec(stmts, code, nested) matches Some(p) ==> entries_nested_from(
            p.1,
            nested,
        ),
    decreases stmts, 1int,
{
    if stmts.len() > 0 {
        lemma_build_nested_flag(stmts.drop_last(), code, nested);
        let stmt = stmts.last();
        if build_stmts_spec(stmts, code, nested) is Some {
            let prev = build_stmts_spec(stmts.drop_last(), code, nested)->Some_0;
            let p = build_stmts_spec(stmts, code, nested)->Some_0;
            assert(build_stmts_spec(stmts, code, nested) == build_step(prev, stmt, code, nested));
            if stmt.kind is FunctionDefinition && stmt.children@.len() >= 2 {
                lemma_first_block_at_bounds(stmt.children@, 2);
                match first_block_at(stmt.children@, 2) {
                    Some(bi) => {
                        lemma_block_nested_flag(stmt.children@[bi], code, true);
                        match build_block_spec(stmt.children@[bi], code, true) {
                            Some(b) => {
                                assert(p.1.last().symbols == b.1);
                                lemma_entries_nested_from_push(prev.1, p.1.last(), nested);
                                assert(p.1 == prev.1.push(p.1.last()));
                            },
                            None => (),
                        }
                    },
                    None => (),
                }
            } else if stmt.kind is ClassDefinition && stmt.children@.len() >= 2 {
                lemma_first_block_at_bounds(stmt.children@, 1);
                match first_block_at(stmt.children@, 1) {
                    Some(bi) => {
                        lemma_block_nested_flag(stmt.children@[bi], code, true);
                        match build_block_spec(stmt.children@[bi], code, true) {
                            Some(b) => {
                                assert(p.1.last().symbols == b.1);
                                lemma_entries_nested_from_push(prev.1, p.1.last(), nested);
                                assert(p.1 == prev.1.push(p.1.last()));
                            },
                            None => (),
                        }
                    },
                    None => (),
                }
            }
        }
    }
}

/// The nesting flag over a block node.
pub proof fn lemma_block_nested_flag(n: SyntaxNode, code: Seq<char>, nested: bool)
    ensures
        build_block_spec(n, code, nested) matches Some(p) ==> entries_nested_from(p.1, nested),
    decreases n, 2int,
{
    lemma_build_nested_flag(n.children@, code, nested);
}

/// A block with no function or class definitions among its statements yields
/// no symbols at all, so the enclosing entry's `has_children` is false.
pub proof fn lemma_no_definitions_no_symbols(stmts: Seq<SyntaxNode>, code: Seq<char>, nested: bool)
    requires
        forall|k: int|
            0 <= k < stmts.len() ==> {
                &&& !((#[trigger] stmts[k]).kind is FunctionDefinition)
                &&& !(stmts[k].kind is ClassDefinition)
                &&& !(stmts[k].kind is DecoratedDefinition)
            },
    ensures
        build_stmts_spec(stmts, code, nested) matches Some(p) && p.1 == Seq::<EntrySpec>::empty(),
    decreases stmts,
{
    if stmts.len() > 0 {
        assert forall|k: int| 0 <= k < stmts.drop_last().len() implies stmts.drop_last()[k]
            == stmts[k] by {}
        lemma_no_definitions_no_symbols(stmts.drop_last(), code, nested);
        assert(stmts.last() == stmts[stmts.len() - 1]);
        let prev = build_stmts_spec(stmts.drop_last(), code, nested)->Some_0;
        assert(build_stmts_spec(stmts, code, nested) == build_step(
            prev,
            stmts.last(),
            code,
            nested,
        ));
    }
}

/// A block containing only childless ordinary statements (such as comments)
/// yields an empty identifier set and no symbols.
pub proof fn lemma_comment_only_block(stmts: Seq<SyntaxNode>, code: Seq<char>, nested: bool)
    requires
        forall|k: int|
            0 <= k < stmts.len() ==> {
                &&& !((#[trigger] stmts[k]).kind is FunctionDefinition)
                &&& !(stmts[k].kind is ClassDefinition)
                &&& !(stmts[k].kind is DecoratedDefinition)
                &&& !(stmts[k].kind is Identifier)
                &&& !(stmts[k].kind is DefaultParameter)
                &&& stmts[k].children@.len() == 0
            },
    ensures
        build_stmts_spec(stmts, code, nested) == Some(
            (Set::<Seq<char>>::empty(), Seq::<EntrySpec>::empty()),
        ),
    decreases stmts,
{
    if stmts.len() > 0 {
        assert forall|k: int| 0 <= k < stmts.drop_last().len() implies stmts.drop_last()[k]
            == stmts[k] by {}
        lemma_comment_only_block(stmts.drop_last(), code, nested);
        let stmt = stmts.last();
        assert(stmt == stmts[stmts.len() - 1]);
        let prev = build_stmts_spec(stmts.drop_last(), code, nested)->Some_0;
        assert(build_stmts_spec(stmts, code, nested) == build_step(prev, stmt, code, nested));
        assert(stmt.children@ =~= Seq::<SyntaxNode>::empty());
        assert(collect_idents(stmt, code) =~= Set::<Seq<char>>::empty());
        assert(Set::<Seq<char>>::empty().union(collect_idents(stmt, code)) =~= Set::<
            Seq<char>,
        >::empty());
    }
}

/// The function case of the identifier merge: a function definition whose
/// body block was located and built yields an entry whose identifier set is
/// exactly the union of its parameter-list identifiers and its body
/// identifiers, while the declared name goes into the enclosing scope's
/// identifier set, not into the entry's own.
pub proof fn lemma_function_identifier_union(
    prev: (Set<Seq<char>>, Seq<EntrySpec>),
    stmt: SyntaxNode,
    code: Seq<char>,
    nested: bool,
)
    requires
        stmt.kind is FunctionDefinition,
        stmt.children@.len() >= 3,
        first_block_at(stmt.children@, 2) is Some,
        build_step(prev, stmt, code, nested) is Some,
    ensures
        ({
            let name = span_text(
                code,
                stmt.children@[1].start_byte as int,
                stmt.children@[1].end_byte as int,
            );
            let r = build_step(prev, stmt, code, nested)->Some_0;
            let params = build_block_spec(stmt.children@[2], code, true)->Some_0;
            let bi = first_block_at(stmt.children@, 2)->Some_0;
            let body = build_block_spec(stmt.children@[bi], code, true)->Some_0;
            &&& r.0 == prev.0.insert(name)
            &&& r.1 == prev.1.push(r.1.last())
            &&& r.1.last().symbol_name == name
            &&& r.1.last().symbol_type is Function
            &&& r.1.last().identifiers == params.0.union(body.0)
            &&& r.1.last().symbols == body.1
        }),
{
    lemma_first_block_at_bounds(stmt.children@, 2);
}

/// The class case of the asymmetry: a class definition whose body block was
/// located and built yields an entry whose identifier set comes from the body
/// block alone — no token of the class header is merged — while the declared
/// name goes into the enclosing scope's identifier set.
pub proof fn lemma_class_identifiers_from_body(
    prev: (Set<Seq<char>>, Seq<EntrySpec>),
    stmt: SyntaxNode,
    code: Seq<char>,
    nested: bool,
)
    requires
        stmt.kind is ClassDefinition,
        stmt.children@.len() >= 2,
        first_block_at(stmt.children@, 1) is Some,
        build_step(prev, stmt, code, nested) is Some,
    ensures
        ({
            let name = span_text(
                code,
                stmt.children@[1].start_byte as int,
                stmt.children@[1].end_byte as int,
            );
            let r = build_step(prev, stmt, code, nested)->Some_0;
            let bi = first_block_at(stmt.children@, 1)->Some_0;
            let body = build_block_spec(stmt.children@[bi], code, true)->Some_0;
            &&& r.0 == prev.0.insert(name)
            &&& r.1 == prev.1.push(r.1.last())
            &&& r.1.last().symbol_name == name
            &&& r.1.last().symbol_type is Class
            &&& r.1.last().identifiers == body.0
            &&& r.1.last().symbols == body.1
        }),
{
    lemma_first_block_at_bounds(stmt.children@, 1);
}

/// Reading the shapes of entries keeps their number.
pub proof fn lemma_entries_view_len(es: Seq<SymbolTreeEntry>)
    ensures
        entries_view(es).len() == es.len(),
    decreases es,
{
    if es.len() > 0 {
        lemma_entries_view_len(es.drop_last());
    }
}

/// Appending an entry appends its shape.
pub proof fn lemma_entries_view_push(es: Seq<SymbolTreeEntry>, e: SymbolTreeEntry)
    ensures
        entries_view(es.push(e)) == entries_view(es).push(entry_view(e)),
{
    assert(es.push(e).drop_last() =~= es);
    assert(es.push(e).last() == e);
}

/// Once a prefix of the statements aborts the build, the whole list does.
pub proof fn lemma_build_stmts_none_extends(
    stmts: Seq<SyntaxNode>,
    j: int,
    code: Seq<char>,
    nested: bool,
)
    requires
        0 <= j <= stmts.len(),
        build_stmts_spec(stmts.subrange(0, j), code, nested) is None,
    ensures
        build_stmts_spec(stmts, code, nested) is None,
    decreases stmts.len() - j,
{
    if j < stmts.len() {
        assert(stmts.subrange(0, j + 1).drop_last() =~= stmts.subrange(0, j));
        assert(build_stmts_spec(stmts.subrange(0, j + 1), code, nested) is None);
        lemma_build_stmts_none_extends(stmts, j + 1, code, nested);
    } else {
        assert(stmts.subrange(0, j) =~= stmts);
    }
}

/// Finds the first child at or after `from` whose kind marks a block.
fn find_block_from(children: &Vec<SyntaxNode>, from: usize) -> (r: Option<usize>)
    ensures
        match r {
            Some(j) => first_block_at(children@, from as int) == Some(j as int) && from <= j
                < children@.len(),
            None => first_block_at(children@, from as int) is None,
        },
{
    let mut j = from;
    while j < children.len()
        invariant
            from <= j,
            first_block_at(children@, from as int) == first_block_at(children@, j as int),
        decreases children@.len() - j,
    {
        if children[j].kind == NodeKind::Block {
            return Some(j);
        }
        j += 1;
    }
    None
}

/// Handles one function definition statement: gathers its parameter
/// identifiers, recurses into its body block, declares its name in the
/// enclosing scope, and emits a `Function` entry merging parameter and body
/// identifiers. A definition whose body block cannot be located is skipped
/// entirely: no entry, and nothing merged, not even the name.
fn handle_function_def(
    stmt: &SyntaxNode,
    code: &String,
    nested: bool,
    identifiers: &mut Vec<String>,
    symbols: &mut Vec<SymbolTreeEntry>,
) -> (r: Result<(), SymbolTreeError>)
    requires
        wf_node(*stmt),
        stmt.kind is FunctionDefinition,
        distinct_names(old(identifiers)@),
        entries_distinct(old(symbols)@),
    ensures
        distinct_names(final(identifiers)@),
        entries_distinct(final(symbols)@),
        (r matches Ok(u) ==> build_step(
            (idents_set(old(identifiers)@), entries_view(old(symbols)@)),
            *stmt,
            code@,
            nested,
        ) == Some((idents_set(final(identifiers)@), entries_view(final(symbols)@)))),
        (r matches Err(e) ==> e is UnsupportedConstruct && build_step(
            (idents_set(old(identifiers)@), entries_view(old(symbols)@)),
            *stmt,
            code@,
            nested,
        ) is None),
    decreases *stmt,
{
    let ghost pre = (idents_set(identifiers@), entries_view(symbols@));
    if stmt.children.len() < 2 {
        return Ok(());
    }
    proof {
        assert(wf_node(stmt.children@[1]));
    }
    let name = get_string_at_cursor(&stmt.children[1], code);
    let ghost t = name@;
    let mut fn_idents: Vec<String> = Vec::new();
    if stmt.children.len() >= 3 {
        proof {
            assert(decreases_to!(*stmt => stmt.children@[2]));
            assert(wf_node(stmt.children@[2]));
        }
        match parse_block_symbols(&stmt.children[2], code, true) {
            Ok(p) => {
                fn_idents = p.0;
            },
            Err(e) => {
                proof {
                    assert(build_step(pre, *stmt, code@, nested) is None);
                }
                return Err(e);
            },
        }
    }
    let ghost ps = idents_set(fn_idents@);
    proof {
        if stmt.children@.len() < 3 {
            assert(ps =~= Set::<Seq<char>>::empty());
        }
    }
    match find_block_from(&stmt.children, 2) {
        None => {
            proof {
                assert(build_step(pre, *stmt, code@, nested) == Some(
                    (idents_set(identifiers@), entries_view(symbols@)),
                ));
            }
            Ok(())
        },
        Some(bj) => {
            proof {
                assert(decreases_to!(*stmt => stmt.children@[bj as int]));
                assert(wf_node(stmt.children@[bj as int]));
            }
            match parse_block_symbols(&stmt.children[bj], code, true) {
                Err(e) => {
                    proof {
                        assert(build_step(pre, *stmt, code@, nested) is None);
                    }
                    Err(e)
                },
                Ok(b) => {
                    let (body_ids, body_syms) = b;
                    let ghost bs = (idents_set(body_ids@), entries_view(body_syms@));
                    insert_ident(identifiers, name.clone());
                    extend_idents(&mut fn_idents, &body_ids);
                    let has_children = body_syms.len() > 0;
                    proof {
                        lemma_entries_view_len(body_syms@);
                    }
                    let entry = SymbolTreeEntry {
                        symbol_name: name,
                        symbol_type: SymbolTreeType::Function,
                        nested,
                        has_children,
                        identifiers: fn_idents,
                        symbols: body_syms,
                    };
                    let ghost esnap = entry;
                    let ghost syms_before = symbols@;
                    symbols.push(entry);
                    proof {
                        assert(entry_distinct(esnap));
                        lemma_entries_distinct_push(syms_before, esnap);
                        lemma_entries_view_push(syms_before, esnap);
                        assert(entry_view(esnap) == EntrySpec {
                            symbol_name: t,
                            symbol_type: SymbolTreeType::Function,
                            nested,
                            has_children: bs.1.len() > 0,
                            identifiers: ps.union(bs.0),
                            symbols: bs.1,
                        });
                        assert(build_step(pre, *stmt, code@, nested) == Some(
                            (idents_set(identifiers@), entries_view(symbols@)),
                        ));
                    }
                    Ok(())
                },
            }
        },
    }
}

/// Handles one class definition statement: recurses into its body block
/// alone — the class header's own tokens are not merged into the identifier
/// set — and declares its name in the enclosing scope. A definition whose
/// body block cannot be located is skipped entirely: no entry, and nothing
/// merged, not even the name.
fn handle_class_def(
    stmt: &SyntaxNode,
    code: &String,
    nested: bool,
    identifiers: &mut Vec<String>,
    symbols: &mut Vec<SymbolTreeEntry>,
) -> (r: Result<(), SymbolTreeError>)
    requires
        wf_node(*stmt),
        stmt.kind is ClassDefinition,
        distinct_names(old(identifiers)@),
        entries_distinct(old(symbols)@),
    ensures
        distinct_names(final(identifiers)@),
        entries_distinct(final(symbols)@),
        (r matches Ok(u) ==> build_step(
            (idents_set(old(identifiers)@), entries_view(old(symbols)@)),
            *stmt,
            code@,
            nested,
        ) == Some((idents_set(final(identifiers)@), entries_view(final(symbols)@)))),
        (r matches Err(e) ==> e is UnsupportedConstruct && build_step(
            (idents_set(old(identifiers)@), entries_view(old(symbols)@)),
            *stmt,
            code@,
            nested,
        ) is None),
    decreases *stmt,
{
    let ghost pre = (idents_set(identifiers@), entries_view(symbols@));
    if stmt.children.len() < 2 {
        return Ok(());
    }
    proof {
        assert(wf_node(stmt.children@[1]));
    }
    let name = get_string_at_cursor(&stmt.children[1], code);
    let ghost t = name@;
    match find_block_from(&stmt.children, 1) {
        None => {
            proof {
                assert(build_step(pre, *stmt, code@, nested) == Some(
                    (idents_set(identifiers@), entries_view(symbols@)),
                ));
            }
            Ok(())
        },
        Some(bj) => {
            proof {
                assert(decreases_to!(*stmt => stmt.children@[bj as int]));
                assert(wf_node(stmt.children@[bj as int]));
            }
            match parse_block_symbols(&stmt.children[bj], code, true) {
                Err(e) => {
                    proof {
                        assert(build_step(pre, *stmt, code@, nested) is None);
                    }
                    Err(e)
                },
                Ok(b) => {
                    let (body_ids, body_syms) = b;
                    let ghost bs = (idents_set(body_ids@), entries_view(body_syms@));
                    insert_ident(identifiers, name.clone());
                    let has_children = body_syms.len() > 0;
                    proof {
                        lemma_entries_view_len(body_syms@);
                    }
                    let entry = SymbolTreeEntry {
                        symbol_name: name,
                        symbol_type: SymbolTreeType::Class,
                        nested,
                        has_children,
                        identifiers: body_ids,
                        symbols: body_syms,
                    };
                    let ghost esnap = entry;
                    let ghost syms_before = symbols@;
                    symbols.push(entry);
                    proof {
                        assert(entry_distinct(esnap));
                        lemma_entries_distinct_push(syms_before, esnap);
                        lemma_entries_view_push(syms_before, esnap);
                        assert(entry_view(esnap) == EntrySpec {
                            symbol_name: t,
                            symbol_type: SymbolTreeType::Class,
                            nested,
                            has_children: bs.1.len() > 0,
                            identifiers: bs.0,
                            symbols: bs.1,
                        });
                        assert(build_step(pre, *stmt, code@, nested) == Some(
                            (idents_set(identifiers@), entries_view(symbols@)),
                        ));
                    }
                    Ok(())
                },
            }
        },
    }
}

/// The recursive symbol-tree builder: processes each immediate child
/// statement of `block` in source order, collecting the identifiers the
/// scope mentions and the function and class entries defined in it.
pub fn parse_block_symbols(block: &SyntaxNode, code: &String, nested: bool) -> (r: Result<
    (Vec<String>, Vec<SymbolTreeEntry>),
    SymbolTreeError,
>)
    requires
        wf_node(*block),
    ensures
        (r matches Ok(p) ==> distinct_names(p.0@) && entries_distinct(p.1@) && build_block_spec(
            *block,
            code@,
            nested,
        ) == Some((idents_set(p.0@), entries_view(p.1@)))),
        (r matches Err(e) ==> e is UnsupportedConstruct && build_block_spec(
            *block,
            code@,
            nested,
        ) is None),
    decreases *block,
{
    let mut identifiers: Vec<String> = Vec::new();
    let mut symbols: Vec<SymbolTreeEntry> = Vec::new();
    let mut i: usize = 0;
    proof {
        assert(block.children@.subrange(0, 0) =~= Seq::<SyntaxNode>::empty());
        assert(idents_set(identifiers@) =~= Set::<Seq<char>>::empty());
    }
    while i < block.children.len()
        invariant
            wf_node(*block),
            i <= block.children@.len(),
            distinct_names(identifiers@),
            entries_distinct(symbols@),
            build_stmts_spec(block.children@.subrange(0, i as int), code@, nested) == Some(
                (idents_set(identifiers@), entries_view(symbols@)),
            ),
        decreases block.children@.len() - i,
    {
        let ghost stmts = block.children@;
        let ghost pre = (idents_set(identifiers@), entries_view(symbols@));
        let stmt = &block.children[i];
        proof {
            assert(decreases_to!(*block => stmts[i as int]));
            assert(wf_node(stmts[i as int]));
        }
        let step: Result<(), SymbolTreeError> = match stmt.kind {
            NodeKind::FunctionDefinition => handle_function_def(
                stmt,
                code,
                nested,
                &mut identifiers,
                &mut symbols,
            ),
            NodeKind::ClassDefinition => handle_class_def(
                stmt,
                code,
                nested,
                &mut identifiers,
                &mut symbols,
            ),
            NodeKind::DecoratedDefinition => Err(SymbolTreeError::UnsupportedConstruct),
            _ => {
                let collected = get_all_block_identifiers(stmt, code);
                extend_idents(&mut identifiers, &collected);
                Ok(())
            },
        };
        proof {
            let sub1 = stmts.subrange(0, i as int + 1);
            assert(sub1.drop_last() =~= stmts.subrange(0, i as int));
            assert(sub1.last() == stmts[i as int]);
        }
        match step {
            Ok(u) => {
                proof {
                    assert(build_step(pre, stmts[i as int], code@, nested) == Some(
                        (idents_set(identifiers@), entries_view(symbols@)),
                    ));
                }
            },
            Err(e) => {
                proof {
                    assert(build_step(pre, stmts[i as int], code@, nested) is None);
                    assert(build_stmts_spec(stmts.subrange(0, i as int + 1), code@, nested)
                        is None);
                    lemma_build_stmts_none_extends(stmts, i as int + 1, code@, nested);
                }
                return Err(e);
            },
        }
        i += 1;
    }
    proof {
        assert(block.children@.subrange(0, block.children@.len() as int) =~= block.children@);
    }
    Ok((identifiers, symbols))
}

impl SymbolTree {
    /// Builds the symbol tree for a whole parsed file: requires the root to
    /// be a module node, refuses any tree in which the scanner finds a parse
    /// error, and otherwise runs the builder over the top-level block with
    /// `nested == false`.
    pub fn from_ast(ast: &SyntaxNode, code: &String, file_name: String) -> (r: Result<
        SymbolTree,
        SymbolTreeError,
    >)
        requires
            wf_node(*ast),
        ensures
            (!(ast.kind is Module) ==> (r matches Err(e) && e is RootKindMismatch)),
            (ast.kind is Module && scan_spec(*ast, code@) is Some ==> (r matches Err(e)
                && e matches SymbolTreeError::SyntaxError { line, text } && line as int
                == scan_spec(*ast, code@)->Some_0.0 && text@ == scan_spec(*ast, code@)->Some_0.1)),
            (ast.kind is Module && scan_spec(*ast, code@) is None && build_block_spec(
                *ast,
                code@,
                false,
            ) is None ==> (r matches Err(e) && e is UnsupportedConstruct)),
            (ast.kind is Module && scan_spec(*ast, code@) is None && build_block_spec(
                *ast,
                code@,
                false,
            ) is Some ==> (r matches Ok(t) && {
                let p = build_block_spec(*ast, code@, false)->Some_0;
                &&& t.filename@ == file_name@
                &&& t.module_entry.symbol_name@ == "MODULE"@
                &&& t.module_entry.symbol_type is Module
                &&& !t.module_entry.nested
                &&& t.module_entry.has_children == (p.1.len() > 0)
                &&& distinct_names(t.module_entry.identifiers@)
                &&& entries_distinct(t.module_entry.symbols@)
                &&& idents_set(t.module_entry.identifiers@) == p.0
                &&& entries_view(t.module_entry.symbols@) == p.1
            })),
    {
        if !(ast.kind == NodeKind::Module) {
            return Err(SymbolTreeError::RootKindMismatch);
        }
        if let Some(loc) = scan(ast, code) {
            return Err(SymbolTreeError::SyntaxError { line: loc.line, text: loc.text });
        }
        match parse_block_symbols(ast, code, false) {
            Err(e) => Err(e),
            Ok(p) => {
                let (ids, syms) = p;
                let has_children = syms.len() > 0;
                proof {
                    lemma_entries_view_len(syms@);
                }
                Ok(
                    SymbolTree {
                        filename: file_name,
                        module_entry: SymbolTreeEntry {
                            symbol_name: "MODULE".to_owned(),
                            symbol_type: SymbolTreeType::Module,
                            nested: false,
                            has_children,
                            identifiers: ids,
                            symbols: syms,
                        },
                    },
                )
            },
        }
    }
}

} // verus!
