//! The library's model of a concrete syntax tree.
//!
//! The external parser is consumed only through this model: a node has a
//! construct kind, a character span into the source text, a starting row, an
//! error flag, and its children in source order.

use vstd::prelude::*;
use vstd::string::*;

verus! {

/// The construct kinds the symbol-tree builder distinguishes. Every other
/// construct is an ordinary statement or expression and maps to `Other`.
#[derive(Clone, Copy, Debug, PartialEq, Eq, Structural)]
pub enum NodeKind {
    /// The root of a whole compilation unit.
    Module,
    /// A function definition.
    FunctionDefinition,
    /// A class definition.
    ClassDefinition,
    /// A definition carrying a decorator or annotation (unsupported).
    DecoratedDefinition,
    /// A block of statements forming one lexical scope.
    Block,
    /// A bare name leaf.
    Identifier,
    /// A parameter that carries a default value.
    DefaultParameter,
    /// Any other construct.
    Other,
}

/// One node of the syntax tree, as the external parser reported it.
#[derive(Debug)]
pub struct SyntaxNode {
    /// The construct kind of this node.
    pub kind: NodeKind,
    /// Start of the span of source text this node covers.
    pub start_byte: usize,
    /// End (exclusive) of the span of source text this node covers.
    pub end_byte: usize,
    /// The 0-based row on which this node starts.
    pub start_row: usize,
    /// Whether the parser flagged this node as a parse error.
    pub is_error: bool,
    /// The node's children, in source order.
    pub children: Vec<SyntaxNode>,
}

/// A node is well formed when every span in it runs forward and every row
/// leaves room for 1-based numbering.
pub open spec fn wf_node(n: SyntaxNode) -> bool
    decreases n,
{
    &&& n.start_byte <= n.end_byte
    &&& n.start_row < usize::MAX
    &&& forall|i: int| 0 <= i < n.children@.len() ==> wf_node(#[trigger] n.children@[i])
}

/// The source text a span covers: the characters from `start` (inclusive) to
/// `end` (exclusive), with both ends clamped to the text.
pub open spec fn span_text(code: Seq<char>, start: int, end: int) -> Seq<char> {
    let n = code.len() as int;
    let lo = if start < 0 {
        0
    } else if start > n {
        n
    } else {
        start
    };
    let hi = if end < lo {
        lo
    } else if end > n {
        n
    } else {
        end
    };
    code.subrange(lo, hi)
}

/// Reads the source text a node spans.
pub fn get_string_at_cursor(node: &SyntaxNode, code: &String) -> (r: String)
    requires
        node.start_byte <= node.end_byte,
    ensures
        r@ == span_text(code@, node.start_byte as int, node.end_byte as int),
{
    let s: &str = code.as_str();
    let n: usize = s.unicode_len();
    let lo: usize = if node.start_byte < n {
        node.start_byte
    } else {
        n
    };
    let hi: usize = if node.end_byte < n {
        node.end_byte
    } else {
        n
    };
    let sub: &str = s.substring_char(lo, hi);
    sub.to_owned()
}

/// Decides well-formedness of a whole tree, so an unverified caller can
/// establish it for a tree it converted from the external parser.
pub fn check_wf(n: &SyntaxNode) -> (b: bool)
    ensures
        b == wf_node(*n),
    decreases *n,
{
    if !(n.start_byte <= n.end_byte) {
        return false;
    }
    if !(n.start_row < usize::MAX) {
        return false;
    }
    let mut i: usize = 0;
    while i < n.children.len()
        invariant
            i <= n.children@.len(),
            n.start_byte <= n.end_byte,
            n.start_row < usize::MAX,
            forall|k: int| 0 <= k < i ==> wf_node(#[trigger] n.children@[k]),
        decreases n.children@.len() - i,
    {
        proof {
            assert(decreases_to!(*n => n.children@[i as int]));
        }
        if !check_wf(&n.children[i]) {
            assert(!wf_node(*n)) by {
                assert(!wf_node(n.children@[i as int]));
            }
            return false;
        }
        i += 1;
    }
    true
}

} // verus!
