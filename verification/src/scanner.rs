//! The syntax error scanner: a pre-pass over the whole tree that reports the
//! first node the parser flagged as erroneous, before any symbol-tree
//! construction begins.

use crate::node::{get_string_at_cursor, span_text, wf_node, SyntaxNode};
use vstd::prelude::*;

verus! {

/// Where a parse error sits: its 1-based source line and the literal source
/// text the erroneous node spans.
#[derive(Debug)]
pub struct ErrorLocation {
    /// 1-based line number of the erroneous node.
    pub line: usize,
    /// The source text the erroneous node spans.
    pub text: String,
}

/// The first erroneous node in a depth-first walk of `n`, as a pair of its
/// 1-based line and spanned text; `None` when the subtree holds no error.
pub open spec fn scan_spec(n: SyntaxNode, code: Seq<char>) -> Option<(int, Seq<char>)>
    decreases n, 0int,
{
    if n.is_error {
        Some((n.start_row + 1, span_text(code, n.start_byte as int, n.end_byte as int)))
    } else {
        scan_list_spec(n.children@, code)
    }
}

/// The first erroneous node over a sequence of subtrees, in order.
pub open spec fn scan_list_spec(ns: Seq<SyntaxNode>, code: Seq<char>) -> Option<(int, Seq<char>)>
    decreases ns, 1int,
{
    if ns.len() == 0 {
        None
    } else {
        match scan_spec(ns[0], code) {
            Some(loc) => Some(loc),
            None => scan_list_spec(ns.drop_first(), code),
        }
    }
}

/// Depth-first search for the first node flagged as a parse error; reports its
/// 1-based line and the source text it spans.
pub fn scan(n: &SyntaxNode, code: &String) -> (r: Option<ErrorLocation>)
    requires
        wf_node(*n),
    ensures
        match r {
            Some(loc) => scan_spec(*n, code@) == Some((loc.line as int, loc.text@)),
            None => scan_spec(*n, code@) is None,
        },
    decreases *n,
{
    if n.is_error {
        let text = get_string_at_cursor(n, code);
        return Some(ErrorLocation { line: n.start_row + 1, text });
    }
    let mut i: usize = 0;
    proof {
        assert(n.children@.subrange(0, n.children@.len() as int) =~= n.children@);
    }
    while i < n.children.len()
        invariant
            wf_node(*n),
            !n.is_error,
            i <= n.children@.len(),
            scan_list_spec(n.children@, code@) == scan_list_spec(
                n.children@.subrange(i as int, n.children@.len() as int),
                code@,
            ),
        decreases n.children@.len() - i,
    {
        proof {
            assert(decreases_to!(*n => n.children@[i as int]));
            assert(wf_node(n.children@[i as int]));
        }
        let found = scan(&n.children[i], code);
        proof {
            let len = n.children@.len() as int;
            let rest = n.children@.subrange(i as int, len);
            assert(rest[0] == n.children@[i as int]);
            assert(rest.drop_first() =~= n.children@.subrange(i as int + 1, len));
        }
        if let Some(loc) = found {
            return Some(loc);
        }
        i += 1;
    }
    proof {
        assert(n.children@.subrange(n.children@.len() as int, n.children@.len() as int)
            =~= Seq::<SyntaxNode>::empty());
    }
    None
}

} // verus!
