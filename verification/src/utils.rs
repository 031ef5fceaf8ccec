//! Reading the source text a syntax-tree node spans.

use crate::node::{get_string_at_cursor, span_text, SyntaxNode};
use vstd::prelude::*;

verus! {

/// Types that cover a span of source text and can read it back.
pub trait GetStringFromNode {
    /// Whether the span runs forward, so reading it cannot fail.
    spec fn span_ok(&self) -> bool;

    /// The text the span covers.
    spec fn span_view(&self, code: Seq<char>) -> Seq<char>;

    /// Reads the covered text out of `code`.
    fn get_string(&self, code: &String) -> (r: String)
        requires
            self.span_ok(),
        ensures
            r@ == self.span_view(code@),
    ;
}

impl GetStringFromNode for SyntaxNode {
    open spec fn span_ok(&self) -> bool {
        self.start_byte <= self.end_byte
    }

    open spec fn span_view(&self, code: Seq<char>) -> Seq<char> {
        span_text(code, self.start_byte as int, self.end_byte as int)
    }

    fn get_string(&self, code: &String) -> (r: String) {
        get_string_at_cursor(self, code)
    }
}

} // verus!
