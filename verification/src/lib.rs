//! Derives a hierarchical symbol table (a "symbol tree") from the concrete
//! syntax tree of a source file. For every function and class defined in the
//! file, the tree records its name, the identifiers mentioned directly in its
//! scope, and the definitions nested inside it.
//!
//! The external parser's output is modelled by [`node::SyntaxNode`]: a plain
//! tree of construct kinds, spans and children. The caller converts the
//! parser's tree into that model and hands it to
//! [`symboltree::SymbolTree::from_ast`].

pub mod idents;
pub mod node;
pub mod scanner;
pub mod symboltree;
pub mod utils;
