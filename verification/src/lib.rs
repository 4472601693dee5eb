//! Rewrites unchecked operations inside an `unsafe` block into their checked
//! counterparts.
//!
//! The rewriter works on a [`tree::SyntaxTree`]: the source text and its
//! syntax elements, as plain values. Asked for the block at a cursor offset,
//! [`convert::convert_unsafe_to_safe`] finds the block, names the first
//! operation of its catalog that the block holds, writes the checked
//! replacement from fragments of the source, and plans one edit: the whole
//! block where the rewritten statement is all it holds, else that statement
//! alone, with the replacement placed before the block. The edit comes back
//! as an [`edit::EditPlan`] over byte offsets of the text; nothing is applied
//! in place.
//!
//! What holds of every edit is stated and proved in [`laws`].
pub mod ast;
pub mod convert;
pub mod edit;
pub mod generate;
pub mod laws;
pub mod pattern;
pub mod plan;
pub mod region;
pub mod text;
pub mod tree;
