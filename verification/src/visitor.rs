//! The pluggable custom-block visitor: a capability that may render
//! inline code spans or unknown fenced blocks, or decline. Implementors
//! state their behaviour in the two spec functions, so that rendering
//! contracts stay exact for any visitor.

use vstd::prelude::*;

use crate::code_blocks::{Fenced, FencedV};

verus! {

/// A visitor offered inline code spans and unknown fenced blocks.
/// `None` declines; `Some` replaces the default rendering. The spec
/// functions default to declining, so a visitor written outside
/// verified code can implement the two methods alone.
pub trait MarkdownVisitor: Sized {
    /// What `visit_code` answers.
    open spec fn code_spec(&self, code: Seq<char>) -> Option<Seq<char>> {
        None
    }

    /// What `visit_custom_block` answers.
    open spec fn block_spec(&self, fenced: FencedV, content: Seq<char>) -> Option<Seq<char>> {
        None
    }

    /// Offer an inline code span.
    fn visit_code(&self, code: &str) -> (r: Option<String>)
        ensures
            match r {
                Some(h) => self.code_spec(code@) == Some(h@),
                None => self.code_spec(code@) is None,
            },
    ;

    /// Offer an unknown fenced block.
    fn visit_custom_block(&self, fenced: &Fenced, content: &str) -> (r: Option<String>)
        ensures
            match r {
                Some(h) => self.block_spec(fenced@, content@) == Some(h@),
                None => self.block_spec(fenced@, content@) is None,
            },
    ;
}

/// The default visitor: declines everything.
pub struct NoVisitor;

impl MarkdownVisitor for NoVisitor {
    open spec fn code_spec(&self, code: Seq<char>) -> Option<Seq<char>> {
        None
    }

    open spec fn block_spec(&self, fenced: FencedV, content: Seq<char>) -> Option<Seq<char>> {
        None
    }

    fn visit_code(&self, code: &str) -> (r: Option<String>) {
        None
    }

    fn visit_custom_block(&self, fenced: &Fenced, content: &str) -> (r: Option<String>) {
        None
    }
}

} // verus!
