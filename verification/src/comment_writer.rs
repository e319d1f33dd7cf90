//! The shape a caller hands comments in when addressing paragraphs
//! by index. The host copies archives on disk around it.

use vstd::prelude::*;

verus! {

/// One comment aimed at a paragraph by position.
#[derive(Debug)]
pub struct ErrorItem {
    pub paragraph_index: usize,
    pub comment: String,
}

impl ErrorItem {
    /// Build one item.
    pub fn new(paragraph_index: usize, comment: String) -> (r: ErrorItem)
        ensures
            r.paragraph_index == paragraph_index,
            r.comment == comment,
    {
        ErrorItem { paragraph_index, comment }
    }
}

} // verus!
