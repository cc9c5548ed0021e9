//! The content elements a board is filled from: each carries its cell text
//! and the weight the surrounding application samples it with.

use vstd::prelude::*;

verus! {

/// One candidate cell text and its selection weight.
#[derive(Debug)]
pub struct BingoElement {
    pub content: String,
    pub probability: u32,
}

impl BingoElement {
    /// Bundle a cell text with its selection weight.
    pub fn new(content: String, probability: u32) -> (r: BingoElement)
        ensures
            r.content@ == content@,
            r.probability == probability,
    {
        BingoElement { content, probability }
    }
}

} // verus!
