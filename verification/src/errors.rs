//! The failure surface of a render: font-level failures abort the whole
//! render; per-glyph and per-line issues never become errors (glyphs without
//! a mask paint nothing, vertical overflow truncates silently).

use vstd::prelude::*;

verus! {

/// Why a render cannot proceed.
#[derive(Clone, Copy, PartialEq, Eq, Structural, Debug)]
pub enum RenderError {
    /// No parseable font was located, via override or discovery.
    FontNotFound,
    /// The cell text count does not equal the board dimension squared.
    DimensionMismatch,
}

impl RenderError {
    /// A short description, for the surrounding application to report.
    pub fn message(&self) -> (r: &'static str)
        ensures
            self is FontNotFound ==> r@ == "no usable font found"@,
            self is DimensionMismatch ==> r@ == "elements length must match board size squared"@,
    {
        match self {
            RenderError::FontNotFound => "no usable font found",
            RenderError::DimensionMismatch => "elements length must match board size squared",
        }
    }
}

} // verus!
