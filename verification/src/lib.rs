//! A verified vector-graphics interpretation pipeline for terminal dashboards.
//!
//! The library reads a small SVG-style document (paths, lines, rectangles,
//! a `viewBox`), flattens every drawing primitive into point sequences in a
//! normalized 0..100 canvas space, applies affine transforms, and derives
//! bounding-box fill regions for filled shapes.
//!
//! All coordinates are fixed-point numbers: an `i128` counting units of
//! `1 / fx::FX_ONE` (ten-to-the-minus-eleventh of a canvas unit).  Every
//! arithmetic step is specified exactly over mathematical integers, so the
//! output of the pipeline is a deterministic function of the document text.

use vstd::prelude::*;

pub mod fx;
pub mod trig;
pub mod numparse;
pub mod transform;
pub mod bezier;
pub mod arc;
pub mod path;
pub mod fill;
pub mod scan;
pub mod render;

verus! {

/// The error taxonomy of the pipeline.  Every failure of a single element is
/// one of these; the surrounding pipeline drops the element and records the
/// error instead of failing the whole document.
#[derive(Clone, Copy, Debug, PartialEq, Eq, Structural)]
pub enum SvgError {
    /// The document has no usable `viewBox` (missing, fewer than four fields,
    /// non-numeric, or non-positive dimensions).
    MalformedDocument,
    /// A numeric operand of a path, transform, line or rect could not be read
    /// or does not fit the numeric range of the engine.
    NumericParseError,
    /// A relative (lowercase) or unrecognized path command letter.
    UnsupportedCommand,
    /// An elliptical arc whose radii are zero or vanishingly small.
    DegenerateArc,
}

/// A point of the normalized canvas, both coordinates at the fixed-point
/// scale of [`fx::FX_ONE`].
#[derive(Clone, Copy, Debug, PartialEq, Eq, Structural)]
pub struct Point {
    pub x: i128,
    pub y: i128,
}

impl SvgError {
    /// A short diagnostic text for logs.
    pub fn message(&self) -> (r: &'static str)
        ensures
            r@ =~= self.message_spec(),
    {
        match self {
            SvgError::MalformedDocument => "malformed document",
            SvgError::NumericParseError => "numeric parse error",
            SvgError::UnsupportedCommand => "unsupported command",
            SvgError::DegenerateArc => "degenerate arc",
        }
    }

    pub open spec fn message_spec(&self) -> Seq<char> {
        match self {
            SvgError::MalformedDocument => "malformed document"@,
            SvgError::NumericParseError => "numeric parse error"@,
            SvgError::UnsupportedCommand => "unsupported command"@,
            SvgError::DegenerateArc => "degenerate arc"@,
        }
    }
}

} // verus!
