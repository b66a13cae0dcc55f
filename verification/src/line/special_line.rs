//! Special lines: affine region transforms applied, in record order, to
//! every polygon that lies entirely inside an axis-aligned box.

use crate::geom::Point;
use vstd::prelude::*;

verus! {

/// The affine transform a special line applies to its region.
#[derive(Clone, Copy, Debug, PartialEq, Eq)]
pub enum TransformType {
    Rotate90,
    Rotate180,
    Rotate270,
    HorizontalFlip,
    VerticalFlip,
}

/// A region transform: applied to every polygon whose vertices all lie in
/// the box with diagonal corners `box_diag_1` and `box_diag_2`.
#[derive(Clone, Copy, Debug, PartialEq)]
pub struct SpecialLineType {
    pub transform_type: TransformType,
    pub box_diag_1: Point,
    pub box_diag_2: Point,
}

impl SpecialLineType {
    /// Both corners lie in the parsed-coordinate range.
    pub open spec fn in_range(self) -> bool {
        self.box_diag_1.in_range() && self.box_diag_2.in_range()
    }
}

} // verus!
