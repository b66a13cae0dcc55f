//! Component reference lines: a named component is expanded recursively,
//! scaled into a box, with optional pivot-based stretching.

use crate::geom::Point;
use vstd::prelude::*;

verus! {

/// A reference that inlines the named component's record, scaled into the
/// box with diagonal corners `box_diag_1` and `box_diag_2`.  The two control
/// points steer the pivot stretch of the expanded strokes.
#[derive(Debug, PartialEq)]
pub struct ComponentReferenceLine {
    pub component_name: String,
    pub box_diag_1: Point,
    pub box_diag_2: Point,
    pub primary_control_point: Point,
    pub secondary_control_point: Point,
}

/// The mathematical reading of a component reference: its name as a
/// character sequence.
pub struct ComponentRefModel {
    pub name: Seq<char>,
    pub box_diag_1: Point,
    pub box_diag_2: Point,
    pub primary_control_point: Point,
    pub secondary_control_point: Point,
}

impl View for ComponentReferenceLine {
    type V = ComponentRefModel;

    open spec fn view(&self) -> ComponentRefModel {
        ComponentRefModel {
            name: self.component_name@,
            box_diag_1: self.box_diag_1,
            box_diag_2: self.box_diag_2,
            primary_control_point: self.primary_control_point,
            secondary_control_point: self.secondary_control_point,
        }
    }
}

impl ComponentRefModel {
    /// All four points lie in the parsed-coordinate range.
    pub open spec fn in_range(self) -> bool {
        self.box_diag_1.in_range() && self.box_diag_2.in_range()
            && self.primary_control_point.in_range() && self.secondary_control_point.in_range()
    }
}

} // verus!
