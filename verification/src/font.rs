//! The typeface selector.  The Ming face carries the curve-approximation
//! switch used when strokes are drawn; the Gothic face has no options.  The
//! region transform of a special line is the same for both faces.

use crate::line::special_line::SpecialLineType;
use crate::polygons::{spec_in_box, spec_transform_point, Polygons};
use vstd::prelude::*;

verus! {

/// The two supported typeface families.
pub enum Typeface {
    /// The serif-like family with ornamental terminals and width modulation.
    Ming,
    /// The sans-serif family with constant-width strokes.
    Gothic,
}

/// A typeface together with its drawing options.
pub enum FontWrapper {
    MingStyle { use_curve: bool },
    GothicStyle,
}

impl FontWrapper {
    /// Whether curving strokes are approximated with quadratic control
    /// points; always false for the Gothic face.
    pub open spec fn spec_use_curve(self) -> bool {
        match self {
            FontWrapper::MingStyle { use_curve } => use_curve,
            FontWrapper::GothicStyle => false,
        }
    }

    pub fn new(typeface: Typeface, use_curve: bool) -> (r: FontWrapper)
        ensures
            r == match typeface {
                Typeface::Ming => FontWrapper::MingStyle { use_curve },
                Typeface::Gothic => FontWrapper::GothicStyle,
            },
    {
        match typeface {
            Typeface::Ming => FontWrapper::MingStyle { use_curve },
            Typeface::Gothic => FontWrapper::GothicStyle,
        }
    }

    /// Switches the curve approximation; the Gothic face is unchanged.
    pub fn set_use_curve(&mut self, use_curve: bool)
        ensures
            *final(self) == match *old(self) {
                FontWrapper::MingStyle { .. } => FontWrapper::MingStyle { use_curve },
                FontWrapper::GothicStyle => FontWrapper::GothicStyle,
            },
    {
        match self {
            FontWrapper::MingStyle { use_curve: c } => {
                *c = use_curve;
            },
            FontWrapper::GothicStyle => {},
        }
    }

    /// Applies the region transform of a special line: every polygon whose
    /// vertices all lie in the line's box is mapped by the line's affine
    /// transform, and every other polygon is left untouched.
    pub fn df_transform(&self, polygons: &mut Polygons, line_type: SpecialLineType)
        requires
            line_type.in_range(),
        ensures
            final(polygons)@.len() == old(polygons)@.len(),
            forall|i: int|
                0 <= i < old(polygons)@.len() ==> final(polygons)@[i] == if spec_in_box(
                    #[trigger] old(polygons)@[i],
                    line_type.box_diag_1,
                    line_type.box_diag_2,
                ) {
                    old(polygons)@[i].map_values(
                        |p| spec_transform_point(
                            line_type.transform_type,
                            line_type.box_diag_1,
                            line_type.box_diag_2,
                            p,
                        ),
                    )
                } else {
                    old(polygons)@[i]
                },
    {
        polygons.transform_region(
            line_type.transform_type,
            line_type.box_diag_1,
            line_type.box_diag_2,
        );
    }
}

} // verus!
