//! A polygon: an ordered contour of points with affine mutators.
//!
//! Coordinates are stored in tenths of a design unit, the fixed-point
//! resolution that survives every affine mutation.  Constructors that take
//! whole design units scale by ten on the way in; observers hand the stored
//! tenths back unchanged, since a whole-unit reading would lose the
//! fixed-point digit.  All arithmetic saturates at the machine range.

use crate::geom::Point;
use vstd::prelude::*;

verus! {

/// The sum of two coordinates, saturated at the machine range.
pub open spec fn spec_sat_add(a: int, b: int) -> int {
    if a + b > i64::MAX {
        i64::MAX as int
    } else if a + b < i64::MIN {
        i64::MIN as int
    } else {
        a + b
    }
}

/// A coordinate negated, saturated at the machine range.
pub open spec fn spec_sat_neg(a: int) -> int {
    if -a > i64::MAX {
        i64::MAX as int
    } else {
        -a
    }
}

/// A whole-unit coordinate scaled to tenths, saturated at the machine range.
pub open spec fn spec_to_tenths(a: int) -> int {
    if a * 10 > i64::MAX {
        i64::MAX as int
    } else if a * 10 < i64::MIN {
        i64::MIN as int
    } else {
        a * 10
    }
}

fn sat_add(a: i64, b: i64) -> (r: i64)
    ensures
        r == spec_sat_add(a as int, b as int),
{
    match a.checked_add(b) {
        Some(v) => v,
        None => {
            if a > 0 {
                i64::MAX
            } else {
                i64::MIN
            }
        },
    }
}

fn sat_neg(a: i64) -> (r: i64)
    ensures
        r == spec_sat_neg(a as int),
{
    if a == i64::MIN {
        i64::MAX
    } else {
        -a
    }
}

fn to_tenths(a: i64) -> (r: i64)
    ensures
        r == spec_to_tenths(a as int),
{
    match a.checked_mul(10) {
        Some(v) => v,
        None => {
            if a > 0 {
                i64::MAX
            } else {
                i64::MIN
            }
        },
    }
}

/// A point scaled from whole units to tenths.
pub open spec fn spec_point_to_tenths(p: Point) -> Point {
    Point {
        x: spec_to_tenths(p.x as int) as i64,
        y: spec_to_tenths(p.y as int) as i64,
        off_curve: p.off_curve,
    }
}

/// An ordered contour of points in tenths of a design unit.
#[derive(Debug, Clone)]
pub struct Polygon {
    points: Vec<Point>,
}

impl View for Polygon {
    type V = Seq<Point>;

    closed spec fn view(&self) -> Seq<Point> {
        self.points@
    }
}

impl Polygon {
    /// Builds a contour from points given in whole design units.
    pub fn new(points: Vec<Point>) -> (r: Polygon)
        ensures
            r@ == points@.map_values(|p: Point| spec_point_to_tenths(p)),
    {
        let mut stored: Vec<Point> = Vec::new();
        let n = points.len();
        let mut i: usize = 0;
        while i < n
            invariant
                i <= n,
                n == points@.len(),
                stored@ == points@.take(i as int).map_values(|p: Point| spec_point_to_tenths(p)),
            decreases n - i,
        {
            let p = points[i];
            stored.push(Point { x: to_tenths(p.x), y: to_tenths(p.y), off_curve: p.off_curve });
            proof {
                assert(points@.take(i + 1).drop_last() =~= points@.take(i as int));
                assert(stored@ =~= points@.take(i + 1).map_values(
                    |p: Point| spec_point_to_tenths(p),
                ));
            }
            i += 1;
        }
        proof {
            assert(points@.take(n as int) =~= points@);
        }
        Polygon { points: stored }
    }

    /// A contour of the given length, every point at the origin and
    /// on-curve.
    pub fn new_with_length(length: usize) -> (r: Polygon)
        ensures
            r@.len() == length,
            forall|i: int|
                0 <= i < length ==> r@[i] == (Point { x: 0i64, y: 0i64, off_curve: Some(false) }),
    {
        let mut points: Vec<Point> = Vec::new();
        let mut i: usize = 0;
        while i < length
            invariant
                i <= length,
                points@.len() == i,
                forall|k: int|
                    0 <= k < i ==> points@[k] == (Point {
                        x: 0i64,
                        y: 0i64,
                        off_curve: Some(false),
                    }),
            decreases length - i,
        {
            points.push(Point { x: 0, y: 0, off_curve: Some(false) });
            i += 1;
        }
        Polygon { points }
    }

    pub fn new_empty() -> (r: Polygon)
        ensures
            r@ == Seq::<Point>::empty(),
    {
        Polygon { points: Vec::new() }
    }

    pub fn new_empty_with_capacity(capacity: usize) -> (r: Polygon)
        ensures
            r@ == Seq::<Point>::empty(),
    {
        Polygon { points: Vec::with_capacity(capacity) }
    }

    /// The stored points, in tenths of a design unit.
    pub fn points(&self) -> (r: Vec<Point>)
        ensures
            r@ == self@,
    {
        let mut r: Vec<Point> = Vec::new();
        let n = self.points.len();
        let mut i: usize = 0;
        while i < n
            invariant
                i <= n,
                n == self.points@.len(),
                self@ == self.points@,
                r@ == self@.take(i as int),
            decreases n - i,
        {
            r.push(self.points[i]);
            proof {
                assert(self@.take(i + 1) =~= self@.take(i as int).push(self@[i as int]));
            }
            i += 1;
        }
        proof {
            assert(self@.take(n as int) =~= self@);
        }
        r
    }

    pub fn len(&self) -> (n: usize)
        ensures
            n == self@.len(),
    {
        self.points.len()
    }

    /// Appends a point given in whole design units.
    pub fn push(&mut self, x: i64, y: i64, off: Option<bool>)
        ensures
            final(self)@ == old(self)@.push(
                spec_point_to_tenths(Point { x, y, off_curve: off }),
            ),
    {
        self.points.push(Point { x: to_tenths(x), y: to_tenths(y), off_curve: off });
    }

    /// Appends a point given in whole design units.
    pub fn push_point(&mut self, point: Point)
        ensures
            final(self)@ == old(self)@.push(spec_point_to_tenths(point)),
    {
        self.push(point.x, point.y, point.off_curve);
    }

    /// Appends a point given directly in tenths of a design unit.
    pub fn push_tenths(&mut self, point: Point)
        ensures
            final(self)@ == old(self)@.push(point),
    {
        self.points.push(point);
    }

    /// The point at `index`, in tenths of a design unit.
    pub fn get(&self, index: usize) -> (r: Option<Point>)
        ensures
            match r {
                Some(p) => index < self@.len() && p == self@[index as int],
                None => index >= self@.len(),
            },
    {
        if index >= self.points.len() {
            return None;
        }
        Some(self.points[index])
    }

    /// Replaces the point at `index` with one given in whole design units.
    pub fn set(&mut self, index: usize, x: i64, y: i64, off: Option<bool>) -> (r: Result<
        (),
        String,
    >)
        ensures
            match r {
                Ok(()) => index < old(self)@.len() && final(self)@ == old(self)@.update(
                    index as int,
                    spec_point_to_tenths(Point { x, y, off_curve: off }),
                ),
                Err(_) => index >= old(self)@.len() && final(self)@ == old(self)@,
            },
    {
        if index >= self.points.len() {
            return Err(String::from_str("Index out of bounds."));
        }
        self.points[index] = Point { x: to_tenths(x), y: to_tenths(y), off_curve: off };
        Ok(())
    }

    /// Replaces the point at `index` with one given in whole design units.
    pub fn set_point(&mut self, index: usize, point: Point) -> (r: Result<(), String>)
        ensures
            match r {
                Ok(()) => index < old(self)@.len() && final(self)@ == old(self)@.update(
                    index as int,
                    spec_point_to_tenths(point),
                ),
                Err(_) => index >= old(self)@.len() && final(self)@ == old(self)@,
            },
    {
        if index >= self.points.len() {
            return Err(String::from_str("Index out of bounds."));
        }
        self.set(index, point.x, point.y, point.off_curve)
    }

    /// Reverses the order of the contour's points.
    pub fn reverse(&mut self)
        ensures
            final(self)@ == old(self)@.reverse(),
    {
        let n = self.points.len();
        let mut r: Vec<Point> = Vec::new();
        let mut i: usize = 0;
        while i < n
            invariant
                i <= n,
                n == self.points@.len(),
                self.points@ == old(self).points@,
                r@.len() == i,
                forall|k: int| 0 <= k < i ==> r@[k] == self.points@[n - 1 - k],
            decreases n - i,
        {
            r.push(self.points[n - 1 - i]);
            i += 1;
        }
        self.points = r;
        proof {
            assert(final(self)@ =~= old(self)@.reverse());
        }
    }

    /// Appends another contour's points after this one's.
    pub fn concat(&mut self, other: Polygon)
        ensures
            final(self)@ == old(self)@ + other@,
    {
        let mut other_points = other.points;
        self.points.append(&mut other_points);
    }

    /// Removes the first point; an empty contour is left unchanged.
    pub fn shift(&mut self)
        ensures
            final(self)@ == if old(self)@.len() == 0 {
                old(self)@
            } else {
                old(self)@.drop_first()
            },
    {
        if self.points.is_empty() {
            return;
        }
        self.points.remove(0);
        proof {
            assert(final(self)@ =~= old(self)@.drop_first());
        }
    }

    /// Inserts a point given in whole design units at the front.
    pub fn unshift(&mut self, x: i64, y: i64, off: Option<bool>)
        ensures
            final(self)@ == seq![
                spec_point_to_tenths(Point { x, y, off_curve: off }),
            ] + old(self)@,
    {
        self.points.insert(0, Point { x: to_tenths(x), y: to_tenths(y), off_curve: off });
        proof {
            assert(final(self)@ =~= seq![
                spec_point_to_tenths(Point { x, y, off_curve: off }),
            ] + old(self)@);
        }
    }

    /// Inserts a point given in whole design units at the front.
    pub fn unshift_point(&mut self, point: Point)
        ensures
            final(self)@ == seq![spec_point_to_tenths(point)] + old(self)@,
    {
        self.unshift(point.x, point.y, point.off_curve);
    }

    /// Translates the contour by an offset in whole design units.
    pub fn translate(&mut self, dx: i64, dy: i64)
        ensures
            final(self)@.len() == old(self)@.len(),
            forall|i: int|
                0 <= i < old(self)@.len() ==> final(self)@[i] == (Point {
                    x: spec_sat_add(
                        old(self)@[i].x as int,
                        spec_to_tenths(dx as int),
                    ) as i64,
                    y: spec_sat_add(
                        old(self)@[i].y as int,
                        spec_to_tenths(dy as int),
                    ) as i64,
                    off_curve: old(self)@[i].off_curve,
                }),
    {
        let tdx = to_tenths(dx);
        let tdy = to_tenths(dy);
        let n = self.points.len();
        let mut i: usize = 0;
        while i < n
            invariant
                i <= n,
                n == self.points@.len(),
                self.points@.len() == old(self).points@.len(),
                tdx == spec_to_tenths(dx as int),
                tdy == spec_to_tenths(dy as int),
                forall|k: int| i <= k < n ==> self.points@[k] == old(self).points@[k],
                forall|k: int|
                    0 <= k < i ==> self.points@[k] == (Point {
                        x: spec_sat_add(
                            old(self).points@[k].x as int,
                            spec_to_tenths(dx as int),
                        ) as i64,
                        y: spec_sat_add(
                            old(self).points@[k].y as int,
                            spec_to_tenths(dy as int),
                        ) as i64,
                        off_curve: old(self).points@[k].off_curve,
                    }),
            decreases n - i,
        {
            let p = self.points[i];
            self.points[i] = Point {
                x: sat_add(p.x, tdx),
                y: sat_add(p.y, tdy),
                off_curve: p.off_curve,
            };
            i += 1;
        }
    }

    /// Flips the sign of every x coordinate.
    pub fn reflect_x(&mut self)
        ensures
            final(self)@.len() == old(self)@.len(),
            forall|i: int|
                0 <= i < old(self)@.len() ==> final(self)@[i] == (Point {
                    x: spec_sat_neg(old(self)@[i].x as int) as i64,
                    y: old(self)@[i].y,
                    off_curve: old(self)@[i].off_curve,
                }),
    {
        let n = self.points.len();
        let mut i: usize = 0;
        while i < n
            invariant
                i <= n,
                n == self.points@.len(),
                self.points@.len() == old(self).points@.len(),
                forall|k: int| i <= k < n ==> self.points@[k] == old(self).points@[k],
                forall|k: int|
                    0 <= k < i ==> self.points@[k] == (Point {
                        x: spec_sat_neg(old(self).points@[k].x as int) as i64,
                        y: old(self).points@[k].y,
                        off_curve: old(self).points@[k].off_curve,
                    }),
            decreases n - i,
        {
            let p = self.points[i];
            self.points[i] = Point { x: sat_neg(p.x), y: p.y, off_curve: p.off_curve };
            i += 1;
        }
    }

    /// Flips the sign of every y coordinate.
    pub fn reflect_y(&mut self)
        ensures
            final(self)@.len() == old(self)@.len(),
            forall|i: int|
                0 <= i < old(self)@.len() ==> final(self)@[i] == (Point {
                    x: old(self)@[i].x,
                    y: spec_sat_neg(old(self)@[i].y as int) as i64,
                    off_curve: old(self)@[i].off_curve,
                }),
    {
        let n = self.points.len();
        let mut i: usize = 0;
        while i < n
            invariant
                i <= n,
                n == self.points@.len(),
                self.points@.len() == old(self).points@.len(),
                forall|k: int| i <= k < n ==> self.points@[k] == old(self).points@[k],
                forall|k: int|
                    0 <= k < i ==> self.points@[k] == (Point {
                        x: old(self).points@[k].x,
                        y: spec_sat_neg(old(self).points@[k].y as int) as i64,
                        off_curve: old(self).points@[k].off_curve,
                    }),
            decreases n - i,
        {
            let p = self.points[i];
            self.points[i] = Point { x: p.x, y: sat_neg(p.y), off_curve: p.off_curve };
            i += 1;
        }
    }

    /// Rotates the contour a quarter turn clockwise about the origin.
    pub fn rotate_90(&mut self)
        ensures
            final(self)@.len() == old(self)@.len(),
            forall|i: int|
                0 <= i < old(self)@.len() ==> final(self)@[i] == (Point {
                    x: spec_sat_neg(old(self)@[i].y as int) as i64,
                    y: old(self)@[i].x,
                    off_curve: old(self)@[i].off_curve,
                }),
    {
        let n = self.points.len();
        let mut i: usize = 0;
        while i < n
            invariant
                i <= n,
                n == self.points@.len(),
                self.points@.len() == old(self).points@.len(),
                forall|k: int| i <= k < n ==> self.points@[k] == old(self).points@[k],
                forall|k: int|
                    0 <= k < i ==> self.points@[k] == (Point {
                        x: spec_sat_neg(old(self).points@[k].y as int) as i64,
                        y: old(self).points@[k].x,
                        off_curve: old(self).points@[k].off_curve,
                    }),
            decreases n - i,
        {
            let p = self.points[i];
            self.points[i] = Point { x: sat_neg(p.y), y: p.x, off_curve: p.off_curve };
            i += 1;
        }
    }

    /// Rotates the contour a half turn about the origin.
    pub fn rotate_180(&mut self)
        ensures
            final(self)@.len() == old(self)@.len(),
            forall|i: int|
                0 <= i < old(self)@.len() ==> final(self)@[i] == (Point {
                    x: spec_sat_neg(old(self)@[i].x as int) as i64,
                    y: spec_sat_neg(old(self)@[i].y as int) as i64,
                    off_curve: old(self)@[i].off_curve,
                }),
    {
        let n = self.points.len();
        let mut i: usize = 0;
        while i < n
            invariant
                i <= n,
                n == self.points@.len(),
                self.points@.len() == old(self).points@.len(),
                forall|k: int| i <= k < n ==> self.points@[k] == old(self).points@[k],
                forall|k: int|
                    0 <= k < i ==> self.points@[k] == (Point {
                        x: spec_sat_neg(old(self).points@[k].x as int) as i64,
                        y: spec_sat_neg(old(self).points@[k].y as int) as i64,
                        off_curve: old(self).points@[k].off_curve,
                    }),
            decreases n - i,
        {
            let p = self.points[i];
            self.points[i] = Point { x: sat_neg(p.x), y: sat_neg(p.y), off_curve: p.off_curve };
            i += 1;
        }
    }

    /// Rotates the contour a quarter turn counterclockwise about the origin.
    pub fn rotate_270(&mut self)
        ensures
            final(self)@.len() == old(self)@.len(),
            forall|i: int|
                0 <= i < old(self)@.len() ==> final(self)@[i] == (Point {
                    x: old(self)@[i].y,
                    y: spec_sat_neg(old(self)@[i].x as int) as i64,
                    off_curve: old(self)@[i].off_curve,
                }),
    {
        let n = self.points.len();
        let mut i: usize = 0;
        while i < n
            invariant
                i <= n,
                n == self.points@.len(),
                self.points@.len() == old(self).points@.len(),
                forall|k: int| i <= k < n ==> self.points@[k] == old(self).points@[k],
                forall|k: int|
                    0 <= k < i ==> self.points@[k] == (Point {
                        x: old(self).points@[k].y,
                        y: spec_sat_neg(old(self).points@[k].x as int) as i64,
                        off_curve: old(self).points@[k].off_curve,
                    }),
            decreases n - i,
        {
            let p = self.points[i];
            self.points[i] = Point { x: p.y, y: sat_neg(p.x), off_curve: p.off_curve };
            i += 1;
        }
    }

    /// Floors every coordinate to a whole tenth.  Stored coordinates are
    /// already whole tenths, so the contour is unchanged; the method stands
    /// where fractional intermediates would be floored.
    pub fn floor(&mut self)
        ensures
            final(self)@ == old(self)@,
    {
    }
}

} // verus!
