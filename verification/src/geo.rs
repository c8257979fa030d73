//! Positions and coarse tiles.
//!
//! A position is held in fixed point: both coordinates are whole multiples
//! of one ten-millionth of a degree, `x` the longitude and `y` the latitude.
//! A tile code is the 64-bit number of a hexagonal cell; the library compares
//! tile codes and never looks inside one.

use vstd::prelude::*;

verus! {

/// How many coordinate units make one degree.
pub const UNITS_PER_DEGREE: i64 = 10_000_000;

/// The largest longitude, in coordinate units.
pub const MAX_X: i64 = 1_800_000_000;

/// The largest latitude, in coordinate units.
pub const MAX_Y: i64 = 900_000_000;

/// The number of a hexagonal cell at some resolution.
pub type TileCode = u64;

/// A position on the globe, in coordinate units.
#[derive(Clone, Copy, Debug, PartialEq, Eq, Hash, Structural)]
pub struct Point {
    /// Longitude, in units of one ten-millionth of a degree.
    pub x: i64,
    /// Latitude, in units of one ten-millionth of a degree.
    pub y: i64,
}

impl Point {
    /// Whether the position lies on the globe.
    pub open spec fn spec_on_globe(self) -> bool {
        -MAX_X <= self.x <= MAX_X && -MAX_Y <= self.y <= MAX_Y
    }

    /// The position with the given coordinates.
    pub fn new(x: i64, y: i64) -> (p: Point)
        ensures
            p.x == x,
            p.y == y,
    {
        Point { x, y }
    }

    /// Whether the position lies on the globe.
    pub fn on_globe(&self) -> (b: bool)
        ensures
            b == self.spec_on_globe(),
    {
        -MAX_X <= self.x && self.x <= MAX_X && -MAX_Y <= self.y && self.y <= MAX_Y
    }

    /// The square of the straight-line distance between two positions, in
    /// squared coordinate units.
    pub open spec fn spec_distance_squared(self, other: Point) -> int {
        (self.x - other.x) * (self.x - other.x) + (self.y - other.y) * (self.y - other.y)
    }

    /// The square of the straight-line distance between two positions on the
    /// globe, in squared coordinate units.
    pub fn distance_squared(&self, other: &Point) -> (d: u64)
        requires
            self.spec_on_globe(),
            other.spec_on_globe(),
        ensures
            d == self.spec_distance_squared(*other),
    {
        let dx: i64 = self.x - other.x;
        let dy: i64 = self.y - other.y;
        assert(-3_600_000_000 <= dx <= 3_600_000_000);
        assert(-1_800_000_000 <= dy <= 1_800_000_000);
        assert(0 <= dx * dx <= 3_600_000_000 * 3_600_000_000) by (nonlinear_arith)
            requires
                -3_600_000_000 <= dx <= 3_600_000_000,
        ;
        assert(0 <= dy * dy <= 1_800_000_000 * 1_800_000_000) by (nonlinear_arith)
            requires
                -1_800_000_000 <= dy <= 1_800_000_000,
        ;
        let sx: i128 = (dx as i128) * (dx as i128);
        let sy: i128 = (dy as i128) * (dy as i128);
        (sx + sy) as u64
    }
}

/// The coordinate a fraction `numerator / denominator` of the way from
/// `base` to `target`, rounded towards `base`.
pub open spec fn spec_interpolate_coordinate(
    base: int,
    target: int,
    numerator: int,
    denominator: int,
) -> int {
    if target >= base {
        base + ((target - base) * numerator) / denominator
    } else {
        base - ((base - target) * numerator) / denominator
    }
}

/// The point a fraction `numerator / denominator` of the way from `from` to
/// `to`, each coordinate rounded towards `from`.
pub open spec fn spec_interpolate(
    from: Point,
    to: Point,
    numerator: int,
    denominator: int,
) -> Point {
    Point {
        x: spec_interpolate_coordinate(from.x as int, to.x as int, numerator, denominator) as i64,
        y: spec_interpolate_coordinate(from.y as int, to.y as int, numerator, denominator) as i64,
    }
}

/// The coordinate a fraction `numerator / denominator` of the way from
/// `base` to `target`, rounded towards `base`.
fn interpolate_coordinate(base: i64, target: i64, numerator: u128, denominator: u128) -> (r: i64)
    requires
        -MAX_X <= base <= MAX_X,
        -MAX_X <= target <= MAX_X,
        0 <= numerator <= denominator,
        0 < denominator < 0x1_0000_0000_0000_0000_0000_0000,
    ensures
        r == spec_interpolate_coordinate(base as int, target as int, numerator as int, denominator as int),
        base <= target ==> base <= r <= target,
        target <= base ==> target <= r <= base,
{
    let d: u128 = if target >= base { (target - base) as u128 } else { (base - target) as u128 };
    assert(d * numerator <= 3_600_000_000 * 0x1_0000_0000_0000_0000_0000_0000) by (nonlinear_arith)
        requires
            0 <= d <= 3_600_000_000,
            0 <= numerator < 0x1_0000_0000_0000_0000_0000_0000,
    ;
    let product: u128 = d * numerator;
    let step: u128 = product / denominator;
    assert(step <= d) by (nonlinear_arith)
        requires
            step == product / denominator,
            product == d * numerator,
            0 <= numerator <= denominator,
            0 < denominator,
            0 <= d,
    ;
    if target >= base {
        base + (step as i64)
    } else {
        base - (step as i64)
    }
}

/// The point a fraction `numerator / denominator` of the way from `from` to
/// `to`, each coordinate rounded towards `from`.
pub fn interpolate(from: &Point, to: &Point, numerator: u128, denominator: u128) -> (p: Point)
    requires
        from.spec_on_globe(),
        to.spec_on_globe(),
        0 <= numerator <= denominator,
        0 < denominator < 0x1_0000_0000_0000_0000_0000_0000,
    ensures
        p == spec_interpolate(*from, *to, numerator as int, denominator as int),
        p.spec_on_globe(),
{
    let x = interpolate_coordinate(from.x, to.x, numerator, denominator);
    let y = interpolate_coordinate(from.y, to.y, numerator, denominator);
    Point { x, y }
}

} // verus!
