use vstd::prelude::*;

verus! {

/// A position in space, each coordinate in thousandths of a world unit.
#[derive(Clone, Copy, Debug, PartialEq, Eq, Structural)]
pub struct Point {
    pub x: i64,
    pub y: i64,
    pub z: i64,
}

impl Point {
    /// Squared distance from the origin.
    pub open spec fn norm_sq(self) -> int {
        self.x * self.x + self.y * self.y + self.z * self.z
    }

    /// Whether the point lies in the closed ball of the given radius around the origin.
    pub open spec fn in_ball(self, radius: u64) -> bool {
        self.norm_sq() <= radius * radius
    }

    pub fn new(x: i64, y: i64, z: i64) -> (p: Point)
        ensures
            p == (Point { x, y, z }),
    {
        Point { x, y, z }
    }

    pub fn origin() -> (p: Point)
        ensures
            p == (Point { x: 0, y: 0, z: 0 }),
    {
        Point { x: 0, y: 0, z: 0 }
    }

    /// Tells whether the point lies within `radius` of the origin.
    pub fn within_radius(&self, radius: u64) -> (r: bool)
        ensures
            r == self.in_ball(radius),
    {
        let ax = abs_wide(self.x);
        let ay = abs_wide(self.y);
        let az = abs_wide(self.z);
        let r = radius as u128;
        assert(ax * ax <= 0x4000_0000_0000_0000_0000_0000_0000_0000) by (nonlinear_arith)
            requires ax <= 0x8000_0000_0000_0000u128;
        assert(ay * ay <= 0x4000_0000_0000_0000_0000_0000_0000_0000) by (nonlinear_arith)
            requires ay <= 0x8000_0000_0000_0000u128;
        assert(az * az <= 0x4000_0000_0000_0000_0000_0000_0000_0000) by (nonlinear_arith)
            requires az <= 0x8000_0000_0000_0000u128;
        assert(r * r <= 0xffff_ffff_ffff_ffff_ffff_ffff_ffff_ffffu128) by (nonlinear_arith)
            requires r <= 0xffff_ffff_ffff_ffffu128;
        assert(ax * ax == self.x * self.x) by (nonlinear_arith)
            requires ax == self.x || ax == -self.x;
        assert(ay * ay == self.y * self.y) by (nonlinear_arith)
            requires ay == self.y || ay == -self.y;
        assert(az * az == self.z * self.z) by (nonlinear_arith)
            requires az == self.z || az == -self.z;
        ax * ax + ay * ay + az * az <= r * r
    }
}

/// The absolute value of a coordinate, widened so that `i64::MIN` fits.
fn abs_wide(v: i64) -> (r: u128)
    ensures
        r == v || r == -v,
        r <= 0x8000_0000_0000_0000u128,
{
    if v < 0 {
        (-(v as i128)) as u128
    } else {
        v as u128
    }
}

} // verus!
