//! Fixed-point 3D geometry: positions, integer square roots, truncating
//! division, and axis-aligned bounding boxes.

use vstd::prelude::*;

verus! {

/// Largest magnitude a stored coordinate may have.
pub const POS_LIMIT: i64 = 0x20000000;

/// Truncating (round-toward-zero) division, as Rust's `/` computes it on
/// signed integers.
pub open spec fn spec_tdiv(a: int, b: int) -> int {
    if a >= 0 {
        a / b
    } else {
        -((-a) / b)
    }
}

/// Truncating division of `a` by a positive divisor `b`.
pub fn tdiv(a: i128, b: i128) -> (r: i128)
    requires
        b > 0,
        a > i128::MIN,
    ensures
        r == spec_tdiv(a as int, b as int),
        a >= 0 ==> 0 <= r <= a,
        a < 0 ==> a <= r <= 0,
{
    if a >= 0 {
        let q = (a as u128) / (b as u128);
        proof {
            vstd::arithmetic::div_mod::lemma_div_nonincreasing(a as int, b as int);
            vstd::arithmetic::div_mod::lemma_div_pos_is_pos(a as int, b as int);
        }
        q as i128
    } else {
        let n = -a;
        let q = (n as u128) / (b as u128);
        proof {
            vstd::arithmetic::div_mod::lemma_div_nonincreasing(n as int, b as int);
            vstd::arithmetic::div_mod::lemma_div_pos_is_pos(n as int, b as int);
        }
        -(q as i128)
    }
}

/// Clamps `a` into `[-limit, limit]`.
pub open spec fn spec_clamp(a: int, limit: int) -> int {
    if a < -limit {
        -limit
    } else if a > limit {
        limit
    } else {
        a
    }
}

/// Clamps a 128-bit value into `[-limit, limit]`.
pub fn clamp128(a: i128, limit: i128) -> (r: i128)
    requires
        0 < limit,
    ensures
        r == spec_clamp(a as int, limit as int),
        -limit <= r <= limit,
{
    if a < -limit {
        -limit
    } else if a > limit {
        limit
    } else {
        a
    }
}

/// The integer square root of a nonnegative number: the unique `r >= 0`
/// with `r * r <= n < (r + 1) * (r + 1)`.
pub open spec fn spec_isqrt(n: int) -> int {
    choose|r: int| 0 <= r && #[trigger] (r * r) <= n && (r + 1) * (r + 1) > n
}

/// Any two integer square roots of the same number are equal.
pub proof fn lemma_isqrt_unique(n: int, r1: int, r2: int)
    requires
        0 <= r1 && r1 * r1 <= n && (r1 + 1) * (r1 + 1) > n,
        0 <= r2 && r2 * r2 <= n && (r2 + 1) * (r2 + 1) > n,
    ensures
        r1 == r2,
{
    assert(r1 == r2) by (nonlinear_arith)
        requires
            0 <= r1 && r1 * r1 <= n && (r1 + 1) * (r1 + 1) > n,
            0 <= r2 && r2 * r2 <= n && (r2 + 1) * (r2 + 1) > n,
    ;
}

/// Integer square root: the largest `r` with `r * r <= n`.
pub fn isqrt(n: u128) -> (r: u128)
    requires
        n < 0x4000000000000000000000000000,
    ensures
        r * r <= n,
        (r + 1) * (r + 1) > n,
        r == spec_isqrt(n as int),
{
    let mut lo: u128 = 0;
    let mut hi: u128 = 0x80000000000000;
    proof {
        assert(0x80000000000000u128 * 0x80000000000000u128 > n) by (nonlinear_arith)
            requires
                n < 0x4000000000000000000000000000,
        ;
    }
    while lo + 1 < hi
        invariant
            lo < hi,
            lo * lo <= n,
            hi * hi > n,
            hi <= 0x80000000000000,
        decreases hi - lo,
    {
        let mid = lo + (hi - lo) / 2;
        proof {
            assert(lo < mid < hi);
            assert(mid * mid < 0x4000000000000000000000000000u128 + 1) by (nonlinear_arith)
                requires
                    mid <= 0x80000000000000u128,
            ;
        }
        if mid * mid <= n {
            lo = mid;
        } else {
            hi = mid;
        }
    }
    proof {
        let w = spec_isqrt(n as int);
        assert(0 <= (lo as int) && (lo as int) * (lo as int) <= n as int && ((lo as int) + 1) * ((
        lo as int) + 1) > n as int);
        assert(0 <= w && w * w <= n as int && (w + 1) * (w + 1) > n as int);
        lemma_isqrt_unique(n as int, lo as int, w);
    }
    lo
}

/// A fixed-point point or vector in 3D space.
#[derive(Clone, Copy, PartialEq, Eq, Structural, Debug)]
pub struct Pos {
    pub x: i64,
    pub y: i64,
    pub z: i64,
}

impl Pos {
    /// Every coordinate is within the storable band.
    pub open spec fn wf(self) -> bool {
        &&& -POS_LIMIT <= self.x <= POS_LIMIT
        &&& -POS_LIMIT <= self.y <= POS_LIMIT
        &&& -POS_LIMIT <= self.z <= POS_LIMIT
    }

    /// The same point with each coordinate clamped into the storable band.
    pub open spec fn spec_clamped(self) -> Pos {
        Pos {
            x: spec_clamp(self.x as int, POS_LIMIT as int) as i64,
            y: spec_clamp(self.y as int, POS_LIMIT as int) as i64,
            z: spec_clamp(self.z as int, POS_LIMIT as int) as i64,
        }
    }

    /// The origin.
    pub fn origin() -> (r: Pos)
        ensures
            r == (Pos { x: 0, y: 0, z: 0 }),
            r.wf(),
    {
        Pos { x: 0, y: 0, z: 0 }
    }

    /// Builds a point from coordinates.
    pub fn new(x: i64, y: i64, z: i64) -> (r: Pos)
        ensures
            r == (Pos { x, y, z }),
    {
        Pos { x, y, z }
    }

    /// Clamps each coordinate into the storable band.
    pub fn clamped(self) -> (r: Pos)
        ensures
            r == self.spec_clamped(),
            r.wf(),
    {
        Pos {
            x: clamp128(self.x as i128, POS_LIMIT as i128) as i64,
            y: clamp128(self.y as i128, POS_LIMIT as i128) as i64,
            z: clamp128(self.z as i128, POS_LIMIT as i128) as i64,
        }
    }

    /// Squared distance to `other`, exact in 128-bit arithmetic.
    pub fn dist_sq(self, other: Pos) -> (r: i128)
        requires
            self.wf(),
            other.wf(),
        ensures
            r == ((self.x - other.x) * (self.x - other.x) + (self.y - other.y) * (self.y
                - other.y) + (self.z - other.z) * (self.z - other.z)),
            r >= 0,
    {
        let dx = self.x as i128 - other.x as i128;
        let dy = self.y as i128 - other.y as i128;
        let dz = self.z as i128 - other.z as i128;
        proof {
            assert(dx * dx >= 0 && dx * dx <= 0x1000000000000000i128 && dy * dy >= 0 && dy * dy
                <= 0x1000000000000000i128 && dz * dz >= 0 && dz * dz
                <= 0x1000000000000000i128) by (nonlinear_arith)
                requires
                    -0x40000000i128 <= dx <= 0x40000000i128,
                    -0x40000000i128 <= dy <= 0x40000000i128,
                    -0x40000000i128 <= dz <= 0x40000000i128,
            ;
        }
        dx * dx + dy * dy + dz * dz
    }
}

/// An axis-aligned bounding box, tracked as it is grown around atom spheres.
/// An empty box contains nothing.
#[derive(Clone, Copy, PartialEq, Eq, Structural, Debug)]
pub struct BoundingBox {
    /// Whether the box contains nothing at all.
    pub empty: bool,
    /// Lower corner; meaningful only when the box is not empty.
    pub min: Pos,
    /// Upper corner; meaningful only when the box is not empty.
    pub max: Pos,
}

/// Largest magnitude a bounding-box corner coordinate may have: a stored
/// position extended by the largest atomic radius.
pub const BBOX_LIMIT: i64 = 0x20000000 + 0x100000;

impl BoundingBox {
    /// Either empty, or a non-degenerate box with corners in range.
    pub open spec fn wf(self) -> bool {
        self.empty || {
            &&& self.min.x <= self.max.x
            &&& self.min.y <= self.max.y
            &&& self.min.z <= self.max.z
            &&& -BBOX_LIMIT <= self.min.x && self.max.x <= BBOX_LIMIT
            &&& -BBOX_LIMIT <= self.min.y && self.max.y <= BBOX_LIMIT
            &&& -BBOX_LIMIT <= self.min.z && self.max.z <= BBOX_LIMIT
        }
    }

    /// Whether the box is empty.
    pub open spec fn spec_is_empty(self) -> bool {
        self.empty
    }

    /// Whether the box contains point `p`.
    pub open spec fn spec_contains(self, p: Pos) -> bool {
        &&& !self.empty
        &&& self.min.x <= p.x <= self.max.x
        &&& self.min.y <= p.y <= self.max.y
        &&& self.min.z <= p.z <= self.max.z
    }

    /// Whether the box contains the whole sphere of radius `r` around `c`.
    pub open spec fn spec_contains_sphere(self, c: Pos, r: u32) -> bool {
        &&& !self.empty
        &&& self.min.x <= c.x - r && c.x + r <= self.max.x
        &&& self.min.y <= c.y - r && c.y + r <= self.max.y
        &&& self.min.z <= c.z - r && c.z + r <= self.max.z
    }

    /// The empty box.
    pub fn empty() -> (r: BoundingBox)
        ensures
            r.wf(),
            r.spec_is_empty(),
            forall|p: Pos| !r.spec_contains(p),
    {
        BoundingBox { empty: true, min: Pos { x: 0, y: 0, z: 0 }, max: Pos { x: 0, y: 0, z: 0 } }
    }

    /// Whether the box is empty.
    pub fn is_empty(&self) -> (r: bool)
        ensures
            r == self.spec_is_empty(),
    {
        self.empty
    }

    /// Whether the box contains point `p`.
    pub fn contains(&self, p: Pos) -> (r: bool)
        ensures
            r == self.spec_contains(p),
    {
        !self.empty && self.min.x <= p.x && p.x <= self.max.x && self.min.y <= p.y && p.y
            <= self.max.y && self.min.z <= p.z && p.z <= self.max.z
    }

    /// The componentwise union of two boxes.
    pub open spec fn spec_union(self, other: BoundingBox) -> BoundingBox {
        if self.empty {
            other
        } else if other.empty {
            self
        } else {
            BoundingBox {
                empty: false,
                min: Pos {
                    x: if self.min.x < other.min.x { self.min.x } else { other.min.x },
                    y: if self.min.y < other.min.y { self.min.y } else { other.min.y },
                    z: if self.min.z < other.min.z { self.min.z } else { other.min.z },
                },
                max: Pos {
                    x: if self.max.x > other.max.x { self.max.x } else { other.max.x },
                    y: if self.max.y > other.max.y { self.max.y } else { other.max.y },
                    z: if self.max.z > other.max.z { self.max.z } else { other.max.z },
                },
            }
        }
    }

    /// The smallest box around the sphere of radius `r` at `c`.
    pub open spec fn sphere_box(c: Pos, r: u32) -> BoundingBox {
        BoundingBox {
            empty: false,
            min: Pos { x: (c.x - r) as i64, y: (c.y - r) as i64, z: (c.z - r) as i64 },
            max: Pos { x: (c.x + r) as i64, y: (c.y + r) as i64, z: (c.z + r) as i64 },
        }
    }

    /// The smallest box containing both `self` and `other`: the
    /// componentwise minimum of the lower corners and maximum of the upper
    /// corners (or the other box verbatim when one is empty).
    pub fn union(&self, other: &BoundingBox) -> (r: BoundingBox)
        requires
            self.wf(),
            other.wf(),
        ensures
            r.wf(),
            r == self.spec_union(*other),
            forall|p: Pos| self.spec_contains(p) ==> r.spec_contains(p),
            forall|p: Pos| other.spec_contains(p) ==> r.spec_contains(p),
            r.spec_is_empty() == (self.spec_is_empty() && other.spec_is_empty()),
    {
        if self.empty {
            return *other;
        }
        if other.empty {
            return *self;
        }
        BoundingBox {
            empty: false,
            min: Pos {
                x: if self.min.x < other.min.x { self.min.x } else { other.min.x },
                y: if self.min.y < other.min.y { self.min.y } else { other.min.y },
                z: if self.min.z < other.min.z { self.min.z } else { other.min.z },
            },
            max: Pos {
                x: if self.max.x > other.max.x { self.max.x } else { other.max.x },
                y: if self.max.y > other.max.y { self.max.y } else { other.max.y },
                z: if self.max.z > other.max.z { self.max.z } else { other.max.z },
            },
        }
    }

    /// Grows the box so it contains the whole sphere of radius `radius`
    /// around `center`: exactly the union with the sphere's box.
    /// Everything the box contained stays contained.
    pub fn enclose_sphere(&mut self, center: Pos, radius: u32)
        requires
            old(self).wf(),
            center.wf(),
            radius <= 0x100000,
        ensures
            final(self).wf(),
            *final(self) == old(self).spec_union(BoundingBox::sphere_box(center, radius)),
            !final(self).spec_is_empty(),
            final(self).spec_contains_sphere(center, radius),
            final(self).spec_contains(center),
            forall|p: Pos| old(self).spec_contains(p) ==> final(self).spec_contains(p),
            forall|c: Pos, r: u32|
                old(self).spec_contains_sphere(c, r) ==> final(self).spec_contains_sphere(c, r),
    {
        let r = radius as i64;
        let lo = Pos { x: center.x - r, y: center.y - r, z: center.z - r };
        let hi = Pos { x: center.x + r, y: center.y + r, z: center.z + r };
        if self.empty {
            self.empty = false;
            self.min = lo;
            self.max = hi;
        } else {
            if lo.x < self.min.x {
                self.min.x = lo.x;
            }
            if lo.y < self.min.y {
                self.min.y = lo.y;
            }
            if lo.z < self.min.z {
                self.min.z = lo.z;
            }
            if hi.x > self.max.x {
                self.max.x = hi.x;
            }
            if hi.y > self.max.y {
                self.max.y = hi.y;
            }
            if hi.z > self.max.z {
                self.max.z = hi.z;
            }
        }
    }
}

} // verus!
