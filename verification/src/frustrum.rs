//! View-frustum culling over axis-aligned boxes.
//!
//! The camera's combined projection-view matrix is taken in fixed-point
//! form (each entry scaled by 65536), and the six clip planes fall out of
//! it by the standard row sums and differences, which are exact in fixed
//! point. A box is inside a plane when its corner farthest along the
//! plane's normal has non-negative signed distance; it intersects the
//! frustum when that holds for all six planes. Box corners are plain
//! block coordinates, so a signed distance carries the same 65536 scale
//! as the matrix.

use vstd::prelude::*;

verus! {

/// A clip plane: the outward normal and offset, scaled by 65536.
#[derive(Clone, Copy, PartialEq, Eq, Structural, Debug)]
pub struct Plane {
    pub nx: i64,
    pub ny: i64,
    pub nz: i64,
    pub d: i64,
}

/// A column-major 4 x 4 matrix in fixed point; the first letter of a
/// field names the column, the second the row.
#[derive(Clone, Copy, PartialEq, Eq, Structural, Debug)]
pub struct Matrix4 {
    pub xx: i64,
    pub xy: i64,
    pub xz: i64,
    pub xw: i64,
    pub yx: i64,
    pub yy: i64,
    pub yz: i64,
    pub yw: i64,
    pub zx: i64,
    pub zy: i64,
    pub zz: i64,
    pub zw: i64,
    pub wx: i64,
    pub wy: i64,
    pub wz: i64,
    pub ww: i64,
}

/// An axis-aligned box: its low corner and its extent along each axis,
/// in blocks.
#[derive(Clone, Copy, PartialEq, Eq, Structural, Debug)]
pub struct Aabb {
    pub x: i64,
    pub y: i64,
    pub z: i64,
    pub sx: i64,
    pub sy: i64,
    pub sz: i64,
}

/// Matrix entries small enough for exact plane extraction and distance
/// sums.
pub open spec fn matrix_bounded(m: Matrix4) -> bool {
    &&& -0x1000000000 <= m.xx <= 0x1000000000 && -0x1000000000 <= m.xy <= 0x1000000000
    &&& -0x1000000000 <= m.xz <= 0x1000000000 && -0x1000000000 <= m.xw <= 0x1000000000
    &&& -0x1000000000 <= m.yx <= 0x1000000000 && -0x1000000000 <= m.yy <= 0x1000000000
    &&& -0x1000000000 <= m.yz <= 0x1000000000 && -0x1000000000 <= m.yw <= 0x1000000000
    &&& -0x1000000000 <= m.zx <= 0x1000000000 && -0x1000000000 <= m.zy <= 0x1000000000
    &&& -0x1000000000 <= m.zz <= 0x1000000000 && -0x1000000000 <= m.zw <= 0x1000000000
    &&& -0x1000000000 <= m.wx <= 0x1000000000 && -0x1000000000 <= m.wy <= 0x1000000000
    &&& -0x1000000000 <= m.wz <= 0x1000000000 && -0x1000000000 <= m.ww <= 0x1000000000
}

/// Plane coefficients small enough for exact distance sums.
pub open spec fn plane_bounded(p: Plane) -> bool {
    -0x2000000000 <= p.nx <= 0x2000000000 && -0x2000000000 <= p.ny <= 0x2000000000
        && -0x2000000000 <= p.nz <= 0x2000000000 && -0x2000000000 <= p.d <= 0x2000000000
}

/// Box coordinates small enough for exact distance sums.
pub open spec fn aabb_bounded(b: Aabb) -> bool {
    &&& -0x800000 <= b.x <= 0x800000 && -0x800000 <= b.y <= 0x800000 && -0x800000 <= b.z
        <= 0x800000
    &&& 0 <= b.sx <= 0x800000 && 0 <= b.sy <= 0x800000 && 0 <= b.sz <= 0x800000
}

/// The signed distance of a point to a plane, carrying the 65536 scale.
pub open spec fn spec_distance(p: Plane, px: int, py: int, pz: int) -> int {
    p.nx * px + p.ny * py + p.nz * pz + p.d
}

/// The box corner farthest along a direction, per axis: the high corner
/// where the direction is positive, the low corner elsewhere.
pub open spec fn spec_farthest_x(b: Aabb, p: Plane) -> int {
    if p.nx > 0 {
        b.x + b.sx
    } else {
        b.x as int
    }
}

pub open spec fn spec_farthest_y(b: Aabb, p: Plane) -> int {
    if p.ny > 0 {
        b.y + b.sy
    } else {
        b.y as int
    }
}

pub open spec fn spec_farthest_z(b: Aabb, p: Plane) -> int {
    if p.nz > 0 {
        b.z + b.sz
    } else {
        b.z as int
    }
}

/// A box is inside a plane when its farthest corner along the normal has
/// non-negative signed distance.
pub open spec fn spec_inside(p: Plane, b: Aabb) -> bool {
    spec_distance(p, spec_farthest_x(b, p), spec_farthest_y(b, p), spec_farthest_z(b, p)) >= 0
}

impl Plane {
    /// The signed distance of a point to the plane; see `spec_distance`.
    pub fn distance_to_point(&self, px: i64, py: i64, pz: i64) -> (r: i64)
        requires
            plane_bounded(*self),
            -0x1000000 <= px <= 0x1000000,
            -0x1000000 <= py <= 0x1000000,
            -0x1000000 <= pz <= 0x1000000,
        ensures
            r as int == spec_distance(*self, px as int, py as int, pz as int),
    {
        proof {
            lemma_dist_bound(self.nx as int, px as int);
            lemma_dist_bound(self.ny as int, py as int);
            lemma_dist_bound(self.nz as int, pz as int);
        }
        self.nx * px + self.ny * py + self.nz * pz + self.d
    }
}

/// A bounded product stays far from the i64 range ends.
proof fn lemma_dist_bound(n: int, p: int)
    requires
        -0x2000000000 <= n <= 0x2000000000,
        -0x1000000 <= p <= 0x1000000,
    ensures
        -0x2000000000000000 <= n * p <= 0x2000000000000000,
{
    assert(-0x2000000000000000 <= n * p <= 0x2000000000000000) by (nonlinear_arith)
        requires
            -0x2000000000 <= n <= 0x2000000000,
            -0x1000000 <= p <= 0x1000000,
    ;
}

/// The six clip planes of a camera.
#[derive(Clone, Copy, PartialEq, Eq, Structural, Debug)]
pub struct Frustrum {
    pub left: Plane,
    pub right: Plane,
    pub bottom: Plane,
    pub top: Plane,
    pub near: Plane,
    pub far: Plane,
}

/// All six planes within the extraction bounds.
pub open spec fn frustrum_bounded(f: Frustrum) -> bool {
    plane_bounded(f.left) && plane_bounded(f.right) && plane_bounded(f.bottom) && plane_bounded(
        f.top,
    ) && plane_bounded(f.near) && plane_bounded(f.far)
}

/// A box intersects the frustum when it is inside all six planes.
pub open spec fn spec_intersects(f: Frustrum, b: Aabb) -> bool {
    spec_inside(f.left, b) && spec_inside(f.right, b) && spec_inside(f.bottom, b) && spec_inside(
        f.top,
        b,
    ) && spec_inside(f.near, b) && spec_inside(f.far, b)
}

impl Frustrum {
    /// Extracts the six clip planes from the combined projection-view
    /// matrix by the standard row sums and differences.
    pub fn new(projection: &Matrix4) -> (r: Frustrum)
        requires
            matrix_bounded(*projection),
        ensures
            frustrum_bounded(r),
            r.left == (Plane {
                nx: (projection.xw + projection.xx) as i64,
                ny: (projection.yw + projection.yx) as i64,
                nz: (projection.zw + projection.zx) as i64,
                d: (projection.ww + projection.wx) as i64,
            }),
            r.right == (Plane {
                nx: (projection.xw - projection.xx) as i64,
                ny: (projection.yw - projection.yx) as i64,
                nz: (projection.zw - projection.zx) as i64,
                d: (projection.ww - projection.wx) as i64,
            }),
            r.bottom == (Plane {
                nx: (projection.xw + projection.xy) as i64,
                ny: (projection.yw + projection.yy) as i64,
                nz: (projection.zw + projection.zy) as i64,
                d: (projection.ww + projection.wy) as i64,
            }),
            r.top == (Plane {
                nx: (projection.xw - projection.xy) as i64,
                ny: (projection.yw - projection.yy) as i64,
                nz: (projection.zw - projection.zy) as i64,
                d: (projection.ww - projection.wy) as i64,
            }),
            r.near == (Plane {
                nx: (projection.xw + projection.xz) as i64,
                ny: (projection.yw + projection.yz) as i64,
                nz: (projection.zw + projection.zz) as i64,
                d: (projection.ww + projection.wz) as i64,
            }),
            r.far == (Plane {
                nx: (projection.xw - projection.xz) as i64,
                ny: (projection.yw - projection.yz) as i64,
                nz: (projection.zw - projection.zz) as i64,
                d: (projection.ww - projection.wz) as i64,
            }),
    {
        Frustrum {
            left: Plane {
                nx: projection.xw + projection.xx,
                ny: projection.yw + projection.yx,
                nz: projection.zw + projection.zx,
                d: projection.ww + projection.wx,
            },
            right: Plane {
                nx: projection.xw - projection.xx,
                ny: projection.yw - projection.yx,
                nz: projection.zw - projection.zx,
                d: projection.ww - projection.wx,
            },
            bottom: Plane {
                nx: projection.xw + projection.xy,
                ny: projection.yw + projection.yy,
                nz: projection.zw + projection.zy,
                d: projection.ww + projection.wy,
            },
            top: Plane {
                nx: projection.xw - projection.xy,
                ny: projection.yw - projection.yy,
                nz: projection.zw - projection.zy,
                d: projection.ww - projection.wy,
            },
            near: Plane {
                nx: projection.xw + projection.xz,
                ny: projection.yw + projection.yz,
                nz: projection.zw + projection.zz,
                d: projection.ww + projection.wz,
            },
            far: Plane {
                nx: projection.xw - projection.xz,
                ny: projection.yw - projection.yz,
                nz: projection.zw - projection.zz,
                d: projection.ww - projection.wz,
            },
        }
    }

    /// Whether the box intersects the frustum; see `spec_intersects`.
    pub fn intersects_with_aabb(&self, aabb: &Aabb) -> (r: bool)
        requires
            frustrum_bounded(*self),
            aabb_bounded(*aabb),
        ensures
            r == spec_intersects(*self, *aabb),
    {
        plane_side(&self.left, aabb) && plane_side(&self.right, aabb) && plane_side(
            &self.bottom,
            aabb,
        ) && plane_side(&self.top, aabb) && plane_side(&self.near, aabb) && plane_side(
            &self.far,
            aabb,
        )
    }
}

/// Whether the box is inside one plane; see `spec_inside`.
fn plane_side(p: &Plane, b: &Aabb) -> (r: bool)
    requires
        plane_bounded(*p),
        aabb_bounded(*b),
    ensures
        r == spec_inside(*p, *b),
{
    let px: i64 = if p.nx > 0 {
        b.x + b.sx
    } else {
        b.x
    };
    let py: i64 = if p.ny > 0 {
        b.y + b.sy
    } else {
        b.y
    };
    let pz: i64 = if p.nz > 0 {
        b.z + b.sz
    } else {
        b.z
    };
    p.distance_to_point(px, py, pz) >= 0
}

/// The axis-aligned box of the chunk at the given chunk coordinates: 16
/// blocks square, the full world height tall.
pub open spec fn spec_chunk_aabb(x: int, z: int) -> Aabb {
    Aabb { x: (16 * x) as i64, y: 0, z: (16 * z) as i64, sx: 16, sy: 256, sz: 16 }
}

/// Builds the chunk's box; see `spec_chunk_aabb`.
pub fn chunk_aabb(x: i32, z: i32) -> (r: Aabb)
    ensures
        r == spec_chunk_aabb(x as int, z as int),
        -100000 <= x <= 100000 && -100000 <= z <= 100000 ==> aabb_bounded(r),
{
    Aabb { x: (x as i64) * 16, y: 0, z: (z as i64) * 16, sx: 16, sy: 256, sz: 16 }
}

} // verus!
