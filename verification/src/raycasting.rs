//! Voxel ray casting for block picking, on fixed-point coordinates
//! (scaled by 65536).
//!
//! The ray keeps three plane checkers, one per axis, each positioned on
//! the next grid plane perpendicular to that axis along the ray. Every
//! step advances whichever checker is nearest, reads the block behind
//! the crossed face, and stops at the first opaque block within range.
//! A direction component smaller than 16/65536 of a block per unit is
//! treated as parallel to its planes, and the walk carries a generous
//! step budget, so it always terminates; both are exact mirrors of the
//! specification functions below.

use vstd::prelude::*;

use crate::blocks::{id_transparent, spec_block_of, Block};
use crate::coords::BlockCoords;
use crate::world::World;

verus! {

/// A point or direction in fixed-point world coordinates: 65536 units
/// per block.
#[derive(Clone, Copy, PartialEq, Eq, Structural, Debug)]
pub struct Vec3Fx {
    pub x: i64,
    pub y: i64,
    pub z: i64,
}

/// The side of a block a ray can enter through, named by the axis the
/// face looks along.
#[derive(Clone, Copy, PartialEq, Eq, Structural, Debug)]
pub enum BlockSide {
    NegZ,
    PosZ,
    NegY,
    PosY,
    NegX,
    PosX,
}

impl BlockSide {
    /// The outward direction of the side, as a unit block offset.
    pub fn to_direction(self) -> (r: BlockCoords)
        ensures
            r == spec_side_direction(self),
    {
        match self {
            BlockSide::NegZ => BlockCoords { x: 0, y: 0, z: -1 },
            BlockSide::PosZ => BlockCoords { x: 0, y: 0, z: 1 },
            BlockSide::NegY => BlockCoords { x: 0, y: -1, z: 0 },
            BlockSide::PosY => BlockCoords { x: 0, y: 1, z: 0 },
            BlockSide::NegX => BlockCoords { x: -1, y: 0, z: 0 },
            BlockSide::PosX => BlockCoords { x: 1, y: 0, z: 0 },
        }
    }
}

/// The outward direction of a side; see `BlockSide::to_direction`.
pub open spec fn spec_side_direction(s: BlockSide) -> BlockCoords {
    match s {
        BlockSide::NegZ => BlockCoords { x: 0, y: 0, z: (-1) as i32 },
        BlockSide::PosZ => BlockCoords { x: 0, y: 0, z: 1 },
        BlockSide::NegY => BlockCoords { x: 0, y: (-1) as i32, z: 0 },
        BlockSide::PosY => BlockCoords { x: 0, y: 1, z: 0 },
        BlockSide::NegX => BlockCoords { x: (-1) as i32, y: 0, z: 0 },
        BlockSide::PosX => BlockCoords { x: 1, y: 0, z: 0 },
    }
}

/// A successful pick: the crossing point, the face entered, the block's
/// coordinates and its table entry.
#[derive(Clone, Copy, PartialEq, Eq, Structural, Debug)]
pub struct Hit {
    pub point: Vec3Fx,
    pub side: BlockSide,
    pub coords: BlockCoords,
    pub block: Block,
}

/// One plane checker: whether its axis is active, the per-crossing step,
/// and the current crossing point.
#[derive(Clone, Copy, PartialEq, Eq, Structural, Debug)]
pub struct Checker {
    pub active: bool,
    pub step: Vec3Fx,
    pub cur: Vec3Fx,
}

/// Step budget of one cast. A ray of at most 600 blocks crosses fewer
/// than 6 * 600 + 6 grid planes, so within the supported range the
/// budget never runs out and the walk ends by distance alone.
pub const RAY_FUEL: u32 = 4096;

/// Truncating integer division, as the machine performs it.
pub open spec fn spec_tdiv(a: int, b: int) -> int {
    if a == 0 {
        0
    } else if a > 0 && b > 0 {
        a / b
    } else if a < 0 && b < 0 {
        (a * -1) / (b * -1)
    } else if a < 0 {
        ((a * -1) / b) * -1
    } else {
        (a / (b * -1)) * -1
    }
}

/// The squared distance between two fixed-point points.
pub open spec fn spec_dist2(a: Vec3Fx, b: Vec3Fx) -> int {
    (a.x - b.x) * (a.x - b.x) + (a.y - b.y) * (a.y - b.y) + (a.z - b.z) * (a.z - b.z)
}

/// All components within the given magnitude.
pub open spec fn fx_bounded(v: Vec3Fx, m: int) -> bool {
    -m <= v.x <= m && -m <= v.y <= m && -m <= v.z <= m
}

/// A checker's points and steps stay within the walk's working range.
pub open spec fn checker_bounded(c: Checker) -> bool {
    fx_bounded(c.cur, 0x400000000000) && fx_bounded(c.step, 0x1000000000)
}

/// A checker advanced to its next plane crossing.
pub open spec fn spec_advanced(c: Checker) -> Checker {
    Checker {
        active: c.active,
        step: c.step,
        cur: Vec3Fx {
            x: (c.cur.x + c.step.x) as i64,
            y: (c.cur.y + c.step.y) as i64,
            z: (c.cur.z + c.step.z) as i64,
        },
    }
}

/// What the walk does with the chosen checker: give up past the range or
/// the working bounds, stop at an opaque block behind the crossed face,
/// or advance. `axis` names the planes the checker crosses: 0 for x
/// planes, 1 for y, 2 for z.
pub open spec fn spec_cross(w: World, c: Checker, axis: int) -> Option<Hit> {
    let coords = if axis == 2 {
        BlockCoords {
            x: (c.cur.x as int / 65536) as i32,
            y: (c.cur.y as int / 65536) as i32,
            z: (c.cur.z as int / 65536 - (if c.step.z < 0 {
                1int
            } else {
                0int
            })) as i32,
        }
    } else if axis == 1 {
        BlockCoords {
            x: (c.cur.x as int / 65536) as i32,
            y: (c.cur.y as int / 65536 - (if c.step.y < 0 {
                1int
            } else {
                0int
            })) as i32,
            z: (c.cur.z as int / 65536) as i32,
        }
    } else {
        BlockCoords {
            x: (c.cur.x as int / 65536 - (if c.step.x < 0 {
                1int
            } else {
                0int
            })) as i32,
            y: (c.cur.y as int / 65536) as i32,
            z: (c.cur.z as int / 65536) as i32,
        }
    };
    let side = if axis == 2 {
        if c.step.z < 0 {
            BlockSide::PosZ
        } else {
            BlockSide::NegZ
        }
    } else if axis == 1 {
        if c.step.y < 0 {
            BlockSide::PosY
        } else {
            BlockSide::NegY
        }
    } else {
        if c.step.x < 0 {
            BlockSide::PosX
        } else {
            BlockSide::NegX
        }
    };
    match w.spec_cell_at(coords.x as int, coords.y as int, coords.z as int) {
        Option::Some(cell) => if !id_transparent(cell.block_id) {
            Option::Some(
                Hit { point: c.cur, side, coords, block: spec_block_of(cell.block_id) },
            )
        } else {
            Option::None
        },
        Option::None => Option::None,
    }
}

/// The walk itself: pick the nearest active checker, stop past the
/// range, report the block behind the crossed face if it is opaque, or
/// advance that checker and carry on.
pub open spec fn spec_ray_step(
    w: World,
    origin: Vec3Fx,
    cxy: Checker,
    cxz: Checker,
    cyz: Checker,
    max_d2: int,
    fuel: nat,
) -> Option<Hit>
    decreases fuel,
{
    if fuel == 0 {
        Option::None
    } else {
        let dxy = spec_dist2(origin, cxy.cur);
        let dxz = spec_dist2(origin, cxz.cur);
        let dyz = spec_dist2(origin, cyz.cur);
        let next_xy = cxy.active && (!cxz.active || dxy < dxz) && (!cyz.active || dxy < dyz);
        let next_xz = cxz.active && (!cxy.active || dxz < dxy) && (!cyz.active || dxz < dyz);
        if next_xy {
            if dxy > max_d2 || !fx_bounded(cxy.cur, 0x200000000000) {
                Option::None
            } else {
                match spec_cross(w, cxy, 2) {
                    Option::Some(h) => Option::Some(h),
                    Option::None => spec_ray_step(
                        w,
                        origin,
                        spec_advanced(cxy),
                        cxz,
                        cyz,
                        max_d2,
                        (fuel - 1) as nat,
                    ),
                }
            }
        } else if next_xz {
            if dxz > max_d2 || !fx_bounded(cxz.cur, 0x200000000000) {
                Option::None
            } else {
                match spec_cross(w, cxz, 1) {
                    Option::Some(h) => Option::Some(h),
                    Option::None => spec_ray_step(
                        w,
                        origin,
                        cxy,
                        spec_advanced(cxz),
                        cyz,
                        max_d2,
                        (fuel - 1) as nat,
                    ),
                }
            }
        } else if cyz.active {
            if dyz > max_d2 || !fx_bounded(cyz.cur, 0x200000000000) {
                Option::None
            } else {
                match spec_cross(w, cyz, 0) {
                    Option::Some(h) => Option::Some(h),
                    Option::None => spec_ray_step(
                        w,
                        origin,
                        cxy,
                        cxz,
                        spec_advanced(cyz),
                        max_d2,
                        (fuel - 1) as nat,
                    ),
                }
            }
        } else {
            Option::None
        }
    }
}

/// The squared fixed-point distance; see `spec_dist2`.
fn dist2_fx(a: Vec3Fx, b: Vec3Fx) -> (r: i128)
    requires
        fx_bounded(a, 0x400000000000),
        fx_bounded(b, 0x400000000000),
    ensures
        r as int == spec_dist2(a, b),
        r >= 0,
{
    let dx: i128 = (a.x as i128) - (b.x as i128);
    let dy: i128 = (a.y as i128) - (b.y as i128);
    let dz: i128 = (a.z as i128) - (b.z as i128);
    proof {
        lemma_sq_bound(dx as int);
        lemma_sq_bound(dy as int);
        lemma_sq_bound(dz as int);
    }
    dx * dx + dy * dy + dz * dz
}

/// A bounded square stays far from the i128 range ends.
proof fn lemma_sq_bound(a: int)
    requires
        -0x800000000000 <= a <= 0x800000000000,
    ensures
        0 <= a * a <= 0x400000000000000000000000,
{
    assert(0 <= a * a <= 0x400000000000000000000000) by (nonlinear_arith)
        requires
            -0x800000000000 <= a <= 0x800000000000,
    ;
}

/// One cross attempt of the chosen checker; see `spec_cross`.
fn cross(world: &World, c: &Checker, axis: usize) -> (r: Option<Hit>)
    requires
        world.wf(),
        axis < 3,
        fx_bounded(c.cur, 0x200000000000),
        fx_bounded(c.step, 0x1000000000),
    ensures
        r == spec_cross(*world, *c, axis as int),
{
    let bx: i64 = c.cur.x.checked_div_euclid(65536).unwrap();
    let by: i64 = c.cur.y.checked_div_euclid(65536).unwrap();
    let bz: i64 = c.cur.z.checked_div_euclid(65536).unwrap();
    let (coords, side) = if axis == 2 {
        (
            BlockCoords {
                x: bx as i32,
                y: by as i32,
                z: (bz - (if c.step.z < 0 {
                    1
                } else {
                    0
                })) as i32,
            },
            if c.step.z < 0 {
                BlockSide::PosZ
            } else {
                BlockSide::NegZ
            },
        )
    } else if axis == 1 {
        (
            BlockCoords {
                x: bx as i32,
                y: (by - (if c.step.y < 0 {
                    1
                } else {
                    0
                })) as i32,
                z: bz as i32,
            },
            if c.step.y < 0 {
                BlockSide::PosY
            } else {
                BlockSide::NegY
            },
        )
    } else {
        (
            BlockCoords {
                x: (bx - (if c.step.x < 0 {
                    1
                } else {
                    0
                })) as i32,
                y: by as i32,
                z: bz as i32,
            },
            if c.step.x < 0 {
                BlockSide::PosX
            } else {
                BlockSide::NegX
            },
        )
    };
    match world.get_block(coords) {
        Some(b) => {
            if !b.is_transparent() {
                Some(Hit { point: c.cur, side, coords, block: b })
            } else {
                None
            }
        },
        None => None,
    }
}

/// The walk, executable; see `spec_ray_step`.
fn ray_step(
    world: &World,
    origin: Vec3Fx,
    cxy: Checker,
    cxz: Checker,
    cyz: Checker,
    max_d2: i128,
    fuel: u32,
) -> (r: Option<Hit>)
    requires
        world.wf(),
        fx_bounded(origin, 0x400000000000),
        checker_bounded(cxy),
        checker_bounded(cxz),
        checker_bounded(cyz),
    ensures
        r == spec_ray_step(*world, origin, cxy, cxz, cyz, max_d2 as int, fuel as nat),
    decreases fuel,
{
    if fuel == 0 {
        return None;
    }
    let dxy = dist2_fx(origin, cxy.cur);
    let dxz = dist2_fx(origin, cxz.cur);
    let dyz = dist2_fx(origin, cyz.cur);
    let next_xy = cxy.active && (!cxz.active || dxy < dxz) && (!cyz.active || dxy < dyz);
    let next_xz = cxz.active && (!cxy.active || dxz < dxy) && (!cyz.active || dxz < dyz);
    if next_xy {
        if dxy > max_d2 || !in_working_range(&cxy.cur) {
            return None;
        }
        match cross(world, &cxy, 2) {
            Some(h) => Some(h),
            None => ray_step(world, origin, advanced(&cxy), cxz, cyz, max_d2, fuel - 1),
        }
    } else if next_xz {
        if dxz > max_d2 || !in_working_range(&cxz.cur) {
            return None;
        }
        match cross(world, &cxz, 1) {
            Some(h) => Some(h),
            None => ray_step(world, origin, cxy, advanced(&cxz), cyz, max_d2, fuel - 1),
        }
    } else if cyz.active {
        if dyz > max_d2 || !in_working_range(&cyz.cur) {
            return None;
        }
        match cross(world, &cyz, 0) {
            Some(h) => Some(h),
            None => ray_step(world, origin, cxy, cxz, advanced(&cyz), max_d2, fuel - 1),
        }
    } else {
        None
    }
}

/// Whether a direction component crosses its planes at all: smaller
/// magnitudes are treated as parallel.
pub open spec fn axis_active(d: int) -> bool {
    d >= 16 || d <= -16
}

/// Fixed-point division: the quotient of two fixed-point numbers, again
/// in fixed point, truncated.
pub open spec fn spec_fpdiv(a: int, b: int) -> int {
    spec_tdiv(a * 65536, b)
}

/// Fixed-point product of a fraction and a step, truncated.
pub open spec fn spec_fpmul(a: int, b: int) -> int {
    spec_tdiv(a * b, 65536)
}

/// The smallest plane coordinate at or above v, in fixed point.
pub open spec fn ceil_fx(v: int) -> int {
    ((v + 65535) / 65536) * 65536
}

/// The largest plane coordinate at or below v, in fixed point.
pub open spec fn floor_fx(v: int) -> int {
    (v / 65536) * 65536
}

/// An inactive checker: pinned to the origin, never chosen.
pub open spec fn inactive_checker(o: Vec3Fx) -> Checker {
    Checker { active: false, step: Vec3Fx { x: 0, y: 0, z: 0 }, cur: o }
}

/// The checker of the planes perpendicular to the `axis` component of
/// the direction (0 for x, 1 for y, 2 for z): inactive when the
/// component is near parallel or the steps leave the working range;
/// otherwise positioned on the first plane along the ray, with the step
/// from one plane to the next.
pub open spec fn spec_checker(o: Vec3Fx, d: Vec3Fx, axis: int) -> Checker {
    let da: int = if axis == 2 {
        d.z as int
    } else if axis == 1 {
        d.y as int
    } else {
        d.x as int
    };
    let oa: int = if axis == 2 {
        o.z as int
    } else if axis == 1 {
        o.y as int
    } else {
        o.x as int
    };
    if !axis_active(da) {
        inactive_checker(o)
    } else {
        let sgn: int = if da > 0 {
            1
        } else {
            -1
        };
        let p0 = if da > 0 {
            ceil_fx(oa)
        } else {
            floor_fx(oa)
        };
        let frac = if p0 >= oa {
            p0 - oa
        } else {
            oa - p0
        };
        let sx = if axis == 0 {
            65536 * sgn
        } else {
            spec_fpdiv(d.x as int, da) * sgn
        };
        let sy = if axis == 1 {
            65536 * sgn
        } else {
            spec_fpdiv(d.y as int, da) * sgn
        };
        let sz = if axis == 2 {
            65536 * sgn
        } else {
            spec_fpdiv(d.z as int, da) * sgn
        };
        if -0x1000000000 <= sx <= 0x1000000000 && -0x1000000000 <= sy <= 0x1000000000
            && -0x1000000000 <= sz <= 0x1000000000 {
            Checker {
                active: true,
                step: Vec3Fx { x: sx as i64, y: sy as i64, z: sz as i64 },
                cur: Vec3Fx {
                    x: if axis == 0 {
                        p0 as i64
                    } else {
                        (o.x + spec_fpmul(frac, sx)) as i64
                    },
                    y: if axis == 1 {
                        p0 as i64
                    } else {
                        (o.y + spec_fpmul(frac, sy)) as i64
                    },
                    z: if axis == 2 {
                        p0 as i64
                    } else {
                        (o.z + spec_fpmul(frac, sz)) as i64
                    },
                },
            }
        } else {
            inactive_checker(o)
        }
    }
}

/// Origin, direction and range within the supported magnitudes: about a
/// million blocks out, a direction of at most a hundred blocks per unit,
/// and a range of at most 600 blocks, which the step budget covers.
pub open spec fn ray_args_bounded(o: Vec3Fx, d: Vec3Fx, max_distance: int) -> bool {
    fx_bounded(o, 0x1000000000) && fx_bounded(d, 6553600) && 0 <= max_distance <= 39321600
}

/// Casting a ray: the walk over the three per-axis checkers positioned
/// on their first planes, for as long as the squared distance stays
/// within the squared range.
pub open spec fn spec_cast_ray(w: World, o: Vec3Fx, d: Vec3Fx, max_distance: int) -> Option<Hit> {
    let cxy = spec_checker(o, d, 2);
    let cxz = spec_checker(o, d, 1);
    let cyz = spec_checker(o, d, 0);
    if !(cxy.active || cxz.active || cyz.active) {
        Option::None
    } else {
        spec_ray_step(w, o, cxy, cxz, cyz, max_distance * max_distance, RAY_FUEL as nat)
    }
}

/// Builds one axis checker; see `spec_checker`.
fn make_checker(o: Vec3Fx, d: Vec3Fx, axis: usize) -> (r: Checker)
    requires
        axis < 3,
        fx_bounded(o, 0x1000000000),
        fx_bounded(d, 6553600),
    ensures
        r == spec_checker(o, d, axis as int),
        checker_bounded(r),
{
    let da: i64 = if axis == 2 {
        d.z
    } else if axis == 1 {
        d.y
    } else {
        d.x
    };
    let oa: i64 = if axis == 2 {
        o.z
    } else if axis == 1 {
        o.y
    } else {
        o.x
    };
    if !(da >= 16 || da <= -16) {
        return Checker { active: false, step: Vec3Fx { x: 0, y: 0, z: 0 }, cur: o };
    }
    let sgn: i64 = if da > 0 {
        1
    } else {
        -1
    };
    let p0: i64 = if da > 0 {
        (oa + 65535).checked_div_euclid(65536).unwrap() * 65536
    } else {
        oa.checked_div_euclid(65536).unwrap() * 65536
    };
    proof {
        vstd::arithmetic::div_mod::lemma_fundamental_div_mod(oa + 65535, 65536);
        vstd::arithmetic::div_mod::lemma_fundamental_div_mod(oa as int, 65536);
    }
    let frac: i64 = if p0 >= oa {
        p0 - oa
    } else {
        oa - p0
    };
    let sx: i64 = if axis == 0 {
        65536 * sgn
    } else {
        (d.x * 65536).checked_div(da).unwrap() * sgn
    };
    let sy: i64 = if axis == 1 {
        65536 * sgn
    } else {
        (d.y * 65536).checked_div(da).unwrap() * sgn
    };
    let sz: i64 = if axis == 2 {
        65536 * sgn
    } else {
        (d.z * 65536).checked_div(da).unwrap() * sgn
    };
    if -0x1000000000 <= sx && sx <= 0x1000000000 && -0x1000000000 <= sy && sy <= 0x1000000000
        && -0x1000000000 <= sz && sz <= 0x1000000000 {
        proof {
            vstd::arithmetic::div_mod::lemma_fundamental_div_mod(frac * sx, 65536);
            vstd::arithmetic::div_mod::lemma_fundamental_div_mod(frac * sy, 65536);
            vstd::arithmetic::div_mod::lemma_fundamental_div_mod(frac * sz, 65536);
        }
        let mx: i64 = fpmul_step(frac, sx);
        let my: i64 = fpmul_step(frac, sy);
        let mz: i64 = fpmul_step(frac, sz);
        Checker {
            active: true,
            step: Vec3Fx { x: sx, y: sy, z: sz },
            cur: Vec3Fx {
                x: if axis == 0 {
                    p0
                } else {
                    o.x + mx
                },
                y: if axis == 1 {
                    p0
                } else {
                    o.y + my
                },
                z: if axis == 2 {
                    p0
                } else {
                    o.z + mz
                },
            },
        }
    } else {
        Checker { active: false, step: Vec3Fx { x: 0, y: 0, z: 0 }, cur: o }
    }
}

/// Fixed-point product of the plane fraction and a step; see
/// `spec_fpmul`.
fn fpmul_step(frac: i64, s: i64) -> (r: i64)
    requires
        0 <= frac <= 65536,
        -0x1000000000 <= s <= 0x1000000000,
    ensures
        r as int == spec_fpmul(frac as int, s as int),
        -0x1000000000 <= r <= 0x1000000000,
{
    proof {
        assert(-0x10000000000000 <= frac * s <= 0x10000000000000) by (nonlinear_arith)
            requires
                0 <= frac <= 65536,
                -0x1000000000 <= s <= 0x1000000000,
        ;
    }
    let p: i64 = frac * s;
    let r = p.checked_div(65536).unwrap();
    proof {
        if p >= 0 {
            vstd::arithmetic::div_mod::lemma_fundamental_div_mod(p as int, 65536);
        } else {
            vstd::arithmetic::div_mod::lemma_fundamental_div_mod((p as int) * -1, 65536);
        }
        assert(spec_fpmul(frac as int, s as int) == spec_tdiv(frac as int * s as int, 65536));
    }
    r
}

/// Casts a ray from the origin along the direction, both in fixed-point
/// world coordinates, and picks the first opaque block within
/// `max_distance`; see `spec_cast_ray`. A reported hit names a loaded,
/// opaque block and carries its table entry.
pub fn cast_ray(world: &World, origin: Vec3Fx, direction: Vec3Fx, max_distance: i64) -> (r: Option<
    Hit,
>)
    requires
        world.wf(),
        ray_args_bounded(origin, direction, max_distance as int),
    ensures
        r == spec_cast_ray(*world, origin, direction, max_distance as int),
        match r {
            Some(h) => {
                &&& world.spec_cell_at(h.coords.x as int, h.coords.y as int, h.coords.z as int)
                    is Some
                &&& !id_transparent(
                    world.spec_cell_at(
                        h.coords.x as int,
                        h.coords.y as int,
                        h.coords.z as int,
                    ).unwrap().block_id,
                )
                &&& h.block == spec_block_of(
                    world.spec_cell_at(
                        h.coords.x as int,
                        h.coords.y as int,
                        h.coords.z as int,
                    ).unwrap().block_id,
                )
            },
            None => true,
        },
{
    let cxy = make_checker(origin, direction, 2);
    let cxz = make_checker(origin, direction, 1);
    let cyz = make_checker(origin, direction, 0);
    if !(cxy.active || cxz.active || cyz.active) {
        return None;
    }
    proof {
        assert((max_distance as int) * (max_distance as int) <= 0x100000000000000000000)
            by (nonlinear_arith)
            requires
                0 <= max_distance <= 39321600,
        ;
    }
    let md2: i128 = (max_distance as i128) * (max_distance as i128);
    proof {
        lemma_ray_step_hit(
            *world,
            origin,
            cxy,
            cxz,
            cyz,
            (max_distance as int) * (max_distance as int),
            RAY_FUEL as nat,
        );
    }
    ray_step(world, origin, cxy, cxz, cyz, md2, RAY_FUEL)
}

/// Any hit the walk reports names a loaded cell whose block is opaque,
/// and carries that block's table entry.
proof fn lemma_ray_step_hit(
    w: World,
    origin: Vec3Fx,
    cxy: Checker,
    cxz: Checker,
    cyz: Checker,
    max_d2: int,
    fuel: nat,
)
    ensures
        match spec_ray_step(w, origin, cxy, cxz, cyz, max_d2, fuel) {
            Option::Some(h) => {
                &&& w.spec_cell_at(h.coords.x as int, h.coords.y as int, h.coords.z as int)
                    is Some
                &&& !id_transparent(
                    w.spec_cell_at(
                        h.coords.x as int,
                        h.coords.y as int,
                        h.coords.z as int,
                    ).unwrap().block_id,
                )
                &&& h.block == spec_block_of(
                    w.spec_cell_at(
                        h.coords.x as int,
                        h.coords.y as int,
                        h.coords.z as int,
                    ).unwrap().block_id,
                )
            },
            Option::None => true,
        },
    decreases fuel,
{
    if fuel > 0 {
        lemma_ray_step_hit(
            w,
            origin,
            spec_advanced(cxy),
            cxz,
            cyz,
            max_d2,
            (fuel - 1) as nat,
        );
        lemma_ray_step_hit(
            w,
            origin,
            cxy,
            spec_advanced(cxz),
            cyz,
            max_d2,
            (fuel - 1) as nat,
        );
        lemma_ray_step_hit(
            w,
            origin,
            cxy,
            cxz,
            spec_advanced(cyz),
            max_d2,
            (fuel - 1) as nat,
        );
    }
}

/// Whether a point is still within the walk's working range.
fn in_working_range(v: &Vec3Fx) -> (r: bool)
    ensures
        r == fx_bounded(*v, 0x200000000000),
{
    v.x >= -0x200000000000 && v.x <= 0x200000000000 && v.y >= -0x200000000000 && v.y
        <= 0x200000000000 && v.z >= -0x200000000000 && v.z <= 0x200000000000
}

/// Advances a checker to its next plane crossing; see `spec_advanced`.
fn advanced(c: &Checker) -> (r: Checker)
    requires
        fx_bounded(c.cur, 0x200000000000),
        fx_bounded(c.step, 0x1000000000),
    ensures
        r == spec_advanced(*c),
        checker_bounded(r),
{
    Checker {
        active: c.active,
        step: c.step,
        cur: Vec3Fx {
            x: c.cur.x + c.step.x,
            y: c.cur.y + c.step.y,
            z: c.cur.z + c.step.z,
        },
    }
}

} // verus!
