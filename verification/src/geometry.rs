//! Voxelization of a triangle mesh into a per-cell classification.
//!
//! Coordinates are integers in geometry units (multiples of
//! `1/GEO_SCALE` of the physical unit, see [`crate::fixed`]), bounded by
//! [`GEO_LIMIT`].  A cell is marked solid when a strict majority of an
//! `S x S x S` grid of interior sample points lies within a thickness
//! threshold of some mesh triangle; distances are compared through
//! cross-multiplied squares, so every test is exact integer arithmetic.

use vstd::prelude::*;

use crate::fixed::{div_floor, lemma_mul_bound};
use crate::pipeline::{lemma_lin_bounds, lemma_lin_injective, lemma_lin_wrap, lin_at};

verus! {

/// Largest magnitude a mesh coordinate, a grid spacing or a thickness
/// threshold can take, in geometry units.
pub const GEO_LIMIT: i64 = 32768;

/// Largest supersampling factor the voxelizer accepts per axis.
pub const MAX_SAMPLES: usize = 8;

/// A mesh vertex position in geometry units.
#[derive(Clone, Copy, Debug, PartialEq, Eq, Structural)]
pub struct Point3i {
    pub x: i64,
    pub y: i64,
    pub z: i64,
}

/// One mesh triangle.
#[derive(Clone, Copy, Debug, PartialEq, Eq, Structural)]
pub struct Triangle {
    pub a: Point3i,
    pub b: Point3i,
    pub c: Point3i,
}

/// Why a mesh was rejected.
#[derive(Clone, Copy, Debug, PartialEq, Eq, Structural)]
pub enum GeometryError {
    /// The mesh holds no triangles.
    EmptyMesh,
    /// A vertex coordinate lies outside the representable range.
    CoordinateOutOfRange,
}

/// A coordinate within the representable band.
pub open spec fn coord_ok(v: int) -> bool {
    -GEO_LIMIT <= v <= GEO_LIMIT
}

/// All three vertices of a triangle within the representable band.
pub open spec fn tri_ok(t: Triangle) -> bool {
    &&& coord_ok(t.a.x as int) && coord_ok(t.a.y as int) && coord_ok(t.a.z as int)
    &&& coord_ok(t.b.x as int) && coord_ok(t.b.y as int) && coord_ok(t.b.z as int)
    &&& coord_ok(t.c.x as int) && coord_ok(t.c.y as int) && coord_ok(t.c.z as int)
}

/// `x` clamped into `[lo, hi]`.
pub open spec fn clamp_i(x: int, lo: int, hi: int) -> int {
    if x < lo {
        lo
    } else if x > hi {
        hi
    } else {
        x
    }
}

/// Whether the point `p` lies within distance `thr` of the segment from
/// `a` to `b`: the squared distance to the clamped projection onto the
/// segment, cross-multiplied against the squared threshold.
pub open spec fn near_seg(
    px: int,
    py: int,
    pz: int,
    ax: int,
    ay: int,
    az: int,
    bx: int,
    by: int,
    bz: int,
    thr: int,
) -> bool {
    let abx = bx - ax;
    let aby = by - ay;
    let abz = bz - az;
    let apx = px - ax;
    let apy = py - ay;
    let apz = pz - az;
    let den = abx * abx + aby * aby + abz * abz;
    if den == 0 {
        apx * apx + apy * apy + apz * apz < thr * thr
    } else {
        let tn = clamp_i(apx * abx + apy * aby + apz * abz, 0, den);
        let wx = apx * den - abx * tn;
        let wy = apy * den - aby * tn;
        let wz = apz * den - abz * tn;
        wx * wx + wy * wy + wz * wz < (thr * thr) * (den * den)
    }
}

/// Whether the point `p` lies within distance `thr` of the triangle
/// `(a, b, c)`: the perpendicular distance to the plane where the
/// barycentric projection falls inside the triangle, else the least
/// distance to the three edges.  Meaningful for nondegenerate triangles
/// (positive Gram determinant).
pub open spec fn near_tri(
    px: int,
    py: int,
    pz: int,
    ax: int,
    ay: int,
    az: int,
    bx: int,
    by: int,
    bz: int,
    cx: int,
    cy: int,
    cz: int,
    thr: int,
) -> bool {
    let v0x = bx - ax;
    let v0y = by - ay;
    let v0z = bz - az;
    let v1x = cx - ax;
    let v1y = cy - ay;
    let v1z = cz - az;
    let v2x = px - ax;
    let v2y = py - ay;
    let v2z = pz - az;
    let dot00 = v0x * v0x + v0y * v0y + v0z * v0z;
    let dot01 = v0x * v1x + v0y * v1y + v0z * v1z;
    let dot02 = v0x * v2x + v0y * v2y + v0z * v2z;
    let dot11 = v1x * v1x + v1y * v1y + v1z * v1z;
    let dot12 = v1x * v2x + v1y * v2y + v1z * v2z;
    let den = dot00 * dot11 - dot01 * dot01;
    let nu = dot11 * dot02 - dot01 * dot12;
    let nv = dot00 * dot12 - dot01 * dot02;
    if nu >= 0 && nv >= 0 && nu + nv <= den {
        let nnx = v0y * v1z - v0z * v1y;
        let nny = v0z * v1x - v0x * v1z;
        let nnz = v0x * v1y - v0y * v1x;
        let pd = v2x * nnx + v2y * nny + v2z * nnz;
        pd * pd < (thr * thr) * (nnx * nnx + nny * nny + nnz * nnz)
    } else {
        near_seg(px, py, pz, ax, ay, az, bx, by, bz, thr) || near_seg(
            px,
            py,
            pz,
            bx,
            by,
            bz,
            cx,
            cy,
            cz,
            thr,
        ) || near_seg(px, py, pz, cx, cy, cz, ax, ay, az, thr)
    }
}

/// The Gram determinant of the triangle's edge vectors: zero exactly for
/// a degenerate (zero-area) triangle.
pub open spec fn tri_gram(t: Triangle) -> int {
    let v0x = t.b.x - t.a.x as int;
    let v0y = t.b.y - t.a.y as int;
    let v0z = t.b.z - t.a.z as int;
    let v1x = t.c.x - t.a.x as int;
    let v1y = t.c.y - t.a.y as int;
    let v1z = t.c.z - t.a.z as int;
    let dot00 = v0x * v0x + v0y * v0y + v0z * v0z;
    let dot01 = v0x * v1x + v0y * v1y + v0z * v1z;
    let dot11 = v1x * v1x + v1y * v1y + v1z * v1z;
    dot00 * dot11 - dot01 * dot01
}

/// Executable segment-distance test over already scaled coordinates.
fn near_seg_exec(
    px: i64,
    py: i64,
    pz: i64,
    ax: i64,
    ay: i64,
    az: i64,
    bx: i64,
    by: i64,
    bz: i64,
    thr: i64,
) -> (r: bool)
    requires
        -524288 <= px <= 524288,
        -524288 <= py <= 524288,
        -524288 <= pz <= 524288,
        -524288 <= ax <= 524288,
        -524288 <= ay <= 524288,
        -524288 <= az <= 524288,
        -524288 <= bx <= 524288,
        -524288 <= by <= 524288,
        -524288 <= bz <= 524288,
        0 <= thr <= 524288,
    ensures
        r == near_seg(
            px as int,
            py as int,
            pz as int,
            ax as int,
            ay as int,
            az as int,
            bx as int,
            by as int,
            bz as int,
            thr as int,
        ),
{
    let abx: i128 = (bx - ax) as i128;
    let aby: i128 = (by - ay) as i128;
    let abz: i128 = (bz - az) as i128;
    let apx: i128 = (px - ax) as i128;
    let apy: i128 = (py - ay) as i128;
    let apz: i128 = (pz - az) as i128;
    proof {
        lemma_mul_bound(abx as int, abx as int, 1048576, 1048576);
        lemma_mul_bound(aby as int, aby as int, 1048576, 1048576);
        lemma_mul_bound(abz as int, abz as int, 1048576, 1048576);
        lemma_mul_bound(apx as int, apx as int, 1048576, 1048576);
        lemma_mul_bound(apy as int, apy as int, 1048576, 1048576);
        lemma_mul_bound(apz as int, apz as int, 1048576, 1048576);
        lemma_mul_bound(apx as int, abx as int, 1048576, 1048576);
        lemma_mul_bound(apy as int, aby as int, 1048576, 1048576);
        lemma_mul_bound(apz as int, abz as int, 1048576, 1048576);
        lemma_mul_bound(thr as int, thr as int, 524288, 524288);
    }
    let den: i128 = abx * abx + aby * aby + abz * abz;
    if den == 0 {
        apx * apx + apy * apy + apz * apz < (thr as i128) * (thr as i128)
    } else {
        let dot: i128 = apx * abx + apy * aby + apz * abz;
        let tn: i128 = if dot < 0 {
            0
        } else if dot > den {
            den
        } else {
            dot
        };
        proof {
            lemma_mul_bound(apx as int, den as int, 1048576, 3298534883328int);
            lemma_mul_bound(apy as int, den as int, 1048576, 3298534883328int);
            lemma_mul_bound(apz as int, den as int, 1048576, 3298534883328int);
            lemma_mul_bound(abx as int, tn as int, 1048576, 3298534883328int);
            lemma_mul_bound(aby as int, tn as int, 1048576, 3298534883328int);
            lemma_mul_bound(abz as int, tn as int, 1048576, 3298534883328int);
        }
        let wx: i128 = apx * den - abx * tn;
        let wy: i128 = apy * den - aby * tn;
        let wz: i128 = apz * den - abz * tn;
        proof {
            lemma_mul_bound(wx as int, wx as int, 6917529027641081856int, 6917529027641081856int);
            lemma_mul_bound(wy as int, wy as int, 6917529027641081856int, 6917529027641081856int);
            lemma_mul_bound(wz as int, wz as int, 6917529027641081856int, 6917529027641081856int);
            lemma_mul_bound(den as int, den as int, 3298534883328int, 3298534883328int);
            lemma_mul_bound(
                (thr as int) * (thr as int),
                (den as int) * (den as int),
                274877906944int,
                10880332376531662848466944int,
            );
        }
        let tt: i128 = (thr as i128) * (thr as i128);
        wx * wx + wy * wy + wz * wz < tt * (den * den)
    }
}

/// Executable triangle-distance test over already scaled coordinates.
fn near_tri_exec(
    px: i64,
    py: i64,
    pz: i64,
    ax: i64,
    ay: i64,
    az: i64,
    bx: i64,
    by: i64,
    bz: i64,
    cx: i64,
    cy: i64,
    cz: i64,
    thr: i64,
) -> (r: bool)
    requires
        -524288 <= px <= 524288,
        -524288 <= py <= 524288,
        -524288 <= pz <= 524288,
        -524288 <= ax <= 524288,
        -524288 <= ay <= 524288,
        -524288 <= az <= 524288,
        -524288 <= bx <= 524288,
        -524288 <= by <= 524288,
        -524288 <= bz <= 524288,
        -524288 <= cx <= 524288,
        -524288 <= cy <= 524288,
        -524288 <= cz <= 524288,
        0 <= thr <= 524288,
    ensures
        r == near_tri(
            px as int,
            py as int,
            pz as int,
            ax as int,
            ay as int,
            az as int,
            bx as int,
            by as int,
            bz as int,
            cx as int,
            cy as int,
            cz as int,
            thr as int,
        ),
{
    let v0x: i128 = (bx - ax) as i128;
    let v0y: i128 = (by - ay) as i128;
    let v0z: i128 = (bz - az) as i128;
    let v1x: i128 = (cx - ax) as i128;
    let v1y: i128 = (cy - ay) as i128;
    let v1z: i128 = (cz - az) as i128;
    let v2x: i128 = (px - ax) as i128;
    let v2y: i128 = (py - ay) as i128;
    let v2z: i128 = (pz - az) as i128;
    proof {
        lemma_mul_bound(v0x as int, v0x as int, 1048576, 1048576);
        lemma_mul_bound(v0y as int, v0y as int, 1048576, 1048576);
        lemma_mul_bound(v0z as int, v0z as int, 1048576, 1048576);
        lemma_mul_bound(v0x as int, v1x as int, 1048576, 1048576);
        lemma_mul_bound(v0y as int, v1y as int, 1048576, 1048576);
        lemma_mul_bound(v0z as int, v1z as int, 1048576, 1048576);
        lemma_mul_bound(v0x as int, v2x as int, 1048576, 1048576);
        lemma_mul_bound(v0y as int, v2y as int, 1048576, 1048576);
        lemma_mul_bound(v0z as int, v2z as int, 1048576, 1048576);
        lemma_mul_bound(v1x as int, v1x as int, 1048576, 1048576);
        lemma_mul_bound(v1y as int, v1y as int, 1048576, 1048576);
        lemma_mul_bound(v1z as int, v1z as int, 1048576, 1048576);
        lemma_mul_bound(v1x as int, v2x as int, 1048576, 1048576);
        lemma_mul_bound(v1y as int, v2y as int, 1048576, 1048576);
        lemma_mul_bound(v1z as int, v2z as int, 1048576, 1048576);
    }
    let dot00: i128 = v0x * v0x + v0y * v0y + v0z * v0z;
    let dot01: i128 = v0x * v1x + v0y * v1y + v0z * v1z;
    let dot02: i128 = v0x * v2x + v0y * v2y + v0z * v2z;
    let dot11: i128 = v1x * v1x + v1y * v1y + v1z * v1z;
    let dot12: i128 = v1x * v2x + v1y * v2y + v1z * v2z;
    proof {
        lemma_mul_bound(dot00 as int, dot11 as int, 3298534883328int, 3298534883328int);
        lemma_mul_bound(dot01 as int, dot01 as int, 3298534883328int, 3298534883328int);
        lemma_mul_bound(dot11 as int, dot02 as int, 3298534883328int, 3298534883328int);
        lemma_mul_bound(dot01 as int, dot12 as int, 3298534883328int, 3298534883328int);
        lemma_mul_bound(dot00 as int, dot12 as int, 3298534883328int, 3298534883328int);
        lemma_mul_bound(dot01 as int, dot02 as int, 3298534883328int, 3298534883328int);
    }
    let den: i128 = dot00 * dot11 - dot01 * dot01;
    let nu: i128 = dot11 * dot02 - dot01 * dot12;
    let nv: i128 = dot00 * dot12 - dot01 * dot02;
    if nu >= 0 && nv >= 0 && nu + nv <= den {
        proof {
            lemma_mul_bound(v0y as int, v1z as int, 1048576, 1048576);
            lemma_mul_bound(v0z as int, v1y as int, 1048576, 1048576);
            lemma_mul_bound(v0z as int, v1x as int, 1048576, 1048576);
            lemma_mul_bound(v0x as int, v1z as int, 1048576, 1048576);
            lemma_mul_bound(v0x as int, v1y as int, 1048576, 1048576);
            lemma_mul_bound(v0y as int, v1x as int, 1048576, 1048576);
        }
        let nnx: i128 = v0y * v1z - v0z * v1y;
        let nny: i128 = v0z * v1x - v0x * v1z;
        let nnz: i128 = v0x * v1y - v0y * v1x;
        proof {
            lemma_mul_bound(v2x as int, nnx as int, 1048576, 2199023255552int);
            lemma_mul_bound(v2y as int, nny as int, 1048576, 2199023255552int);
            lemma_mul_bound(v2z as int, nnz as int, 1048576, 2199023255552int);
        }
        let pd: i128 = v2x * nnx + v2y * nny + v2z * nnz;
        proof {
            lemma_mul_bound(pd as int, pd as int, 6917529027641081856int, 6917529027641081856int);
            lemma_mul_bound(thr as int, thr as int, 524288, 524288);
            lemma_mul_bound(nnx as int, nnx as int, 2199023255552int, 2199023255552int);
            lemma_mul_bound(nny as int, nny as int, 2199023255552int, 2199023255552int);
            lemma_mul_bound(nnz as int, nnz as int, 2199023255552int, 2199023255552int);
            lemma_mul_bound(
                (thr as int) * (thr as int),
                (nnx as int) * (nnx as int) + (nny as int) * (nny as int) + (nnz as int) * (
                nnz as int),
                274877906944int,
                20000000000000000000000000int,
            );
        }
        let tt: i128 = (thr as i128) * (thr as i128);
        pd * pd < tt * (nnx * nnx + nny * nny + nnz * nnz)
    } else {
        let r1 = near_seg_exec(px, py, pz, ax, ay, az, bx, by, bz, thr);
        let r2 = near_seg_exec(px, py, pz, bx, by, bz, cx, cy, cz, thr);
        let r3 = near_seg_exec(px, py, pz, cx, cy, cz, ax, ay, az, thr);
        r1 || r2 || r3
    }
}

/// One sample coordinate, in units scaled by twice the supersampling
/// factor `m`: the center of subcell `s` of cell `i` along an axis with
/// spacing `d`.
pub open spec fn sample_coord(i: int, s: int, m: int, d: int) -> int {
    (2 * (i * m + s) + 1) * d
}

/// Whether sample `(si, sj, sk)` of cell `(i, j, k)` lies within the
/// thickness threshold of triangle `t`.  All lengths are scaled by `2 m`
/// so the sample centers are exact integers.
pub open spec fn sample_near(
    t: Triangle,
    dx: int,
    dy: int,
    dz: int,
    m: int,
    thr: int,
    i: int,
    j: int,
    k: int,
    si: int,
    sj: int,
    sk: int,
) -> bool {
    near_tri(
        sample_coord(i, si, m, dx),
        sample_coord(j, sj, m, dy),
        sample_coord(k, sk, m, dz),
        t.a.x * (2 * m),
        t.a.y * (2 * m),
        t.a.z * (2 * m),
        t.b.x * (2 * m),
        t.b.y * (2 * m),
        t.b.z * (2 * m),
        t.c.x * (2 * m),
        t.c.y * (2 * m),
        t.c.z * (2 * m),
        thr * (2 * m),
    )
}

/// Count of near samples over the first `n` subcells along z, at fixed
/// `(si, sj)`.
pub open spec fn cnt_z(
    t: Triangle,
    dx: int,
    dy: int,
    dz: int,
    m: int,
    thr: int,
    i: int,
    j: int,
    k: int,
    si: int,
    sj: int,
    n: int,
) -> int
    decreases n,
{
    if n <= 0 {
        0
    } else {
        cnt_z(t, dx, dy, dz, m, thr, i, j, k, si, sj, n - 1) + if sample_near(
            t,
            dx,
            dy,
            dz,
            m,
            thr,
            i,
            j,
            k,
            si,
            sj,
            n - 1,
        ) {
            1int
        } else {
            0int
        }
    }
}

/// Count of near samples over the first `n` subcells along y, full z
/// range, at fixed `si`.
pub open spec fn cnt_y(
    t: Triangle,
    dx: int,
    dy: int,
    dz: int,
    m: int,
    thr: int,
    i: int,
    j: int,
    k: int,
    si: int,
    n: int,
) -> int
    decreases n,
{
    if n <= 0 {
        0
    } else {
        cnt_y(t, dx, dy, dz, m, thr, i, j, k, si, n - 1) + cnt_z(
            t,
            dx,
            dy,
            dz,
            m,
            thr,
            i,
            j,
            k,
            si,
            n - 1,
            m,
        )
    }
}

/// Count of near samples over the first `n` subcells along x, full y and
/// z ranges.
pub open spec fn cnt_x(
    t: Triangle,
    dx: int,
    dy: int,
    dz: int,
    m: int,
    thr: int,
    i: int,
    j: int,
    k: int,
    n: int,
) -> int
    decreases n,
{
    if n <= 0 {
        0
    } else {
        cnt_x(t, dx, dy, dz, m, thr, i, j, k, n - 1) + cnt_y(
            t,
            dx,
            dy,
            dz,
            m,
            thr,
            i,
            j,
            k,
            n - 1,
            m,
        )
    }
}

/// Count of near samples of cell `(i, j, k)` over the full `m^3` sample
/// grid.
pub open spec fn cell_samples_in(
    t: Triangle,
    dx: int,
    dy: int,
    dz: int,
    m: int,
    thr: int,
    i: int,
    j: int,
    k: int,
) -> int {
    cnt_x(t, dx, dy, dz, m, thr, i, j, k, m)
}

/// A z-column count is between zero and the column length.
proof fn lemma_cnt_z_bounds(
    t: Triangle,
    dx: int,
    dy: int,
    dz: int,
    m: int,
    thr: int,
    i: int,
    j: int,
    k: int,
    si: int,
    sj: int,
    n: int,
)
    requires
        0 <= n,
    ensures
        0 <= cnt_z(t, dx, dy, dz, m, thr, i, j, k, si, sj, n) <= n,
    decreases n,
{
    if n > 0 {
        lemma_cnt_z_bounds(t, dx, dy, dz, m, thr, i, j, k, si, sj, n - 1);
    }
}

/// A y-plane count is between zero and the number of samples it covers.
proof fn lemma_cnt_y_bounds(
    t: Triangle,
    dx: int,
    dy: int,
    dz: int,
    m: int,
    thr: int,
    i: int,
    j: int,
    k: int,
    si: int,
    n: int,
)
    requires
        0 <= n,
        0 <= m,
    ensures
        0 <= cnt_y(t, dx, dy, dz, m, thr, i, j, k, si, n) <= n * m,
    decreases n,
{
    if n > 0 {
        lemma_cnt_y_bounds(t, dx, dy, dz, m, thr, i, j, k, si, n - 1);
        lemma_cnt_z_bounds(t, dx, dy, dz, m, thr, i, j, k, si, n - 1, m);
        assert((n - 1) * m + m == n * m) by (nonlinear_arith);
    } else {
        assert(n * m == 0) by (nonlinear_arith)
            requires
                n == 0,
        ;
    }
}

/// A full count is between zero and the number of samples it covers.
proof fn lemma_cnt_x_bounds(
    t: Triangle,
    dx: int,
    dy: int,
    dz: int,
    m: int,
    thr: int,
    i: int,
    j: int,
    k: int,
    n: int,
)
    requires
        0 <= n,
        0 <= m,
    ensures
        0 <= cnt_x(t, dx, dy, dz, m, thr, i, j, k, n) <= n * (m * m),
    decreases n,
{
    if n > 0 {
        lemma_cnt_x_bounds(t, dx, dy, dz, m, thr, i, j, k, n - 1);
        lemma_cnt_y_bounds(t, dx, dy, dz, m, thr, i, j, k, n - 1, m);
        assert((n - 1) * (m * m) + m * m == n * (m * m)) by (nonlinear_arith);
    } else {
        assert(n * (m * m) == 0) by (nonlinear_arith)
            requires
                n == 0,
        ;
    }
}

/// The number of samples of cell `(i, j, k)` within the threshold of
/// triangle `t`, by exhaustive test of the `m^3` sample grid.
fn count_samples(
    t: &Triangle,
    nx: usize,
    dx: i64,
    dy: i64,
    dz: i64,
    m: usize,
    thr: i64,
    i: usize,
    j: usize,
    k: usize,
    ny: usize,
    nz: usize,
) -> (cnt: usize)
    requires
        tri_ok(*t),
        1 <= m <= 8,
        1 <= dx <= GEO_LIMIT,
        1 <= dy <= GEO_LIMIT,
        1 <= dz <= GEO_LIMIT,
        0 <= thr <= GEO_LIMIT,
        i < nx,
        j < ny,
        k < nz,
        nx < 0x4000_0000,
        ny < 0x4000_0000,
        nz < 0x4000_0000,
        (nx as int) * (dx as int) <= GEO_LIMIT,
        (ny as int) * (dy as int) <= GEO_LIMIT,
        (nz as int) * (dz as int) <= GEO_LIMIT,
    ensures
        cnt as int == cell_samples_in(
            *t,
            dx as int,
            dy as int,
            dz as int,
            m as int,
            thr as int,
            i as int,
            j as int,
            k as int,
        ),
        cnt <= 512,
{
    let s2: i64 = 2 * (m as i64);
    proof {
        lemma_mul_bound(t.a.x as int, s2 as int, 32768, 16);
        lemma_mul_bound(t.a.y as int, s2 as int, 32768, 16);
        lemma_mul_bound(t.a.z as int, s2 as int, 32768, 16);
        lemma_mul_bound(t.b.x as int, s2 as int, 32768, 16);
        lemma_mul_bound(t.b.y as int, s2 as int, 32768, 16);
        lemma_mul_bound(t.b.z as int, s2 as int, 32768, 16);
        lemma_mul_bound(t.c.x as int, s2 as int, 32768, 16);
        lemma_mul_bound(t.c.y as int, s2 as int, 32768, 16);
        lemma_mul_bound(t.c.z as int, s2 as int, 32768, 16);
        lemma_mul_bound(thr as int, s2 as int, 32768, 16);
    }
    let ax: i64 = t.a.x * s2;
    let ay: i64 = t.a.y * s2;
    let az: i64 = t.a.z * s2;
    let bx: i64 = t.b.x * s2;
    let by: i64 = t.b.y * s2;
    let bz: i64 = t.b.z * s2;
    let cx: i64 = t.c.x * s2;
    let cy: i64 = t.c.y * s2;
    let cz: i64 = t.c.z * s2;
    let t2: i64 = thr * s2;
    proof {
        assert(ax as int == t.a.x * (2 * (m as int))) by (nonlinear_arith)
            requires
                s2 as int == 2 * (m as int),
                ax as int == (t.a.x as int) * (s2 as int),
        ;
        assert(ay as int == t.a.y * (2 * (m as int))) by (nonlinear_arith)
            requires
                s2 as int == 2 * (m as int),
                ay as int == (t.a.y as int) * (s2 as int),
        ;
        assert(az as int == t.a.z * (2 * (m as int))) by (nonlinear_arith)
            requires
                s2 as int == 2 * (m as int),
                az as int == (t.a.z as int) * (s2 as int),
        ;
        assert(bx as int == t.b.x * (2 * (m as int))) by (nonlinear_arith)
            requires
                s2 as int == 2 * (m as int),
                bx as int == (t.b.x as int) * (s2 as int),
        ;
        assert(by as int == t.b.y * (2 * (m as int))) by (nonlinear_arith)
            requires
                s2 as int == 2 * (m as int),
                by as int == (t.b.y as int) * (s2 as int),
        ;
        assert(bz as int == t.b.z * (2 * (m as int))) by (nonlinear_arith)
            requires
                s2 as int == 2 * (m as int),
                bz as int == (t.b.z as int) * (s2 as int),
        ;
        assert(cx as int == t.c.x * (2 * (m as int))) by (nonlinear_arith)
            requires
                s2 as int == 2 * (m as int),
                cx as int == (t.c.x as int) * (s2 as int),
        ;
        assert(cy as int == t.c.y * (2 * (m as int))) by (nonlinear_arith)
            requires
                s2 as int == 2 * (m as int),
                cy as int == (t.c.y as int) * (s2 as int),
        ;
        assert(cz as int == t.c.z * (2 * (m as int))) by (nonlinear_arith)
            requires
                s2 as int == 2 * (m as int),
                cz as int == (t.c.z as int) * (s2 as int),
        ;
        assert(t2 as int == thr * (2 * (m as int))) by (nonlinear_arith)
            requires
                s2 as int == 2 * (m as int),
                t2 as int == (thr as int) * (s2 as int),
        ;
    }
    let mut cnt: usize = 0;
    let mut si: usize = 0;
    while si < m
        invariant
            tri_ok(*t),
            1 <= m <= 8,
            1 <= dx <= GEO_LIMIT,
            1 <= dy <= GEO_LIMIT,
            1 <= dz <= GEO_LIMIT,
            0 <= thr <= GEO_LIMIT,
            i < nx,
            j < ny,
            k < nz,
            nx < 0x4000_0000,
            ny < 0x4000_0000,
            nz < 0x4000_0000,
            (nx as int) * (dx as int) <= GEO_LIMIT,
            (ny as int) * (dy as int) <= GEO_LIMIT,
            (nz as int) * (dz as int) <= GEO_LIMIT,
            ax as int == t.a.x * (2 * (m as int)),
            ay as int == t.a.y * (2 * (m as int)),
            az as int == t.a.z * (2 * (m as int)),
            bx as int == t.b.x * (2 * (m as int)),
            by as int == t.b.y * (2 * (m as int)),
            bz as int == t.b.z * (2 * (m as int)),
            cx as int == t.c.x * (2 * (m as int)),
            cy as int == t.c.y * (2 * (m as int)),
            cz as int == t.c.z * (2 * (m as int)),
            t2 as int == thr * (2 * (m as int)),
            -524288 <= ax <= 524288 && -524288 <= ay <= 524288 && -524288 <= az <= 524288,
            -524288 <= bx <= 524288 && -524288 <= by <= 524288 && -524288 <= bz <= 524288,
            -524288 <= cx <= 524288 && -524288 <= cy <= 524288 && -524288 <= cz <= 524288,
            0 <= t2 <= 524288,
            si <= m,
            cnt as int == cnt_x(
                *t,
                dx as int,
                dy as int,
                dz as int,
                m as int,
                thr as int,
                i as int,
                j as int,
                k as int,
                si as int,
            ),
            cnt <= 512,
        decreases m - si,
    {
        let mut sj: usize = 0;
        let mut acc_y: usize = 0;
        while sj < m
            invariant
                tri_ok(*t),
                1 <= m <= 8,
                1 <= dx <= GEO_LIMIT,
                1 <= dy <= GEO_LIMIT,
                1 <= dz <= GEO_LIMIT,
                0 <= thr <= GEO_LIMIT,
                i < nx,
                j < ny,
                k < nz,
                nx < 0x4000_0000,
                ny < 0x4000_0000,
                nz < 0x4000_0000,
                (nx as int) * (dx as int) <= GEO_LIMIT,
                (ny as int) * (dy as int) <= GEO_LIMIT,
                (nz as int) * (dz as int) <= GEO_LIMIT,
                ax as int == t.a.x * (2 * (m as int)),
                ay as int == t.a.y * (2 * (m as int)),
                az as int == t.a.z * (2 * (m as int)),
                bx as int == t.b.x * (2 * (m as int)),
                by as int == t.b.y * (2 * (m as int)),
                bz as int == t.b.z * (2 * (m as int)),
                cx as int == t.c.x * (2 * (m as int)),
                cy as int == t.c.y * (2 * (m as int)),
                cz as int == t.c.z * (2 * (m as int)),
                t2 as int == thr * (2 * (m as int)),
                -524288 <= ax <= 524288 && -524288 <= ay <= 524288 && -524288 <= az <= 524288,
                -524288 <= bx <= 524288 && -524288 <= by <= 524288 && -524288 <= bz <= 524288,
                -524288 <= cx <= 524288 && -524288 <= cy <= 524288 && -524288 <= cz <= 524288,
                0 <= t2 <= 524288,
                si < m,
                sj <= m,
                acc_y as int == cnt_y(
                    *t,
                    dx as int,
                    dy as int,
                    dz as int,
                    m as int,
                    thr as int,
                    i as int,
                    j as int,
                    k as int,
                    si as int,
                    sj as int,
                ),
                acc_y <= 64,
            decreases m - sj,
        {
            let mut sk: usize = 0;
            let mut acc_z: usize = 0;
            while sk < m
                invariant
                    tri_ok(*t),
                    1 <= m <= 8,
                    1 <= dx <= GEO_LIMIT,
                    1 <= dy <= GEO_LIMIT,
                    1 <= dz <= GEO_LIMIT,
                    0 <= thr <= GEO_LIMIT,
                    i < nx,
                    j < ny,
                    k < nz,
                    nx < 0x4000_0000,
                    ny < 0x4000_0000,
                    nz < 0x4000_0000,
                    (nx as int) * (dx as int) <= GEO_LIMIT,
                    (ny as int) * (dy as int) <= GEO_LIMIT,
                    (nz as int) * (dz as int) <= GEO_LIMIT,
                    ax as int == t.a.x * (2 * (m as int)),
                    ay as int == t.a.y * (2 * (m as int)),
                    az as int == t.a.z * (2 * (m as int)),
                    bx as int == t.b.x * (2 * (m as int)),
                    by as int == t.b.y * (2 * (m as int)),
                    bz as int == t.b.z * (2 * (m as int)),
                    cx as int == t.c.x * (2 * (m as int)),
                    cy as int == t.c.y * (2 * (m as int)),
                    cz as int == t.c.z * (2 * (m as int)),
                    t2 as int == thr * (2 * (m as int)),
                    -524288 <= ax <= 524288 && -524288 <= ay <= 524288 && -524288 <= az <= 524288,
                    -524288 <= bx <= 524288 && -524288 <= by <= 524288 && -524288 <= bz <= 524288,
                    -524288 <= cx <= 524288 && -524288 <= cy <= 524288 && -524288 <= cz <= 524288,
                    0 <= t2 <= 524288,
                    si < m,
                    sj < m,
                    sk <= m,
                    acc_z as int == cnt_z(
                        *t,
                        dx as int,
                        dy as int,
                        dz as int,
                        m as int,
                        thr as int,
                        i as int,
                        j as int,
                        k as int,
                        si as int,
                        sj as int,
                        sk as int,
                    ),
                    acc_z <= 8,
                decreases m - sk,
            {
                proof {
                    lemma_cnt_z_bounds(
                        *t,
                        dx as int,
                        dy as int,
                        dz as int,
                        m as int,
                        thr as int,
                        i as int,
                        j as int,
                        k as int,
                        si as int,
                        sj as int,
                        sk as int,
                    );
                    lemma_mul_bound(i as int, m as int, 0x4000_0000int, 8);
                    lemma_mul_bound(j as int, m as int, 0x4000_0000int, 8);
                    lemma_mul_bound(k as int, m as int, 0x4000_0000int, 8);
                    lemma_sample_coord_bound(i as int, si as int, m as int, dx as int, nx as int);
                    lemma_sample_coord_bound(j as int, sj as int, m as int, dy as int, ny as int);
                    lemma_sample_coord_bound(k as int, sk as int, m as int, dz as int, nz as int);
                }
                let px: i64 = (2 * ((i as i64) * (m as i64) + (si as i64)) + 1) * dx;
                let py: i64 = (2 * ((j as i64) * (m as i64) + (sj as i64)) + 1) * dy;
                let pz: i64 = (2 * ((k as i64) * (m as i64) + (sk as i64)) + 1) * dz;
                let hit = near_tri_exec(px, py, pz, ax, ay, az, bx, by, bz, cx, cy, cz, t2);
                if hit {
                    acc_z = acc_z + 1;
                }
                sk = sk + 1;
            }
            proof {
                lemma_cnt_y_bounds(
                    *t,
                    dx as int,
                    dy as int,
                    dz as int,
                    m as int,
                    thr as int,
                    i as int,
                    j as int,
                    k as int,
                    si as int,
                    sj as int + 1,
                );
                lemma_mul_bound(sj as int + 1, m as int, 8, 8);
            }
            acc_y = acc_y + acc_z;
            sj = sj + 1;
        }
        proof {
            lemma_cnt_x_bounds(
                *t,
                dx as int,
                dy as int,
                dz as int,
                m as int,
                thr as int,
                i as int,
                j as int,
                k as int,
                si as int + 1,
            );
            lemma_mul_bound(m as int, m as int, 8, 8);
            lemma_mul_bound(si as int + 1, (m as int) * (m as int), 8, 64);
        }
        cnt = cnt + acc_y;
        si = si + 1;
    }
    cnt
}

/// A sample coordinate of an in-bounds cell is positive and stays within
/// the scaled band when the domain extent fits the representable range.
proof fn lemma_sample_coord_bound(i: int, s: int, m: int, d: int, n: int)
    requires
        0 <= i < n,
        0 <= s < m,
        1 <= m <= 8,
        1 <= d,
        1 <= n,
        n * d <= GEO_LIMIT,
    ensures
        0 < sample_coord(i, s, m, d) <= 524288,
{
    assert(0 < (2 * (i * m + s) + 1) * d <= 16 * (n * d)) by (nonlinear_arith)
        requires
            0 <= i < n,
            0 <= s < m,
            1 <= m <= 8,
            1 <= d,
            1 <= n,
    ;
}

/// The least of three values.
pub open spec fn min3s(a: int, b: int, c: int) -> int {
    if a <= b && a <= c {
        a
    } else if b <= c {
        b
    } else {
        c
    }
}

/// The greatest of three values.
pub open spec fn max3s(a: int, b: int, c: int) -> int {
    if a >= b && a >= c {
        a
    } else if b >= c {
        b
    } else {
        c
    }
}

/// First candidate cell index along an axis: the floor of `v / d`,
/// clamped into the valid index range.
pub open spec fn lo_cell(v: int, d: int, n: int) -> int {
    clamp_i(v / d, 0, n - 1)
}

/// Last candidate cell index along an axis: the ceiling of `v / d`,
/// clamped into the valid index range.
pub open spec fn hi_cell(v: int, d: int, n: int) -> int {
    clamp_i((v + d - 1) / d, 0, n - 1)
}

/// Whether triangle `t` marks cell `(i, j, k)` solid: the triangle is not
/// degenerate, the cell lies in the clamped index range of the triangle's
/// bounding box, and a strict majority of the cell's samples lies within
/// the thickness threshold.
pub open spec fn cell_solid_for(
    t: Triangle,
    nx: int,
    ny: int,
    nz: int,
    dx: int,
    dy: int,
    dz: int,
    m: int,
    thr: int,
    i: int,
    j: int,
    k: int,
) -> bool {
    &&& tri_gram(t) != 0
    &&& lo_cell(min3s(t.a.x as int, t.b.x as int, t.c.x as int), dx, nx) <= i <= hi_cell(
        max3s(t.a.x as int, t.b.x as int, t.c.x as int),
        dx,
        nx,
    )
    &&& lo_cell(min3s(t.a.y as int, t.b.y as int, t.c.y as int), dy, ny) <= j <= hi_cell(
        max3s(t.a.y as int, t.b.y as int, t.c.y as int),
        dy,
        ny,
    )
    &&& lo_cell(min3s(t.a.z as int, t.b.z as int, t.c.z as int), dz, nz) <= k <= hi_cell(
        max3s(t.a.z as int, t.b.z as int, t.c.z as int),
        dz,
        nz,
    )
    &&& 2 * cell_samples_in(t, dx, dy, dz, m, thr, i, j, k) > (m * m) * m
}

/// Whether some triangle among the first `n` of the mesh marks cell
/// `(i, j, k)` solid.
pub open spec fn raw_solid(
    ts: Seq<Triangle>,
    n: int,
    nx: int,
    ny: int,
    nz: int,
    dx: int,
    dy: int,
    dz: int,
    m: int,
    thr: int,
    i: int,
    j: int,
    k: int,
) -> bool {
    exists|ti: int|
        0 <= ti < n && cell_solid_for(#[trigger] ts[ti], nx, ny, nz, dx, dy, dz, m, thr, i, j, k)
}

/// Whether `(i2, j2, k2)` is one of the 26 grid neighbors of `(i, j, k)`.
pub open spec fn neighbor26(i: int, j: int, k: int, i2: int, j2: int, k2: int) -> bool {
    &&& -1 <= i2 - i <= 1
    &&& -1 <= j2 - j <= 1
    &&& -1 <= k2 - k <= 1
    &&& !(i2 == i && j2 == j && k2 == k)
}

/// Whether some in-bounds neighbor of `(i, j, k)` is marked in `solid`.
pub open spec fn solid_neighbor_in(
    solid: Seq<bool>,
    nx: int,
    ny: int,
    nz: int,
    i: int,
    j: int,
    k: int,
) -> bool {
    exists|i3: int, j3: int, k3: int|
        0 <= i3 < nx && 0 <= j3 < ny && 0 <= k3 < nz && neighbor26(i, j, k, i3, j3, k3)
            && #[trigger] solid[lin_at(nx, ny, i3, j3, k3)]
}

/// Whether some in-bounds neighbor of `(i, j, k)` is marked solid by
/// some triangle of the mesh: the informational boundary mark.
pub open spec fn boundary_mark(
    ts: Seq<Triangle>,
    nx: int,
    ny: int,
    nz: int,
    dx: int,
    dy: int,
    dz: int,
    m: int,
    thr: int,
    i: int,
    j: int,
    k: int,
) -> bool {
    exists|i3: int, j3: int, k3: int|
        0 <= i3 < nx && 0 <= j3 < ny && 0 <= k3 < nz && neighbor26(i, j, k, i3, j3, k3)
            && #[trigger] raw_solid(ts, ts.len() as int, nx, ny, nz, dx, dy, dz, m, thr, i3, j3, k3)
}

/// Floor of `v / d` clamped into `[0, n - 1]`.
fn lo_cell_exec(v: i64, d: i64, n: usize) -> (r: usize)
    requires
        1 <= d,
        1 <= n,
        n < 0x4000_0000,
        -0x10000 <= v <= 0x10000,
    ensures
        r as int == lo_cell(v as int, d as int, n as int),
        r < n,
{
    let q = div_floor(v as i128, d as i128);
    proof {
        crate::fixed::lemma_div_in_range(v as int, d as int, -0x10000, 0x10000);
    }
    if q < 0 {
        0
    } else if q >= n as i128 {
        n - 1
    } else {
        q as usize
    }
}

/// Ceiling of `v / d` clamped into `[0, n - 1]`.
fn hi_cell_exec(v: i64, d: i64, n: usize) -> (r: usize)
    requires
        1 <= d <= 0x10000,
        1 <= n,
        n < 0x4000_0000,
        -0x10000 <= v <= 0x10000,
    ensures
        r as int == hi_cell(v as int, d as int, n as int),
        r < n,
{
    let q = div_floor((v + d - 1) as i128, d as i128);
    proof {
        crate::fixed::lemma_div_in_range(v + d - 1, d as int, -0x20000, 0x20000);
    }
    if q < 0 {
        0
    } else if q >= n as i128 {
        n - 1
    } else {
        q as usize
    }
}

/// The least and greatest of three coordinates.
pub fn min3_exec(a: i64, b: i64, c: i64) -> (r: i64)
    ensures
        r as int == min3s(a as int, b as int, c as int),
{
    if a <= b && a <= c {
        a
    } else if b <= c {
        b
    } else {
        c
    }
}

pub fn max3_exec(a: i64, b: i64, c: i64) -> (r: i64)
    ensures
        r as int == max3s(a as int, b as int, c as int),
{
    if a >= b && a >= c {
        a
    } else if b >= c {
        b
    } else {
        c
    }
}

/// Mark in `solid` every cell of the candidate range of triangle `t`
/// whose sample majority lies within the threshold.  Degenerate triangles
/// are skipped.
fn voxelize_triangle(
    t: &Triangle,
    nx: usize,
    ny: usize,
    nz: usize,
    dx: i64,
    dy: i64,
    dz: i64,
    m: usize,
    thr: i64,
    solid: &mut Vec<bool>,
)
    requires
        tri_ok(*t),
        1 <= nx < 0x4000_0000,
        1 <= ny < 0x4000_0000,
        1 <= nz < 0x4000_0000,
        old(solid).len() as int == (nx as int) * ((ny as int) * (nz as int)),
        1 <= dx <= GEO_LIMIT,
        1 <= dy <= GEO_LIMIT,
        1 <= dz <= GEO_LIMIT,
        (nx as int) * (dx as int) <= GEO_LIMIT,
        (ny as int) * (dy as int) <= GEO_LIMIT,
        (nz as int) * (dz as int) <= GEO_LIMIT,
        1 <= m <= 8,
        0 <= thr <= GEO_LIMIT,
    ensures
        final(solid).len() == old(solid).len(),
        forall|i2: int, j2: int, k2: int|
            #![trigger lin_at(nx as int, ny as int, i2, j2, k2)]
            0 <= i2 < nx && 0 <= j2 < ny && 0 <= k2 < nz ==> final(solid)@[lin_at(
                nx as int,
                ny as int,
                i2,
                j2,
                k2,
            )] == (old(solid)@[lin_at(nx as int, ny as int, i2, j2, k2)]
                || (cell_solid_for(
                *t,
                nx as int,
                ny as int,
                nz as int,
                dx as int,
                dy as int,
                dz as int,
                m as int,
                thr as int,
                i2,
                j2,
                k2,
            ))),
{
    let v0x: i128 = (t.b.x - t.a.x) as i128;
    let v0y: i128 = (t.b.y - t.a.y) as i128;
    let v0z: i128 = (t.b.z - t.a.z) as i128;
    let v1x: i128 = (t.c.x - t.a.x) as i128;
    let v1y: i128 = (t.c.y - t.a.y) as i128;
    let v1z: i128 = (t.c.z - t.a.z) as i128;
    proof {
        lemma_mul_bound(v0x as int, v0x as int, 65536, 65536);
        lemma_mul_bound(v0y as int, v0y as int, 65536, 65536);
        lemma_mul_bound(v0z as int, v0z as int, 65536, 65536);
        lemma_mul_bound(v0x as int, v1x as int, 65536, 65536);
        lemma_mul_bound(v0y as int, v1y as int, 65536, 65536);
        lemma_mul_bound(v0z as int, v1z as int, 65536, 65536);
        lemma_mul_bound(v1x as int, v1x as int, 65536, 65536);
        lemma_mul_bound(v1y as int, v1y as int, 65536, 65536);
        lemma_mul_bound(v1z as int, v1z as int, 65536, 65536);
    }
    let dot00: i128 = v0x * v0x + v0y * v0y + v0z * v0z;
    let dot01: i128 = v0x * v1x + v0y * v1y + v0z * v1z;
    let dot11: i128 = v1x * v1x + v1y * v1y + v1z * v1z;
    proof {
        lemma_mul_bound(dot00 as int, dot11 as int, 12884901888int, 12884901888int);
        lemma_mul_bound(dot01 as int, dot01 as int, 12884901888int, 12884901888int);
    }
    let gram: i128 = dot00 * dot11 - dot01 * dot01;
    if gram == 0 {
        return ;
    }
    let ilo = lo_cell_exec(min3_exec(t.a.x, t.b.x, t.c.x), dx, nx);
    let ihi = hi_cell_exec(max3_exec(t.a.x, t.b.x, t.c.x), dx, nx);
    let jlo = lo_cell_exec(min3_exec(t.a.y, t.b.y, t.c.y), dy, ny);
    let jhi = hi_cell_exec(max3_exec(t.a.y, t.b.y, t.c.y), dy, ny);
    let klo = lo_cell_exec(min3_exec(t.a.z, t.b.z, t.c.z), dz, nz);
    let khi = hi_cell_exec(max3_exec(t.a.z, t.b.z, t.c.z), dz, nz);
    let mut ii: usize = ilo;
    while ii <= ihi
        invariant
            tri_ok(*t),
            1 <= nx < 0x4000_0000,
            1 <= ny < 0x4000_0000,
            1 <= nz < 0x4000_0000,
            solid.len() == old(solid).len(),
            old(solid).len() as int == (nx as int) * ((ny as int) * (nz as int)),
            1 <= dx <= GEO_LIMIT,
            1 <= dy <= GEO_LIMIT,
            1 <= dz <= GEO_LIMIT,
            (nx as int) * (dx as int) <= GEO_LIMIT,
            (ny as int) * (dy as int) <= GEO_LIMIT,
            (nz as int) * (dz as int) <= GEO_LIMIT,
            1 <= m <= 8,
            0 <= thr <= GEO_LIMIT,
            ilo as int == lo_cell(min3s(t.a.x as int, t.b.x as int, t.c.x as int), dx as int, nx as int),
            ihi as int == hi_cell(max3s(t.a.x as int, t.b.x as int, t.c.x as int), dx as int, nx as int),
            jlo as int == lo_cell(min3s(t.a.y as int, t.b.y as int, t.c.y as int), dy as int, ny as int),
            jhi as int == hi_cell(max3s(t.a.y as int, t.b.y as int, t.c.y as int), dy as int, ny as int),
            klo as int == lo_cell(min3s(t.a.z as int, t.b.z as int, t.c.z as int), dz as int, nz as int),
            khi as int == hi_cell(max3s(t.a.z as int, t.b.z as int, t.c.z as int), dz as int, nz as int),
            ihi < nx && jhi < ny && khi < nz,
            ilo <= ii,
            gram as int == tri_gram(*t),
            gram != 0,
            forall|i2: int, j2: int, k2: int|
                #![trigger lin_at(nx as int, ny as int, i2, j2, k2)]
                0 <= i2 < nx && 0 <= j2 < ny && 0 <= k2 < nz ==> solid@[lin_at(
                    nx as int,
                    ny as int,
                    i2,
                    j2,
                    k2,
                )] == (old(solid)@[lin_at(nx as int, ny as int, i2, j2, k2)]
                    || (cell_solid_for(
                    *t,
                    nx as int,
                    ny as int,
                    nz as int,
                    dx as int,
                    dy as int,
                    dz as int,
                    m as int,
                    thr as int,
                    i2,
                    j2,
                    k2,
                ) && i2 < ii)),
        decreases ihi + 1 - ii,
    {
        let mut jj: usize = jlo;
        proof {
            assert forall|i2: int, j2: int, k2: int|
                #![trigger lin_at(nx as int, ny as int, i2, j2, k2)]
                0 <= i2 < nx && 0 <= j2 < ny && 0 <= k2 < nz implies solid@[lin_at(
                nx as int,
                ny as int,
                i2,
                j2,
                k2,
            )] == (old(solid)@[lin_at(nx as int, ny as int, i2, j2, k2)] || (cell_solid_for(
                *t,
                nx as int,
                ny as int,
                nz as int,
                dx as int,
                dy as int,
                dz as int,
                m as int,
                thr as int,
                i2,
                j2,
                k2,
            ) && (i2 < ii || (i2 == ii && j2 < jj)))) by {
                lemma_lin_bounds(nx as int, ny as int, nz as int, i2, j2, k2);
            }
        }
        while jj <= jhi
            invariant
                tri_ok(*t),
                1 <= nx < 0x4000_0000,
                1 <= ny < 0x4000_0000,
                1 <= nz < 0x4000_0000,
                solid.len() == old(solid).len(),
                old(solid).len() as int == (nx as int) * ((ny as int) * (nz as int)),
                1 <= dx <= GEO_LIMIT,
                1 <= dy <= GEO_LIMIT,
                1 <= dz <= GEO_LIMIT,
                (nx as int) * (dx as int) <= GEO_LIMIT,
                (ny as int) * (dy as int) <= GEO_LIMIT,
                (nz as int) * (dz as int) <= GEO_LIMIT,
                1 <= m <= 8,
                0 <= thr <= GEO_LIMIT,
                ilo as int == lo_cell(min3s(t.a.x as int, t.b.x as int, t.c.x as int), dx as int, nx as int),
                ihi as int == hi_cell(max3s(t.a.x as int, t.b.x as int, t.c.x as int), dx as int, nx as int),
                jlo as int == lo_cell(min3s(t.a.y as int, t.b.y as int, t.c.y as int), dy as int, ny as int),
                jhi as int == hi_cell(max3s(t.a.y as int, t.b.y as int, t.c.y as int), dy as int, ny as int),
                klo as int == lo_cell(min3s(t.a.z as int, t.b.z as int, t.c.z as int), dz as int, nz as int),
                khi as int == hi_cell(max3s(t.a.z as int, t.b.z as int, t.c.z as int), dz as int, nz as int),
                ihi < nx && jhi < ny && khi < nz,
                ilo <= ii <= ihi,
                jlo <= jj,
                gram as int == tri_gram(*t),
                gram != 0,
                forall|i2: int, j2: int, k2: int|
                    #![trigger lin_at(nx as int, ny as int, i2, j2, k2)]
                    0 <= i2 < nx && 0 <= j2 < ny && 0 <= k2 < nz ==> solid@[lin_at(
                        nx as int,
                        ny as int,
                        i2,
                        j2,
                        k2,
                    )] == (old(solid)@[lin_at(nx as int, ny as int, i2, j2, k2)]
                        || (cell_solid_for(
                        *t,
                        nx as int,
                        ny as int,
                        nz as int,
                        dx as int,
                        dy as int,
                        dz as int,
                        m as int,
                        thr as int,
                        i2,
                        j2,
                        k2,
                    ) && (i2 < ii || (i2 == ii && j2 < jj)))),
            decreases jhi + 1 - jj,
        {
            let mut kk: usize = klo;
            proof {
                assert forall|i2: int, j2: int, k2: int|
                    #![trigger lin_at(nx as int, ny as int, i2, j2, k2)]
                    0 <= i2 < nx && 0 <= j2 < ny && 0 <= k2 < nz implies solid@[lin_at(
                    nx as int,
                    ny as int,
                    i2,
                    j2,
                    k2,
                )] == (old(solid)@[lin_at(nx as int, ny as int, i2, j2, k2)] || (cell_solid_for(
                    *t,
                    nx as int,
                    ny as int,
                    nz as int,
                    dx as int,
                    dy as int,
                    dz as int,
                    m as int,
                    thr as int,
                    i2,
                    j2,
                    k2,
                ) && (i2 < ii || (i2 == ii && (j2 < jj || (j2 == jj && k2 < kk)))))) by {
                    lemma_lin_bounds(nx as int, ny as int, nz as int, i2, j2, k2);
                }
            }
            while kk <= khi
                invariant
                    tri_ok(*t),
                    1 <= nx < 0x4000_0000,
                    1 <= ny < 0x4000_0000,
                    1 <= nz < 0x4000_0000,
                    solid.len() == old(solid).len(),
                    old(solid).len() as int == (nx as int) * ((ny as int) * (nz as int)),
                    1 <= dx <= GEO_LIMIT,
                    1 <= dy <= GEO_LIMIT,
                    1 <= dz <= GEO_LIMIT,
                    (nx as int) * (dx as int) <= GEO_LIMIT,
                    (ny as int) * (dy as int) <= GEO_LIMIT,
                    (nz as int) * (dz as int) <= GEO_LIMIT,
                    1 <= m <= 8,
                    0 <= thr <= GEO_LIMIT,
                    ilo as int == lo_cell(min3s(t.a.x as int, t.b.x as int, t.c.x as int), dx as int, nx as int),
                    ihi as int == hi_cell(max3s(t.a.x as int, t.b.x as int, t.c.x as int), dx as int, nx as int),
                    jlo as int == lo_cell(min3s(t.a.y as int, t.b.y as int, t.c.y as int), dy as int, ny as int),
                    jhi as int == hi_cell(max3s(t.a.y as int, t.b.y as int, t.c.y as int), dy as int, ny as int),
                    klo as int == lo_cell(min3s(t.a.z as int, t.b.z as int, t.c.z as int), dz as int, nz as int),
                    khi as int == hi_cell(max3s(t.a.z as int, t.b.z as int, t.c.z as int), dz as int, nz as int),
                    ihi < nx && jhi < ny && khi < nz,
                    ilo <= ii <= ihi,
                    jlo <= jj <= jhi,
                    klo <= kk,
                    gram as int == tri_gram(*t),
                    gram != 0,
                    forall|i2: int, j2: int, k2: int|
                        #![trigger lin_at(nx as int, ny as int, i2, j2, k2)]
                        0 <= i2 < nx && 0 <= j2 < ny && 0 <= k2 < nz ==> solid@[lin_at(
                            nx as int,
                            ny as int,
                            i2,
                            j2,
                            k2,
                        )] == (old(solid)@[lin_at(nx as int, ny as int, i2, j2, k2)]
                            || (cell_solid_for(
                            *t,
                            nx as int,
                            ny as int,
                            nz as int,
                            dx as int,
                            dy as int,
                            dz as int,
                            m as int,
                            thr as int,
                            i2,
                            j2,
                            k2,
                        ) && (i2 < ii || (i2 == ii && (j2 < jj || (j2 == jj && k2 < kk)))))),
                decreases khi + 1 - kk,
            {
                let cnt = count_samples(t, nx, dx, dy, dz, m, thr, ii, jj, kk, ny, nz);
                proof {
                    lemma_mul_bound(m as int, m as int, 8, 8);
                    lemma_mul_bound((m as int) * (m as int), m as int, 64, 8);
                    lemma_lin_bounds(
                        nx as int,
                        ny as int,
                        nz as int,
                        ii as int,
                        jj as int,
                        kk as int,
                    );
                }
                if 2 * cnt > (m * m) * m {
                    let idx: usize = ii + nx * (jj + ny * kk);
                    solid[idx] = true;
                    proof {
                        assert(idx as int == lin_at(nx as int, ny as int, ii as int, jj as int, kk as int));
                        assert(cell_solid_for(
                            *t,
                            nx as int,
                            ny as int,
                            nz as int,
                            dx as int,
                            dy as int,
                            dz as int,
                            m as int,
                            thr as int,
                            ii as int,
                            jj as int,
                            kk as int,
                        ));
                        assert(solid@[lin_at(nx as int, ny as int, ii as int, jj as int, kk as int)]);
                    }
                } else {
                    proof {
                        assert(!cell_solid_for(
                            *t,
                            nx as int,
                            ny as int,
                            nz as int,
                            dx as int,
                            dy as int,
                            dz as int,
                            m as int,
                            thr as int,
                            ii as int,
                            jj as int,
                            kk as int,
                        ));
                    }
                }
                proof {
                    assert forall|i2: int, j2: int, k2: int|
                        #![trigger lin_at(nx as int, ny as int, i2, j2, k2)]
                        0 <= i2 < nx && 0 <= j2 < ny && 0 <= k2 < nz implies solid@[lin_at(
                        nx as int,
                        ny as int,
                        i2,
                        j2,
                        k2,
                    )] == (old(solid)@[lin_at(nx as int, ny as int, i2, j2, k2)]
                        || (cell_solid_for(
                        *t,
                        nx as int,
                        ny as int,
                        nz as int,
                        dx as int,
                        dy as int,
                        dz as int,
                        m as int,
                        thr as int,
                        i2,
                        j2,
                        k2,
                    ) && (i2 < ii || (i2 == ii && (j2 < jj || (j2 == jj && k2 < kk + 1)))))) by {
                        lemma_lin_bounds(nx as int, ny as int, nz as int, i2, j2, k2);
                        if lin_at(nx as int, ny as int, i2, j2, k2) == lin_at(
                            nx as int,
                            ny as int,
                            ii as int,
                            jj as int,
                            kk as int,
                        ) {
                            lemma_lin_injective(
                                nx as int,
                                ny as int,
                                nz as int,
                                i2,
                                j2,
                                k2,
                                ii as int,
                                jj as int,
                                kk as int,
                            );
                        }
                    }
                }
                kk = kk + 1;
            }
            proof {
                assert forall|i2: int, j2: int, k2: int|
                    #![trigger lin_at(nx as int, ny as int, i2, j2, k2)]
                    0 <= i2 < nx && 0 <= j2 < ny && 0 <= k2 < nz implies solid@[lin_at(
                    nx as int,
                    ny as int,
                    i2,
                    j2,
                    k2,
                )] == (old(solid)@[lin_at(nx as int, ny as int, i2, j2, k2)] || (cell_solid_for(
                    *t,
                    nx as int,
                    ny as int,
                    nz as int,
                    dx as int,
                    dy as int,
                    dz as int,
                    m as int,
                    thr as int,
                    i2,
                    j2,
                    k2,
                ) && (i2 < ii || (i2 == ii && j2 < jj + 1)))) by {
                    lemma_lin_bounds(nx as int, ny as int, nz as int, i2, j2, k2);
                }
            }
            jj = jj + 1;
        }
        proof {
            assert forall|i2: int, j2: int, k2: int|
                #![trigger lin_at(nx as int, ny as int, i2, j2, k2)]
                0 <= i2 < nx && 0 <= j2 < ny && 0 <= k2 < nz implies solid@[lin_at(
                nx as int,
                ny as int,
                i2,
                j2,
                k2,
            )] == (old(solid)@[lin_at(nx as int, ny as int, i2, j2, k2)] || (cell_solid_for(
                *t,
                nx as int,
                ny as int,
                nz as int,
                dx as int,
                dy as int,
                dz as int,
                m as int,
                thr as int,
                i2,
                j2,
                k2,
            ) && (i2 < ii + 1))) by {
                lemma_lin_bounds(nx as int, ny as int, nz as int, i2, j2, k2);
            }
        }
        ii = ii + 1;
    }
    proof {
        assert forall|i2: int, j2: int, k2: int|
            #![trigger lin_at(nx as int, ny as int, i2, j2, k2)]
            0 <= i2 < nx && 0 <= j2 < ny && 0 <= k2 < nz implies solid@[lin_at(
            nx as int,
            ny as int,
            i2,
            j2,
            k2,
        )] == (old(solid)@[lin_at(nx as int, ny as int, i2, j2, k2)] || (cell_solid_for(
            *t,
            nx as int,
            ny as int,
            nz as int,
            dx as int,
            dy as int,
            dz as int,
            m as int,
            thr as int,
            i2,
            j2,
            k2,
        ) && (true))) by {
            lemma_lin_bounds(nx as int, ny as int, nz as int, i2, j2, k2);
        }
    }
}

/// Read one candidate cell: in bounds and marked in `solid`.
fn probe(solid: &Vec<bool>, nx: usize, ny: usize, nz: usize, ci: i64, cj: i64, ck: i64) -> (r:
    bool)
    requires
        1 <= nx < 0x4000_0000,
        1 <= ny < 0x4000_0000,
        1 <= nz < 0x4000_0000,
        solid.len() as int == (nx as int) * ((ny as int) * (nz as int)),
    ensures
        r == (0 <= ci < nx && 0 <= cj < ny && 0 <= ck < nz && solid@[lin_at(
            nx as int,
            ny as int,
            ci as int,
            cj as int,
            ck as int,
        )]),
{
    if 0 <= ci && ci < nx as i64 && 0 <= cj && cj < ny as i64 && 0 <= ck && ck < nz as i64 {
        proof {
            lemma_lin_bounds(nx as int, ny as int, nz as int, ci as int, cj as int, ck as int);
        }
        solid[(ci as usize) + nx * ((cj as usize) + ny * (ck as usize))]
    } else {
        false
    }
}

/// Whether any of the 26 grid neighbors of `(i, j, k)` is marked in
/// `solid`.
fn has_solid_neighbor(
    solid: &Vec<bool>,
    nx: usize,
    ny: usize,
    nz: usize,
    i: usize,
    j: usize,
    k: usize,
) -> (r: bool)
    requires
        1 <= nx < 0x4000_0000,
        1 <= ny < 0x4000_0000,
        1 <= nz < 0x4000_0000,
        solid.len() as int == (nx as int) * ((ny as int) * (nz as int)),
        i < nx,
        j < ny,
        k < nz,
    ensures
        r == solid_neighbor_in(
            solid@,
            nx as int,
            ny as int,
            nz as int,
            i as int,
            j as int,
            k as int,
        ),
{
    let ii = i as i64;
    let jj = j as i64;
    let kk = k as i64;
    let r = probe(solid, nx, ny, nz, ii - 1, jj - 1, kk - 1) || probe(solid, nx, ny, nz, ii - 1, jj - 1, kk) || probe(solid, nx, ny, nz, ii - 1, jj - 1, kk + 1) || probe(solid, nx, ny, nz, ii - 1, jj, kk - 1) || probe(solid, nx, ny, nz, ii - 1, jj, kk) || probe(solid, nx, ny, nz, ii - 1, jj, kk + 1) || probe(solid, nx, ny, nz, ii - 1, jj + 1, kk - 1) || probe(solid, nx, ny, nz, ii - 1, jj + 1, kk) || probe(solid, nx, ny, nz, ii - 1, jj + 1, kk + 1) || probe(solid, nx, ny, nz, ii, jj - 1, kk - 1) || probe(solid, nx, ny, nz, ii, jj - 1, kk) || probe(solid, nx, ny, nz, ii, jj - 1, kk + 1) || probe(solid, nx, ny, nz, ii, jj, kk - 1) || probe(solid, nx, ny, nz, ii, jj, kk + 1) || probe(solid, nx, ny, nz, ii, jj + 1, kk - 1) || probe(solid, nx, ny, nz, ii, jj + 1, kk) || probe(solid, nx, ny, nz, ii, jj + 1, kk + 1) || probe(solid, nx, ny, nz, ii + 1, jj - 1, kk - 1) || probe(solid, nx, ny, nz, ii + 1, jj - 1, kk) || probe(solid, nx, ny, nz, ii + 1, jj - 1, kk + 1) || probe(solid, nx, ny, nz, ii + 1, jj, kk - 1) || probe(solid, nx, ny, nz, ii + 1, jj, kk) || probe(solid, nx, ny, nz, ii + 1, jj, kk + 1) || probe(solid, nx, ny, nz, ii + 1, jj + 1, kk - 1) || probe(solid, nx, ny, nz, ii + 1, jj + 1, kk) || probe(solid, nx, ny, nz, ii + 1, jj + 1, kk + 1);
    r
}

/// The per-cell classification derived from a triangle mesh: the final
/// solid marks (boundary planes cleared) and the informational marks of
/// cells neighboring raw solid cells, as dense tables indexed with the x
/// axis fastest.
pub struct Geometry {
    pub nx: usize,
    pub ny: usize,
    pub nz: usize,
    pub solid: Vec<bool>,
    pub boundary: Vec<bool>,
}

impl Geometry {
    /// Structural invariant: positive extents, one mark per cell.
    pub open spec fn wf(self) -> bool {
        &&& 1 <= self.nx < 0x4000_0000
        &&& 1 <= self.ny < 0x4000_0000
        &&& 1 <= self.nz < 0x4000_0000
        &&& self.solid.len() as int == (self.nx as int) * ((self.ny as int) * (self.nz as int))
        &&& self.boundary.len() == self.solid.len()
    }

    /// The stored solid mark of a cell; out-of-domain cells carry none.
    pub open spec fn solid_at(self, i: int, j: int, k: int) -> bool {
        &&& 0 <= i < self.nx
        &&& 0 <= j < self.ny
        &&& 0 <= k < self.nz
        &&& self.solid@[lin_at(self.nx as int, self.ny as int, i, j, k)]
    }

    /// The stored boundary mark of a cell.
    pub open spec fn boundary_at(self, i: int, j: int, k: int) -> bool {
        &&& 0 <= i < self.nx
        &&& 0 <= j < self.ny
        &&& 0 <= k < self.nz
        &&& self.boundary@[lin_at(self.nx as int, self.ny as int, i, j, k)]
    }

    /// Whether a cell lies on the inlet plane `x = 0`.
    pub open spec fn inlet_at(self, i: int, j: int, k: int) -> bool {
        i == 0 && 0 <= j < self.ny && 0 <= k < self.nz
    }

    /// Whether a cell lies on the outlet plane `x = nx - 1`.
    pub open spec fn outlet_at(self, i: int, j: int, k: int) -> bool {
        i == self.nx - 1 && 0 <= j < self.ny && 0 <= k < self.nz
    }

    /// Whether a cell is fluid: inside the domain and not solid.
    pub open spec fn fluid_at(self, i: int, j: int, k: int) -> bool {
        0 <= i < self.nx && 0 <= j < self.ny && 0 <= k < self.nz && !self.solid_at(i, j, k)
    }

    /// Whether cell `(i, j, k)` is classified solid.
    pub fn is_solid(&self, i: usize, j: usize, k: usize) -> (r: bool)
        requires
            self.wf(),
        ensures
            r == self.solid_at(i as int, j as int, k as int),
    {
        if i < self.nx && j < self.ny && k < self.nz {
            proof {
                lemma_lin_bounds(
                    self.nx as int,
                    self.ny as int,
                    self.nz as int,
                    i as int,
                    j as int,
                    k as int,
                );
            }
            self.solid[i + self.nx * (j + self.ny * k)]
        } else {
            false
        }
    }

    /// Whether cell `(i, j, k)` carries the informational boundary mark.
    pub fn is_boundary(&self, i: usize, j: usize, k: usize) -> (r: bool)
        requires
            self.wf(),
        ensures
            r == self.boundary_at(i as int, j as int, k as int),
    {
        if i < self.nx && j < self.ny && k < self.nz {
            proof {
                lemma_lin_bounds(
                    self.nx as int,
                    self.ny as int,
                    self.nz as int,
                    i as int,
                    j as int,
                    k as int,
                );
            }
            self.boundary[i + self.nx * (j + self.ny * k)]
        } else {
            false
        }
    }

    /// Whether cell `(i, j, k)` is classified fluid.
    pub fn is_fluid(&self, i: usize, j: usize, k: usize) -> (r: bool)
        requires
            self.wf(),
        ensures
            r == self.fluid_at(i as int, j as int, k as int),
    {
        if i < self.nx && j < self.ny && k < self.nz {
            let s = self.is_solid(i, j, k);
            !s
        } else {
            false
        }
    }

    /// Whether cell `(i, j, k)` lies on the inlet plane.
    pub fn is_inlet(&self, i: usize, j: usize, k: usize) -> (r: bool)
        requires
            self.wf(),
        ensures
            r == self.inlet_at(i as int, j as int, k as int),
    {
        i == 0 && j < self.ny && k < self.nz
    }

    /// Whether cell `(i, j, k)` lies on the outlet plane.
    pub fn is_outlet(&self, i: usize, j: usize, k: usize) -> (r: bool)
        requires
            self.wf(),
        ensures
            r == self.outlet_at(i as int, j as int, k as int),
    {
        i == self.nx - 1 && j < self.ny && k < self.nz
    }
}

impl Geometry {
    /// Classify every cell of an `nx * ny * nz` grid against a triangle
    /// mesh: a cell is solid when some triangle's sample majority covers
    /// it, the `x = 0` plane is forced to inlet fluid and the
    /// `x = nx - 1` plane to outlet fluid regardless of the mesh, and a
    /// cell neighboring a raw solid cell carries the informational
    /// boundary mark.  Fails exactly on an empty mesh or on a vertex
    /// coordinate outside the representable band.
    pub fn from_triangles(
        triangles: &Vec<Triangle>,
        nx: usize,
        ny: usize,
        nz: usize,
        dx: i64,
        dy: i64,
        dz: i64,
        samples_per_axis: usize,
        thickness: i64,
    ) -> (r: Result<Geometry, GeometryError>)
        requires
            1 <= nx < 0x4000_0000,
            1 <= ny < 0x4000_0000,
            1 <= nz < 0x4000_0000,
            (nx as int) * ((ny as int) * (nz as int)) < 0x1_0000_0000,
            1 <= dx <= GEO_LIMIT,
            1 <= dy <= GEO_LIMIT,
            1 <= dz <= GEO_LIMIT,
            (nx as int) * (dx as int) <= GEO_LIMIT,
            (ny as int) * (dy as int) <= GEO_LIMIT,
            (nz as int) * (dz as int) <= GEO_LIMIT,
            1 <= samples_per_axis <= MAX_SAMPLES,
            0 <= thickness <= GEO_LIMIT,
        ensures
            (r is Err) <==> (triangles@.len() == 0 || exists|ti: int|
                0 <= ti < triangles@.len() && !tri_ok(#[trigger] triangles@[ti])),
            r == Result::<Geometry, GeometryError>::Err(GeometryError::EmptyMesh) <==> triangles@.len() == 0,
            r is Ok ==> {
                let g = r->Ok_0;
                &&& g.wf()
                &&& g.nx == nx && g.ny == ny && g.nz == nz
                &&& forall|i2: int, j2: int, k2: int|
                    #![trigger lin_at(nx as int, ny as int, i2, j2, k2)]
                    0 <= i2 < nx && 0 <= j2 < ny && 0 <= k2 < nz ==> g.solid@[lin_at(
                        nx as int,
                        ny as int,
                        i2,
                        j2,
                        k2,
                    )] == (raw_solid(
                        triangles@,
                        triangles@.len() as int,
                        nx as int,
                        ny as int,
                        nz as int,
                        dx as int,
                        dy as int,
                        dz as int,
                        samples_per_axis as int,
                        thickness as int,
                        i2,
                        j2,
                        k2,
                    ) && i2 != 0 && i2 != nx - 1)
                &&& forall|i2: int, j2: int, k2: int|
                    #![trigger lin_at(nx as int, ny as int, i2, j2, k2)]
                    0 <= i2 < nx && 0 <= j2 < ny && 0 <= k2 < nz ==> g.boundary@[lin_at(
                        nx as int,
                        ny as int,
                        i2,
                        j2,
                        k2,
                    )] == boundary_mark(
                        triangles@,
                        nx as int,
                        ny as int,
                        nz as int,
                        dx as int,
                        dy as int,
                        dz as int,
                        samples_per_axis as int,
                        thickness as int,
                        i2,
                        j2,
                        k2,
                    )
                &&& forall|j2: int, k2: int|
                    0 <= j2 < ny && 0 <= k2 < nz ==> !g.solid_at(0, j2, k2) && !g.solid_at(
                        nx - 1,
                        j2,
                        k2,
                    ) && g.inlet_at(0, j2, k2) && g.outlet_at(nx - 1, j2, k2) && g.fluid_at(
                        0,
                        j2,
                        k2,
                    ) && g.fluid_at(nx - 1, j2, k2)
            },
    {
        let n_tri = triangles.len();
        if n_tri == 0 {
            return Err(GeometryError::EmptyMesh);
        }
        let mut ti: usize = 0;
        while ti < n_tri
            invariant
                n_tri == triangles.len(),
                ti <= n_tri,
                forall|t2: int| 0 <= t2 < ti ==> tri_ok(#[trigger] triangles@[t2]),
            decreases n_tri - ti,
        {
            let t = &triangles[ti];
            let ok = -GEO_LIMIT <= t.a.x && t.a.x <= GEO_LIMIT && -GEO_LIMIT <= t.a.y && t.a.y
                <= GEO_LIMIT && -GEO_LIMIT <= t.a.z && t.a.z <= GEO_LIMIT && -GEO_LIMIT <= t.b.x
                && t.b.x <= GEO_LIMIT && -GEO_LIMIT <= t.b.y && t.b.y <= GEO_LIMIT && -GEO_LIMIT
                <= t.b.z && t.b.z <= GEO_LIMIT && -GEO_LIMIT <= t.c.x && t.c.x <= GEO_LIMIT
                && -GEO_LIMIT <= t.c.y && t.c.y <= GEO_LIMIT && -GEO_LIMIT <= t.c.z && t.c.z
                <= GEO_LIMIT;
            if !ok {
                return Err(GeometryError::CoordinateOutOfRange);
            }
            ti = ti + 1;
        }
        proof {
            lemma_lin_bounds(nx as int, ny as int, nz as int, 0, 0, 0);
        }
        let total: usize = nx * (ny * nz);
        let mut solid: Vec<bool> = Vec::new();
        let mut c0: usize = 0;
        while c0 < total
            invariant
                c0 <= total,
                solid.len() == c0,
                forall|cc: int| 0 <= cc < c0 ==> !(#[trigger] solid@[cc]),
            decreases total - c0,
        {
            solid.push(false);
            c0 = c0 + 1;
        }
        let mut ti2: usize = 0;
        proof {
            assert forall|i2: int, j2: int, k2: int|
                #![trigger lin_at(nx as int, ny as int, i2, j2, k2)]
                0 <= i2 < nx && 0 <= j2 < ny && 0 <= k2 < nz implies solid@[lin_at(
                nx as int,
                ny as int,
                i2,
                j2,
                k2,
            )] == raw_solid(
                triangles@,
                0,
                nx as int,
                ny as int,
                nz as int,
                dx as int,
                dy as int,
                dz as int,
                samples_per_axis as int,
                thickness as int,
                i2,
                j2,
                k2,
            ) by {
                lemma_lin_bounds(nx as int, ny as int, nz as int, i2, j2, k2);
            }
        }
        while ti2 < n_tri
            invariant
                n_tri == triangles.len(),
                ti2 <= n_tri,
                forall|t2: int| 0 <= t2 < n_tri ==> tri_ok(#[trigger] triangles@[t2]),
                solid.len() == total,
                total as int == (nx as int) * ((ny as int) * (nz as int)),
                1 <= nx < 0x4000_0000,
                1 <= ny < 0x4000_0000,
                1 <= nz < 0x4000_0000,
                1 <= dx <= GEO_LIMIT,
                1 <= dy <= GEO_LIMIT,
                1 <= dz <= GEO_LIMIT,
                (nx as int) * (dx as int) <= GEO_LIMIT,
                (ny as int) * (dy as int) <= GEO_LIMIT,
                (nz as int) * (dz as int) <= GEO_LIMIT,
                1 <= samples_per_axis <= MAX_SAMPLES,
                0 <= thickness <= GEO_LIMIT,
                forall|i2: int, j2: int, k2: int|
                    #![trigger lin_at(nx as int, ny as int, i2, j2, k2)]
                    0 <= i2 < nx && 0 <= j2 < ny && 0 <= k2 < nz ==> solid@[lin_at(
                        nx as int,
                        ny as int,
                        i2,
                        j2,
                        k2,
                    )] == raw_solid(
                        triangles@,
                        ti2 as int,
                        nx as int,
                        ny as int,
                        nz as int,
                        dx as int,
                        dy as int,
                        dz as int,
                        samples_per_axis as int,
                        thickness as int,
                        i2,
                        j2,
                        k2,
                    ),
            decreases n_tri - ti2,
        {
            let ghost pre = solid@;
            let t = &triangles[ti2];
            voxelize_triangle(t, nx, ny, nz, dx, dy, dz, samples_per_axis, thickness, &mut solid);
            proof {
                assert forall|i2: int, j2: int, k2: int|
                    #![trigger lin_at(nx as int, ny as int, i2, j2, k2)]
                    0 <= i2 < nx && 0 <= j2 < ny && 0 <= k2 < nz implies solid@[lin_at(
                    nx as int,
                    ny as int,
                    i2,
                    j2,
                    k2,
                )] == raw_solid(
                    triangles@,
                    ti2 as int + 1,
                    nx as int,
                    ny as int,
                    nz as int,
                    dx as int,
                    dy as int,
                    dz as int,
                    samples_per_axis as int,
                    thickness as int,
                    i2,
                    j2,
                    k2,
                ) by {
                    lemma_lin_bounds(nx as int, ny as int, nz as int, i2, j2, k2);
                    if solid@[lin_at(nx as int, ny as int, i2, j2, k2)] {
                        if pre[lin_at(nx as int, ny as int, i2, j2, k2)] {
                            let wt = choose|w: int|
                                0 <= w < ti2 && cell_solid_for(
                                    #[trigger] triangles@[w],
                                    nx as int,
                                    ny as int,
                                    nz as int,
                                    dx as int,
                                    dy as int,
                                    dz as int,
                                    samples_per_axis as int,
                                    thickness as int,
                                    i2,
                                    j2,
                                    k2,
                                );
                            assert(0 <= wt < ti2 + 1 && cell_solid_for(
                                triangles@[wt],
                                nx as int,
                                ny as int,
                                nz as int,
                                dx as int,
                                dy as int,
                                dz as int,
                                samples_per_axis as int,
                                thickness as int,
                                i2,
                                j2,
                                k2,
                            ));
                        } else {
                            assert(cell_solid_for(
                                triangles@[ti2 as int],
                                nx as int,
                                ny as int,
                                nz as int,
                                dx as int,
                                dy as int,
                                dz as int,
                                samples_per_axis as int,
                                thickness as int,
                                i2,
                                j2,
                                k2,
                            ));
                        }
                    }
                }
            }
            ti2 = ti2 + 1;
        }
        // informational boundary marks from the raw solid table
        let mut boundary: Vec<bool> = Vec::new();
        let mut k: usize = 0;
        let mut c: usize = 0;
        proof {
            lemma_lin_wrap(nx as int, ny as int, 0, 0);
        }
        while k < nz
            invariant
                1 <= nx < 0x4000_0000,
                1 <= ny < 0x4000_0000,
                1 <= nz < 0x4000_0000,
                solid.len() == total,
                total as int == (nx as int) * ((ny as int) * (nz as int)),
                k <= nz,
                c as int == lin_at(nx as int, ny as int, 0, 0, k as int),
                c <= total,
                boundary.len() == c,
                forall|i2: int, j2: int, k2: int|
                    #![trigger lin_at(nx as int, ny as int, i2, j2, k2)]
                    0 <= i2 < nx && 0 <= j2 < ny && 0 <= k2 < nz && lin_at(
                        nx as int,
                        ny as int,
                        i2,
                        j2,
                        k2,
                    ) < c ==> boundary@[lin_at(nx as int, ny as int, i2, j2, k2)]
                        == solid_neighbor_in(
                        solid@,
                        nx as int,
                        ny as int,
                        nz as int,
                        i2,
                        j2,
                        k2,
                    ),
            decreases nz - k,
        {
            let mut j: usize = 0;
            while j < ny
                invariant
                    1 <= nx < 0x4000_0000,
                    1 <= ny < 0x4000_0000,
                    1 <= nz < 0x4000_0000,
                    solid.len() == total,
                    total as int == (nx as int) * ((ny as int) * (nz as int)),
                    k < nz,
                    j <= ny,
                    c as int == lin_at(nx as int, ny as int, 0, j as int, k as int),
                    c <= total,
                    boundary.len() == c,
                    forall|i2: int, j2: int, k2: int|
                        #![trigger lin_at(nx as int, ny as int, i2, j2, k2)]
                        0 <= i2 < nx && 0 <= j2 < ny && 0 <= k2 < nz && lin_at(
                            nx as int,
                            ny as int,
                            i2,
                            j2,
                            k2,
                        ) < c ==> boundary@[lin_at(nx as int, ny as int, i2, j2, k2)]
                            == solid_neighbor_in(
                            solid@,
                            nx as int,
                            ny as int,
                            nz as int,
                            i2,
                            j2,
                            k2,
                        ),
                decreases ny - j,
            {
                let mut i: usize = 0;
                while i < nx
                    invariant
                        1 <= nx < 0x4000_0000,
                        1 <= ny < 0x4000_0000,
                        1 <= nz < 0x4000_0000,
                        solid.len() == total,
                        total as int == (nx as int) * ((ny as int) * (nz as int)),
                        k < nz,
                        j < ny,
                        i <= nx,
                        c as int == lin_at(nx as int, ny as int, i as int, j as int, k as int),
                        c <= total,
                        boundary.len() == c,
                        forall|i2: int, j2: int, k2: int|
                            #![trigger lin_at(nx as int, ny as int, i2, j2, k2)]
                            0 <= i2 < nx && 0 <= j2 < ny && 0 <= k2 < nz && lin_at(
                                nx as int,
                                ny as int,
                                i2,
                                j2,
                                k2,
                            ) < c ==> boundary@[lin_at(nx as int, ny as int, i2, j2, k2)]
                                == solid_neighbor_in(
                                solid@,
                                nx as int,
                                ny as int,
                                nz as int,
                                i2,
                                j2,
                                k2,
                            ),
                    decreases nx - i,
                {
                    proof {
                        lemma_lin_bounds(nx as int, ny as int, nz as int, i as int, j as int, k as int);
                    }
                    let b = has_solid_neighbor(&solid, nx, ny, nz, i, j, k);
                    boundary.push(b);
                    proof {
                        assert forall|i2: int, j2: int, k2: int|
                            #![trigger lin_at(nx as int, ny as int, i2, j2, k2)]
                            0 <= i2 < nx && 0 <= j2 < ny && 0 <= k2 < nz && lin_at(
                                nx as int,
                                ny as int,
                                i2,
                                j2,
                                k2,
                            ) < c + 1 implies boundary@[lin_at(nx as int, ny as int, i2, j2, k2)]
                            == solid_neighbor_in(
                            solid@,
                            nx as int,
                            ny as int,
                            nz as int,
                            i2,
                            j2,
                            k2,
                        ) by {
                            lemma_lin_bounds(nx as int, ny as int, nz as int, i2, j2, k2);
                            if lin_at(nx as int, ny as int, i2, j2, k2) == c as int {
                                lemma_lin_injective(
                                    nx as int,
                                    ny as int,
                                    nz as int,
                                    i2,
                                    j2,
                                    k2,
                                    i as int,
                                    j as int,
                                    k as int,
                                );
                            }
                        }
                    }
                    i = i + 1;
                    c = c + 1;
                }
                proof {
                    lemma_lin_wrap(nx as int, ny as int, j as int, k as int);
                }
                j = j + 1;
            }
            proof {
                lemma_lin_wrap(nx as int, ny as int, 0, k as int);
            }
            k = k + 1;
        }
        proof {
            assert((nx as int) * (0 + (ny as int) * (nz as int)) == (nx as int) * ((ny as int) * (
            nz as int))) by (nonlinear_arith);
            assert(c as int == nx * (ny * nz));
        }
        // force the x = 0 plane to inlet fluid and the x = nx - 1 plane to
        // outlet fluid, clearing any mesh-derived solid marks there
        let ghost raw = solid@;
        proof {
            assert forall|i2: int, j2: int, k2: int|
                #![trigger lin_at(nx as int, ny as int, i2, j2, k2)]
                0 <= i2 < nx && 0 <= j2 < ny && 0 <= k2 < nz implies raw[lin_at(
                nx as int,
                ny as int,
                i2,
                j2,
                k2,
            )] == raw_solid(
                triangles@,
                n_tri as int,
                nx as int,
                ny as int,
                nz as int,
                dx as int,
                dy as int,
                dz as int,
                samples_per_axis as int,
                thickness as int,
                i2,
                j2,
                k2,
            ) by {
                lemma_lin_bounds(nx as int, ny as int, nz as int, i2, j2, k2);
            }
        }
        let mut k3: usize = 0;
        let mut c3: usize = 0;
        proof {
            lemma_lin_wrap(nx as int, ny as int, 0, 0);
        }
        while k3 < nz
            invariant
                1 <= nx < 0x4000_0000,
                1 <= ny < 0x4000_0000,
                1 <= nz < 0x4000_0000,
                solid.len() == total,
                total as int == (nx as int) * ((ny as int) * (nz as int)),
                raw.len() == total,
                k3 <= nz,
                c3 as int == lin_at(nx as int, ny as int, 0, 0, k3 as int),
                c3 <= total,
                forall|i2: int, j2: int, k2: int|
                    #![trigger lin_at(nx as int, ny as int, i2, j2, k2)]
                    0 <= i2 < nx && 0 <= j2 < ny && 0 <= k2 < nz && lin_at(
                        nx as int,
                        ny as int,
                        i2,
                        j2,
                        k2,
                    ) < c3 ==> solid@[lin_at(nx as int, ny as int, i2, j2, k2)] == (raw[lin_at(
                        nx as int,
                        ny as int,
                        i2,
                        j2,
                        k2,
                    )] && i2 != 0 && i2 != nx - 1),
                forall|i2: int, j2: int, k2: int|
                    #![trigger lin_at(nx as int, ny as int, i2, j2, k2)]
                    0 <= i2 < nx && 0 <= j2 < ny && 0 <= k2 < nz && lin_at(
                        nx as int,
                        ny as int,
                        i2,
                        j2,
                        k2,
                    ) >= c3 ==> solid@[lin_at(nx as int, ny as int, i2, j2, k2)] == raw[lin_at(
                        nx as int,
                        ny as int,
                        i2,
                        j2,
                        k2,
                    )],
            decreases nz - k3,
        {
            let mut j3: usize = 0;
            while j3 < ny
                invariant
                    1 <= nx < 0x4000_0000,
                    1 <= ny < 0x4000_0000,
                    1 <= nz < 0x4000_0000,
                    solid.len() == total,
                    total as int == (nx as int) * ((ny as int) * (nz as int)),
                    raw.len() == total,
                    k3 < nz,
                    j3 <= ny,
                    c3 as int == lin_at(nx as int, ny as int, 0, j3 as int, k3 as int),
                    c3 <= total,
                    forall|i2: int, j2: int, k2: int|
                        #![trigger lin_at(nx as int, ny as int, i2, j2, k2)]
                        0 <= i2 < nx && 0 <= j2 < ny && 0 <= k2 < nz && lin_at(
                            nx as int,
                            ny as int,
                            i2,
                            j2,
                            k2,
                        ) < c3 ==> solid@[lin_at(nx as int, ny as int, i2, j2, k2)] == (raw[lin_at(
                            nx as int,
                            ny as int,
                            i2,
                            j2,
                            k2,
                        )] && i2 != 0 && i2 != nx - 1),
                    forall|i2: int, j2: int, k2: int|
                        #![trigger lin_at(nx as int, ny as int, i2, j2, k2)]
                        0 <= i2 < nx && 0 <= j2 < ny && 0 <= k2 < nz && lin_at(
                            nx as int,
                            ny as int,
                            i2,
                            j2,
                            k2,
                        ) >= c3 ==> solid@[lin_at(nx as int, ny as int, i2, j2, k2)] == raw[lin_at(
                            nx as int,
                            ny as int,
                            i2,
                            j2,
                            k2,
                        )],
                decreases ny - j3,
            {
                let mut i3: usize = 0;
                while i3 < nx
                    invariant
                        1 <= nx < 0x4000_0000,
                        1 <= ny < 0x4000_0000,
                        1 <= nz < 0x4000_0000,
                        solid.len() == total,
                        total as int == (nx as int) * ((ny as int) * (nz as int)),
                        raw.len() == total,
                        k3 < nz,
                        j3 < ny,
                        i3 <= nx,
                        c3 as int == lin_at(nx as int, ny as int, i3 as int, j3 as int, k3 as int),
                        c3 <= total,
                        forall|i2: int, j2: int, k2: int|
                            #![trigger lin_at(nx as int, ny as int, i2, j2, k2)]
                            0 <= i2 < nx && 0 <= j2 < ny && 0 <= k2 < nz && lin_at(
                                nx as int,
                                ny as int,
                                i2,
                                j2,
                                k2,
                            ) < c3 ==> solid@[lin_at(nx as int, ny as int, i2, j2, k2)] == (
                            raw[lin_at(nx as int, ny as int, i2, j2, k2)] && i2 != 0 && i2 != nx
                                - 1),
                        forall|i2: int, j2: int, k2: int|
                            #![trigger lin_at(nx as int, ny as int, i2, j2, k2)]
                            0 <= i2 < nx && 0 <= j2 < ny && 0 <= k2 < nz && lin_at(
                                nx as int,
                                ny as int,
                                i2,
                                j2,
                                k2,
                            ) >= c3 ==> solid@[lin_at(nx as int, ny as int, i2, j2, k2)]
                                == raw[lin_at(nx as int, ny as int, i2, j2, k2)],
                    decreases nx - i3,
                {
                    proof {
                        lemma_lin_bounds(nx as int, ny as int, nz as int, i3 as int, j3 as int, k3 as int);
                    }
                    if i3 == 0 || i3 == nx - 1 {
                        solid[c3] = false;
                    }
                    proof {
                        assert forall|i2: int, j2: int, k2: int|
                            #![trigger lin_at(nx as int, ny as int, i2, j2, k2)]
                            0 <= i2 < nx && 0 <= j2 < ny && 0 <= k2 < nz && lin_at(
                                nx as int,
                                ny as int,
                                i2,
                                j2,
                                k2,
                            ) < c3 + 1 implies solid@[lin_at(nx as int, ny as int, i2, j2, k2)]
                            == (raw[lin_at(nx as int, ny as int, i2, j2, k2)] && i2 != 0 && i2
                            != nx - 1) by {
                            lemma_lin_bounds(nx as int, ny as int, nz as int, i2, j2, k2);
                            if lin_at(nx as int, ny as int, i2, j2, k2) == c3 as int {
                                lemma_lin_injective(
                                    nx as int,
                                    ny as int,
                                    nz as int,
                                    i2,
                                    j2,
                                    k2,
                                    i3 as int,
                                    j3 as int,
                                    k3 as int,
                                );
                            }
                        }
                        assert forall|i2: int, j2: int, k2: int|
                            #![trigger lin_at(nx as int, ny as int, i2, j2, k2)]
                            0 <= i2 < nx && 0 <= j2 < ny && 0 <= k2 < nz && lin_at(
                                nx as int,
                                ny as int,
                                i2,
                                j2,
                                k2,
                            ) >= c3 + 1 implies solid@[lin_at(nx as int, ny as int, i2, j2, k2)]
                            == raw[lin_at(nx as int, ny as int, i2, j2, k2)] by {
                            lemma_lin_bounds(nx as int, ny as int, nz as int, i2, j2, k2);
                        }
                    }
                    i3 = i3 + 1;
                    c3 = c3 + 1;
                }
                proof {
                    lemma_lin_wrap(nx as int, ny as int, j3 as int, k3 as int);
                }
                j3 = j3 + 1;
            }
            proof {
                lemma_lin_wrap(nx as int, ny as int, 0, k3 as int);
            }
            k3 = k3 + 1;
        }
        proof {
            assert((nx as int) * (0 + (ny as int) * (nz as int)) == (nx as int) * ((ny as int) * (
            nz as int))) by (nonlinear_arith);
            assert(c3 as int == nx * (ny * nz));
            assert forall|i2: int, j2: int, k2: int|
                #![trigger lin_at(nx as int, ny as int, i2, j2, k2)]
                0 <= i2 < nx && 0 <= j2 < ny && 0 <= k2 < nz implies solid@[lin_at(
                nx as int,
                ny as int,
                i2,
                j2,
                k2,
            )] == (raw_solid(
                triangles@,
                n_tri as int,
                nx as int,
                ny as int,
                nz as int,
                dx as int,
                dy as int,
                dz as int,
                samples_per_axis as int,
                thickness as int,
                i2,
                j2,
                k2,
            ) && i2 != 0 && i2 != nx - 1) by {
                lemma_lin_bounds(nx as int, ny as int, nz as int, i2, j2, k2);
            }
        }
        proof {
            assert forall|i2: int, j2: int, k2: int|
                #![trigger lin_at(nx as int, ny as int, i2, j2, k2)]
                0 <= i2 < nx && 0 <= j2 < ny && 0 <= k2 < nz implies boundary@[lin_at(
                nx as int,
                ny as int,
                i2,
                j2,
                k2,
            )] == boundary_mark(
                triangles@,
                nx as int,
                ny as int,
                nz as int,
                dx as int,
                dy as int,
                dz as int,
                samples_per_axis as int,
                thickness as int,
                i2,
                j2,
                k2,
            ) by {
                lemma_lin_bounds(nx as int, ny as int, nz as int, i2, j2, k2);
                if solid_neighbor_in(raw, nx as int, ny as int, nz as int, i2, j2, k2) {
                    let (a, b, e): (int, int, int) = choose|a: int, b: int, e: int|
                        0 <= a < nx && 0 <= b < ny && 0 <= e < nz && neighbor26(i2, j2, k2, a, b, e)
                            && #[trigger] raw[lin_at(nx as int, ny as int, a, b, e)];
                    lemma_lin_bounds(nx as int, ny as int, nz as int, a, b, e);
                    assert(raw_solid(
                        triangles@,
                        n_tri as int,
                        nx as int,
                        ny as int,
                        nz as int,
                        dx as int,
                        dy as int,
                        dz as int,
                        samples_per_axis as int,
                        thickness as int,
                        a,
                        b,
                        e,
                    ));
                }
                if boundary_mark(
                    triangles@,
                    nx as int,
                    ny as int,
                    nz as int,
                    dx as int,
                    dy as int,
                    dz as int,
                    samples_per_axis as int,
                    thickness as int,
                    i2,
                    j2,
                    k2,
                ) {
                    let (a, b, e): (int, int, int) = choose|a: int, b: int, e: int|
                        0 <= a < nx && 0 <= b < ny && 0 <= e < nz && neighbor26(i2, j2, k2, a, b, e)
                            && #[trigger] raw_solid(
                            triangles@,
                            triangles@.len() as int,
                            nx as int,
                            ny as int,
                            nz as int,
                            dx as int,
                            dy as int,
                            dz as int,
                            samples_per_axis as int,
                            thickness as int,
                            a,
                            b,
                            e,
                        );
                    lemma_lin_bounds(nx as int, ny as int, nz as int, a, b, e);
                    assert(raw[lin_at(nx as int, ny as int, a, b, e)]);
                }
            }
        }
        let g = Geometry { nx, ny, nz, solid, boundary };
        proof {
            assert forall|j2: int, k2: int| 0 <= j2 < ny && 0 <= k2 < nz implies !g.solid_at(
                0,
                j2,
                k2,
            ) && !g.solid_at(nx - 1, j2, k2) by {
                lemma_lin_bounds(nx as int, ny as int, nz as int, 0, j2, k2);
                lemma_lin_bounds(nx as int, ny as int, nz as int, nx - 1, j2, k2);
            }
        }
        Ok(g)
    }
}

} // verus!
