//! The D3Q27 lattice model: discrete velocity set, weights, opposite map,
//! equilibrium distribution, macroscopic moments and BGK relaxation, all in
//! fixed-point arithmetic (see [`crate::fixed`]).
//!
//! A weight is stored as its numerator over the common denominator 216, so
//! the 27 weights sum to one exactly.  The equilibrium value of direction
//! `i` at density `rho` and velocity `u` (all in `SCALE` units) is the
//! floor of `eq_num(i, rho, u) / EQ_DEN`, saturated into the distribution
//! band; `eq_num` is an exact integer rendering of
//! `w_i * rho * (1 + 3 c_i.u + 9/2 (c_i.u)^2 - 3/2 u.u)`.

use vstd::prelude::*;

use crate::fixed::{
    div_floor, lemma_div_in_range, lemma_mul_bound, sat, sat_i128, F_LIMIT, RHO_LIMIT, SCALE,
    V_LIMIT,
};

verus! {

/// The classification tag a node carries through the pipeline.
#[derive(Clone, Copy, Debug, PartialEq, Eq, Structural)]
pub enum NodeType {
    Fluid,
    Solid,
    Inlet,
    Outlet,
}

/// The discrete velocity vector of direction `i`: the rest direction, then
/// the six face neighbors, twelve edge neighbors and eight corner neighbors.
pub open spec fn dir_at(i: int) -> (int, int, int) {
    if i == 0 {
        (0, 0, 0)
    } else if i == 1 {
        (1, 0, 0)
    } else if i == 2 {
        (-1, 0, 0)
    } else if i == 3 {
        (0, 1, 0)
    } else if i == 4 {
        (0, -1, 0)
    } else if i == 5 {
        (0, 0, 1)
    } else if i == 6 {
        (0, 0, -1)
    } else if i == 7 {
        (1, 1, 0)
    } else if i == 8 {
        (1, -1, 0)
    } else if i == 9 {
        (-1, 1, 0)
    } else if i == 10 {
        (-1, -1, 0)
    } else if i == 11 {
        (1, 0, 1)
    } else if i == 12 {
        (1, 0, -1)
    } else if i == 13 {
        (-1, 0, 1)
    } else if i == 14 {
        (-1, 0, -1)
    } else if i == 15 {
        (0, 1, 1)
    } else if i == 16 {
        (0, 1, -1)
    } else if i == 17 {
        (0, -1, 1)
    } else if i == 18 {
        (0, -1, -1)
    } else if i == 19 {
        (1, 1, 1)
    } else if i == 20 {
        (1, 1, -1)
    } else if i == 21 {
        (1, -1, 1)
    } else if i == 22 {
        (1, -1, -1)
    } else if i == 23 {
        (-1, 1, 1)
    } else if i == 24 {
        (-1, 1, -1)
    } else if i == 25 {
        (-1, -1, 1)
    } else {
        (-1, -1, -1)
    }
}

/// One component of the velocity vector of direction `i` (`a` selects the
/// axis).
pub open spec fn dir_comp(i: int, a: int) -> int {
    if a == 0 {
        dir_at(i).0
    } else if a == 1 {
        dir_at(i).1
    } else {
        dir_at(i).2
    }
}

/// The weight numerator of direction `i` over the common denominator 216:
/// 64 for rest, 16 per face, 4 per edge, 1 per corner.
pub open spec fn weight_at(i: int) -> int {
    if i == 0 {
        64
    } else if i <= 6 {
        16
    } else if i <= 18 {
        4
    } else {
        1
    }
}

/// The index of the direction whose velocity vector is the negation of
/// direction `i`'s.
pub open spec fn opp_at(i: int) -> int {
    if i == 0 {
        0
    } else if i == 1 {
        2
    } else if i == 2 {
        1
    } else if i == 3 {
        4
    } else if i == 4 {
        3
    } else if i == 5 {
        6
    } else if i == 6 {
        5
    } else if i == 7 {
        10
    } else if i == 8 {
        9
    } else if i == 9 {
        8
    } else if i == 10 {
        7
    } else if i == 11 {
        14
    } else if i == 12 {
        13
    } else if i == 13 {
        12
    } else if i == 14 {
        11
    } else if i == 15 {
        18
    } else if i == 16 {
        17
    } else if i == 17 {
        16
    } else if i == 18 {
        15
    } else if i == 19 {
        26
    } else if i == 20 {
        25
    } else if i == 21 {
        24
    } else if i == 22 {
        23
    } else if i == 23 {
        22
    } else if i == 24 {
        21
    } else if i == 25 {
        20
    } else {
        19
    }
}

/// Every velocity component lies in `{-1, 0, 1}` and every weight numerator
/// in `[1, 64]`.
pub proof fn lemma_dir_bounds(i: int)
    requires
        0 <= i < 27,
    ensures
        -1 <= dir_at(i).0 <= 1,
        -1 <= dir_at(i).1 <= 1,
        -1 <= dir_at(i).2 <= 1,
        1 <= weight_at(i) <= 64,
{
}

/// The opposite map is an involution on `[0, 27)` and lands on the
/// geometrically opposite velocity vector.
pub proof fn lemma_opposite(i: int)
    requires
        0 <= i < 27,
    ensures
        0 <= opp_at(i) < 27,
        opp_at(opp_at(i)) == i,
        dir_at(opp_at(i)).0 == -dir_at(i).0,
        dir_at(opp_at(i)).1 == -dir_at(i).1,
        dir_at(opp_at(i)).2 == -dir_at(i).2,
        weight_at(opp_at(i)) == weight_at(i),
{
}

/// The D3Q27 stencil: 27 discrete velocities with their weights and the
/// opposite-direction permutation.
pub struct D3Q27;

impl D3Q27 {
    /// Number of discrete velocities.
    pub const Q: usize = 27;

    /// Common denominator of the direction weights.
    pub const WEIGHT_DEN: i64 = 216;

    /// The discrete velocity vector of direction `i`.
    pub fn velocity(i: usize) -> (c: (i32, i32, i32))
        requires
            i < 27,
        ensures
            c.0 as int == dir_at(i as int).0,
            c.1 as int == dir_at(i as int).1,
            c.2 as int == dir_at(i as int).2,
    {
        match i {
            0 => (0, 0, 0),
            1 => (1, 0, 0),
            2 => (-1, 0, 0),
            3 => (0, 1, 0),
            4 => (0, -1, 0),
            5 => (0, 0, 1),
            6 => (0, 0, -1),
            7 => (1, 1, 0),
            8 => (1, -1, 0),
            9 => (-1, 1, 0),
            10 => (-1, -1, 0),
            11 => (1, 0, 1),
            12 => (1, 0, -1),
            13 => (-1, 0, 1),
            14 => (-1, 0, -1),
            15 => (0, 1, 1),
            16 => (0, 1, -1),
            17 => (0, -1, 1),
            18 => (0, -1, -1),
            19 => (1, 1, 1),
            20 => (1, 1, -1),
            21 => (1, -1, 1),
            22 => (1, -1, -1),
            23 => (-1, 1, 1),
            24 => (-1, 1, -1),
            25 => (-1, -1, 1),
            _ => (-1, -1, -1),
        }
    }

    /// The weight numerator of direction `i` over [`D3Q27::WEIGHT_DEN`].
    pub fn weight_numerator(i: usize) -> (w: i64)
        requires
            i < 27,
        ensures
            w as int == weight_at(i as int),
    {
        if i == 0 {
            64
        } else if i <= 6 {
            16
        } else if i <= 18 {
            4
        } else {
            1
        }
    }

    /// The index of the geometrically opposite direction.
    pub fn opposite(i: usize) -> (o: usize)
        requires
            i < 27,
        ensures
            o as int == opp_at(i as int),
            o < 27,
    {
        match i {
            0 => 0,
            1 => 2,
            2 => 1,
            3 => 4,
            4 => 3,
            5 => 6,
            6 => 5,
            7 => 10,
            8 => 9,
            9 => 8,
            10 => 7,
            11 => 14,
            12 => 13,
            13 => 12,
            14 => 11,
            15 => 18,
            16 => 17,
            17 => 16,
            18 => 15,
            19 => 26,
            20 => 25,
            21 => 24,
            22 => 23,
            23 => 22,
            24 => 21,
            25 => 20,
            _ => 19,
        }
    }
}

/// Sum of the first `n` distribution values.
pub open spec fn sum_f(f: Seq<i64>, n: int) -> int
    decreases n,
{
    if n <= 0 {
        0
    } else {
        sum_f(f, n - 1) + f[n - 1]
    }
}

/// First moment of the first `n` distribution values along axis `a`.
pub open spec fn mom_f(f: Seq<i64>, a: int, n: int) -> int
    decreases n,
{
    if n <= 0 {
        0
    } else {
        mom_f(f, a, n - 1) + f[n - 1] * dir_comp(n - 1, a)
    }
}

/// Dot product of direction `i`'s velocity vector with `u`.
pub open spec fn cu_at(i: int, ux: int, uy: int, uz: int) -> int {
    dir_at(i).0 * ux + dir_at(i).1 * uy + dir_at(i).2 * uz
}

/// Denominator of the equilibrium quotient: `432 * SCALE * SCALE`, so that
/// `eq_num / EQ_DEN` carries the equilibrium value in `SCALE` units.
pub const EQ_DEN: i64 = 432 * 65536 * 65536;

/// The bracket of the equilibrium formula, cleared of denominators:
/// `216 * 2 * SCALE^2 * (1 + 3 c.u + 9/2 (c.u)^2 - 3/2 u.u) / (216 * 2)`
/// with `c.u` and `u.u` in `SCALE` units.
pub open spec fn eq_poly(i: int, ux: int, uy: int, uz: int) -> int {
    2 * (SCALE * SCALE) + 6 * (cu_at(i, ux, uy, uz) * SCALE) + 9 * (cu_at(i, ux, uy, uz) * cu_at(
        i,
        ux,
        uy,
        uz,
    )) - 3 * (ux * ux + uy * uy + uz * uz)
}

/// Exact numerator of the equilibrium value of direction `i` at density
/// `rho` and velocity `u`, over the denominator [`EQ_DEN`].
pub open spec fn eq_num(i: int, rho: int, ux: int, uy: int, uz: int) -> int {
    rho * (weight_at(i) * eq_poly(i, ux, uy, uz))
}

/// The stored equilibrium value: the floored quotient, saturated into the
/// distribution band.
pub open spec fn feq_at(i: int, rho: int, ux: int, uy: int, uz: int) -> int {
    sat(eq_num(i, rho, ux, uy, uz) / (EQ_DEN as int), F_LIMIT as int)
}

/// The stored result of BGK relaxation of value `fv` in direction `i`
/// toward the equilibrium of `(rho, u)` with relaxation time `tau`:
/// `fv + (feq - fv) / tau` with the quotient floored at `SCALE` units.
pub open spec fn relaxed_at(fv: int, i: int, rho: int, ux: int, uy: int, uz: int, tau: int) -> int {
    sat(fv + (feq_at(i, rho, ux, uy, uz) - fv) * SCALE / tau, F_LIMIT as int)
}

/// Magnitude bound on [`eq_poly`] under the velocity band.
proof fn lemma_eq_poly_bound(i: int, ux: int, uy: int, uz: int)
    requires
        0 <= i < 27,
        -V_LIMIT <= ux <= V_LIMIT,
        -V_LIMIT <= uy <= V_LIMIT,
        -V_LIMIT <= uz <= V_LIMIT,
    ensures
        -0x10000000000000 <= eq_poly(i, ux, uy, uz) <= 0x10000000000000,
        -(3 * V_LIMIT) <= cu_at(i, ux, uy, uz) <= 3 * V_LIMIT,
{
    lemma_dir_bounds(i);
    lemma_mul_bound(dir_at(i).0, ux, 1, V_LIMIT as int);
    lemma_mul_bound(dir_at(i).1, uy, 1, V_LIMIT as int);
    lemma_mul_bound(dir_at(i).2, uz, 1, V_LIMIT as int);
    let c = cu_at(i, ux, uy, uz);
    lemma_mul_bound(c, SCALE as int, 3 * V_LIMIT, SCALE as int);
    lemma_mul_bound(c, c, 3 * V_LIMIT, 3 * V_LIMIT);
    assert(-(3 * V_LIMIT) <= c <= 3 * V_LIMIT);
    lemma_mul_bound(ux, ux, V_LIMIT as int, V_LIMIT as int);
    lemma_mul_bound(uy, uy, V_LIMIT as int, V_LIMIT as int);
    lemma_mul_bound(uz, uz, V_LIMIT as int, V_LIMIT as int);
}

/// The equilibrium distribution value of one direction, in `SCALE` units.
pub(crate) fn equilibrium_distribution_value(direction: usize, density: i64, velocity: [i64; 3]) -> (r: i64)
    requires
        direction < 27,
        -RHO_LIMIT <= density <= RHO_LIMIT,
        forall|a: int| 0 <= a < 3 ==> -V_LIMIT <= #[trigger] velocity@[a] <= V_LIMIT,
    ensures
        r as int == feq_at(
            direction as int,
            density as int,
            velocity@[0] as int,
            velocity@[1] as int,
            velocity@[2] as int,
        ),
        -F_LIMIT <= r <= F_LIMIT,
{
    let (cx, cy, cz) = D3Q27::velocity(direction);
    let w = D3Q27::weight_numerator(direction);
    let vx = velocity[0];
    let vy = velocity[1];
    let vz = velocity[2];
    let ghost gi = direction as int;
    proof {
        lemma_dir_bounds(gi);
        lemma_mul_bound(cx as int, vx as int, 1, V_LIMIT as int);
        lemma_mul_bound(cy as int, vy as int, 1, V_LIMIT as int);
        lemma_mul_bound(cz as int, vz as int, 1, V_LIMIT as int);
        lemma_mul_bound(vx as int, vx as int, V_LIMIT as int, V_LIMIT as int);
        lemma_mul_bound(vy as int, vy as int, V_LIMIT as int, V_LIMIT as int);
        lemma_mul_bound(vz as int, vz as int, V_LIMIT as int, V_LIMIT as int);
    }
    let cu: i64 = (cx as i64) * vx + (cy as i64) * vy + (cz as i64) * vz;
    let uu: i64 = vx * vx + vy * vy + vz * vz;
    assert(cu as int == cu_at(gi, vx as int, vy as int, vz as int));
    let cw: i128 = cu as i128;
    let s: i128 = SCALE as i128;
    proof {
        lemma_mul_bound(cu as int, SCALE as int, 3 * V_LIMIT, SCALE as int);
        lemma_mul_bound(cu as int, cu as int, 3 * V_LIMIT, 3 * V_LIMIT);
    }
    let poly: i128 = 2 * (s * s) + 6 * (cw * s) + 9 * (cw * cw) - 3 * (uu as i128);
    assert(poly as int == eq_poly(gi, vx as int, vy as int, vz as int));
    proof {
        lemma_eq_poly_bound(gi, vx as int, vy as int, vz as int);
        lemma_mul_bound(w as int, density as int, 64, RHO_LIMIT as int);
        lemma_mul_bound(w as int * density as int, poly as int, 64 * RHO_LIMIT,
            0x10000000000000);
    }
    let num: i128 = (w as i128) * (density as i128) * poly;
    assert(num as int == eq_num(gi, density as int, vx as int, vy as int, vz as int)) by {
        assert((w as int * density as int) * poly as int == density as int * (w as int
            * poly as int)) by (nonlinear_arith);
    }
    let q: i128 = div_floor(num, EQ_DEN as i128);
    proof {
        lemma_div_in_range(
            num as int,
            EQ_DEN as int,
            -0x4000_0000_0000_0000_0000_0000_0000,
            0x4000_0000_0000_0000_0000_0000_0000,
        );
    }
    sat_i128(q, F_LIMIT)
}

/// The stored macroscopic velocity component `a` recovered from a full
/// distribution vector: the density-weighted first moment, floored at
/// `SCALE` units and saturated into the velocity band; zero when the
/// density is not positive.
pub open spec fn vel_from(f: Seq<i64>, a: int) -> int {
    if sum_f(f, 27) > 0 {
        sat((mom_f(f, a, 27) * SCALE) / sum_f(f, 27), V_LIMIT as int)
    } else {
        0
    }
}

/// One grid cell: 27 distribution values, cached macroscopic density and
/// velocity, and the classification tag.  All quantities in `SCALE` units.
pub struct LatticePoint {
    /// Distribution values, one per discrete direction.
    pub f: Vec<i64>,
    /// Cached macroscopic density.
    pub density: i64,
    /// Cached macroscopic velocity.
    pub velocity: [i64; 3],
    /// Classification tag.
    pub node_type: NodeType,
}

impl LatticePoint {
    /// The equilibrium distribution value of one direction, in `SCALE`
    /// units.
    pub fn equilibrium_distribution(direction: usize, density: i64, velocity: [i64; 3]) -> (r:
        i64)
        requires
            direction < 27,
            -RHO_LIMIT <= density <= RHO_LIMIT,
            forall|a: int| 0 <= a < 3 ==> -V_LIMIT <= #[trigger] velocity@[a] <= V_LIMIT,
        ensures
            r as int == feq_at(
                direction as int,
                density as int,
                velocity@[0] as int,
                velocity@[1] as int,
                velocity@[2] as int,
            ),
            -F_LIMIT <= r <= F_LIMIT,
    {
        equilibrium_distribution_value(direction, density, velocity)
    }

    /// Structural invariant: 27 distribution values, all quantities inside
    /// their representable bands.
    pub open spec fn wf(self) -> bool {
        &&& self.f.len() == 27
        &&& forall|i: int| 0 <= i < 27 ==> -F_LIMIT <= #[trigger] self.f@[i] <= F_LIMIT
        &&& -RHO_LIMIT <= self.density <= RHO_LIMIT
        &&& forall|a: int| 0 <= a < 3 ==> -V_LIMIT <= #[trigger] self.velocity@[a] <= V_LIMIT
    }

    /// A node whose distributions are the equilibrium of the given density
    /// and velocity, with those values cached.
    pub fn new_equilibrium(density: i64, velocity: [i64; 3], node_type: NodeType) -> (p:
        LatticePoint)
        requires
            -RHO_LIMIT <= density <= RHO_LIMIT,
            forall|a: int| 0 <= a < 3 ==> -V_LIMIT <= #[trigger] velocity@[a] <= V_LIMIT,
        ensures
            p.wf(),
            p.density == density,
            p.velocity == velocity,
            p.node_type == node_type,
            forall|i: int|
                0 <= i < 27 ==> p.f@[i] as int == feq_at(
                    i,
                    density as int,
                    velocity@[0] as int,
                    velocity@[1] as int,
                    velocity@[2] as int,
                ),
    {
        let mut f: Vec<i64> = Vec::new();
        let mut i: usize = 0;
        while i < 27
            invariant
                i <= 27,
                f.len() == i,
                -RHO_LIMIT <= density <= RHO_LIMIT,
                forall|a: int| 0 <= a < 3 ==> -V_LIMIT <= #[trigger] velocity@[a] <= V_LIMIT,
                forall|j: int|
                    0 <= j < i ==> f@[j] as int == feq_at(
                        j,
                        density as int,
                        velocity@[0] as int,
                        velocity@[1] as int,
                        velocity@[2] as int,
                    ),
                forall|j: int| 0 <= j < i ==> -F_LIMIT <= #[trigger] f@[j] <= F_LIMIT,
            decreases 27 - i,
        {
            let v = equilibrium_distribution_value(i, density, velocity);
            f.push(v);
            i = i + 1;
        }
        LatticePoint { f, density, velocity, node_type }
    }

    /// Recompute the cached density and velocity from the distribution
    /// values: the density is their exact sum, the velocity the
    /// density-weighted first moment (zero for a non-positive density).
    pub fn calculate_macroscopic(&mut self)
        requires
            old(self).wf(),
        ensures
            final(self).wf(),
            final(self).f@ == old(self).f@,
            final(self).node_type == old(self).node_type,
            final(self).density as int == sum_f(old(self).f@, 27),
            forall|a: int| 0 <= a < 3 ==> #[trigger] final(self).velocity@[a] as int == vel_from(
                old(self).f@,
                a,
            ),
    {
        let mut rho: i64 = 0;
        let mut mx: i64 = 0;
        let mut my: i64 = 0;
        let mut mz: i64 = 0;
        let mut i: usize = 0;
        while i < 27
            invariant
                i <= 27,
                *self == *old(self),
                old(self).wf(),
                rho as int == sum_f(self.f@, i as int),
                mx as int == mom_f(self.f@, 0, i as int),
                my as int == mom_f(self.f@, 1, i as int),
                mz as int == mom_f(self.f@, 2, i as int),
                -(i as int) * F_LIMIT <= rho as int <= (i as int) * F_LIMIT,
                -(i as int) * F_LIMIT <= mx as int <= (i as int) * F_LIMIT,
                -(i as int) * F_LIMIT <= my as int <= (i as int) * F_LIMIT,
                -(i as int) * F_LIMIT <= mz as int <= (i as int) * F_LIMIT,
            decreases 27 - i,
        {
            let fv = self.f[i];
            let (cx, cy, cz) = D3Q27::velocity(i);
            proof {
                lemma_dir_bounds(i as int);
                lemma_mul_bound(fv as int, cx as int, F_LIMIT as int, 1);
                lemma_mul_bound(fv as int, cy as int, F_LIMIT as int, 1);
                lemma_mul_bound(fv as int, cz as int, F_LIMIT as int, 1);
            }
            rho = rho + fv;
            mx = mx + fv * (cx as i64);
            my = my + fv * (cy as i64);
            mz = mz + fv * (cz as i64);
            i = i + 1;
        }
        self.density = rho;
        if rho > 0 {
            proof {
                lemma_mul_bound(mx as int, SCALE as int, RHO_LIMIT as int, SCALE as int);
                lemma_mul_bound(my as int, SCALE as int, RHO_LIMIT as int, SCALE as int);
                lemma_mul_bound(mz as int, SCALE as int, RHO_LIMIT as int, SCALE as int);
            }
            let qx = div_floor((mx as i128) * (SCALE as i128), rho as i128);
            let qy = div_floor((my as i128) * (SCALE as i128), rho as i128);
            let qz = div_floor((mz as i128) * (SCALE as i128), rho as i128);
            let vx = sat_i128(qx, V_LIMIT);
            let vy = sat_i128(qy, V_LIMIT);
            let vz = sat_i128(qz, V_LIMIT);
            self.velocity = [vx, vy, vz];
        } else {
            self.velocity = [0, 0, 0];
        }
    }

    /// BGK relaxation toward the equilibrium of the cached density and
    /// velocity, each direction independently.
    pub fn collide(&mut self, tau: i64)
        requires
            old(self).wf(),
            tau >= 1,
        ensures
            final(self).wf(),
            final(self).density == old(self).density,
            final(self).velocity == old(self).velocity,
            final(self).node_type == old(self).node_type,
            final(self).f@.len() == 27,
            forall|i: int|
                0 <= i < 27 ==> final(self).f@[i] as int == relaxed_at(
                    old(self).f@[i] as int,
                    i,
                    old(self).density as int,
                    old(self).velocity@[0] as int,
                    old(self).velocity@[1] as int,
                    old(self).velocity@[2] as int,
                    tau as int,
                ),
    {
        let mut nf: Vec<i64> = Vec::new();
        let mut i: usize = 0;
        while i < 27
            invariant
                i <= 27,
                *self == *old(self),
                old(self).wf(),
                tau >= 1,
                nf.len() == i,
                forall|j: int|
                    0 <= j < i ==> nf@[j] as int == relaxed_at(
                        self.f@[j] as int,
                        j,
                        self.density as int,
                        self.velocity@[0] as int,
                        self.velocity@[1] as int,
                        self.velocity@[2] as int,
                        tau as int,
                    ),
                forall|j: int| 0 <= j < i ==> -F_LIMIT <= #[trigger] nf@[j] <= F_LIMIT,
            decreases 27 - i,
        {
            let fe = equilibrium_distribution_value(i, self.density, self.velocity);
            let fv = self.f[i];
            proof {
                lemma_mul_bound((fe - fv) as int, SCALE as int, 2 * F_LIMIT, SCALE as int);
            }
            let dnum: i128 = ((fe - fv) as i128) * (SCALE as i128);
            let d = div_floor(dnum, tau as i128);
            proof {
                lemma_div_in_range(
                    dnum as int,
                    tau as int,
                    -(2 * F_LIMIT) * (SCALE as int),
                    (2 * F_LIMIT) * (SCALE as int),
                );
            }
            let val: i128 = (fv as i128) + d;
            let r = sat_i128(val, F_LIMIT);
            nf.push(r);
            i = i + 1;
        }
        self.f = nf;
    }
}

impl Default for LatticePoint {
    /// A rest node: zero distributions, unit density, zero velocity,
    /// tagged Fluid.
    fn default() -> (p: LatticePoint)
        ensures
            p.wf(),
            p.f@.len() == 27,
            forall|i: int| 0 <= i < 27 ==> #[trigger] p.f@[i] == 0i64,
            p.density == SCALE,
            p.velocity@[0] == 0i64 && p.velocity@[1] == 0i64 && p.velocity@[2] == 0i64,
            p.node_type == NodeType::Fluid,
    {
        let mut f: Vec<i64> = Vec::new();
        let mut i: usize = 0;
        while i < 27
            invariant
                i <= 27,
                f.len() == i,
                forall|j: int| 0 <= j < i ==> #[trigger] f@[j] == 0i64,
            decreases 27 - i,
        {
            f.push(0);
            i = i + 1;
        }
        LatticePoint { f, density: SCALE, velocity: [0, 0, 0], node_type: NodeType::Fluid }
    }
}

/// Sum of `weight * eq_poly` over the first `n` directions.
pub open spec fn sum_wp(ux: int, uy: int, uz: int, n: int) -> int
    decreases n,
{
    if n <= 0 {
        0
    } else {
        sum_wp(ux, uy, uz, n - 1) + weight_at(n - 1) * eq_poly(n - 1, ux, uy, uz)
    }
}

/// Sum of the exact equilibrium numerators over the first `n` directions.
pub open spec fn sum_eqn(rho: int, ux: int, uy: int, uz: int, n: int) -> int
    decreases n,
{
    if n <= 0 {
        0
    } else {
        sum_eqn(rho, ux, uy, uz, n - 1) + eq_num(n - 1, rho, ux, uy, uz)
    }
}

/// Sum of the stored equilibrium values over the first `n` directions.
pub open spec fn sum_feq(rho: int, ux: int, uy: int, uz: int, n: int) -> int
    decreases n,
{
    if n <= 0 {
        0
    } else {
        sum_feq(rho, ux, uy, uz, n - 1) + feq_at(n - 1, rho, ux, uy, uz)
    }
}

/// Sum of the stored relaxed values over the first `n` directions.
pub open spec fn sum_relaxed(f: Seq<i64>, rho: int, ux: int, uy: int, uz: int, tau: int, n: int) -> int
    decreases n,
{
    if n <= 0 {
        0
    } else {
        sum_relaxed(f, rho, ux, uy, uz, tau, n - 1) + relaxed_at(
            f[n - 1] as int,
            n - 1,
            rho,
            ux,
            uy,
            uz,
            tau,
        )
    }
}

/// A vector whose entries are the relaxed values of `f` sums to the sum
/// of those relaxed values: this carries [`lemma_collision_mass`] over to
/// the distribution vector that [`LatticePoint::collide`] produces.
pub proof fn lemma_sum_f_relaxed(
    g: Seq<i64>,
    f: Seq<i64>,
    rho: int,
    ux: int,
    uy: int,
    uz: int,
    tau: int,
    n: int,
)
    requires
        forall|i: int|
            0 <= i < n ==> #[trigger] g[i] as int == relaxed_at(
                f[i] as int,
                i,
                rho,
                ux,
                uy,
                uz,
                tau,
            ),
    ensures
        sum_f(g, n) == sum_relaxed(f, rho, ux, uy, uz, tau, n),
    decreases n,
{
    if n > 0 {
        lemma_sum_f_relaxed(g, f, rho, ux, uy, uz, tau, n - 1);
    }
}

/// The weighted bracket sums over all 27 directions collapse to the
/// constant denominator: the velocity terms cancel exactly.
#[verifier::rlimit(60)]
proof fn lemma_sum_wp_closed(ux: int, uy: int, uz: int)
    ensures
        sum_wp(ux, uy, uz, 27) == EQ_DEN,
{
    reveal_with_fuel(sum_wp, 28);
    let sc: int = SCALE as int;
    assert(sc * sc == 0x1_0000_0000) by (nonlinear_arith)
        requires
            sc == 65536,
    ;
    let xs: int = ux * sc;
    let ys: int = uy * sc;
    let zs: int = uz * sc;
    let xx: int = ux * ux;
    let yy: int = uy * uy;
    let zz: int = uz * uz;
    let xy: int = ux * uy;
    let xz: int = ux * uz;
    let yz: int = uy * uz;
    let c0: int = cu_at(0, ux, uy, uz);
    assert(c0 == 0);
    assert(c0 * sc == 0 && c0 * c0 == 0) by (nonlinear_arith)
        requires
            c0 == 0,
    ;
    let c1: int = cu_at(1, ux, uy, uz);
    assert(c1 == ux);
    assert(c1 * sc == xs && c1 * c1 == xx) by (nonlinear_arith)
        requires
            c1 == ux,
            xs == ux * sc,
            xx == ux * ux,
    ;
    let c2: int = cu_at(2, ux, uy, uz);
    assert(c2 == -ux);
    assert(c2 * sc == -xs && c2 * c2 == xx) by (nonlinear_arith)
        requires
            c2 == -ux,
            xs == ux * sc,
            xx == ux * ux,
    ;
    let c3: int = cu_at(3, ux, uy, uz);
    assert(c3 == uy);
    assert(c3 * sc == ys && c3 * c3 == yy) by (nonlinear_arith)
        requires
            c3 == uy,
            ys == uy * sc,
            yy == uy * uy,
    ;
    let c4: int = cu_at(4, ux, uy, uz);
    assert(c4 == -uy);
    assert(c4 * sc == -ys && c4 * c4 == yy) by (nonlinear_arith)
        requires
            c4 == -uy,
            ys == uy * sc,
            yy == uy * uy,
    ;
    let c5: int = cu_at(5, ux, uy, uz);
    assert(c5 == uz);
    assert(c5 * sc == zs && c5 * c5 == zz) by (nonlinear_arith)
        requires
            c5 == uz,
            zs == uz * sc,
            zz == uz * uz,
    ;
    let c6: int = cu_at(6, ux, uy, uz);
    assert(c6 == -uz);
    assert(c6 * sc == -zs && c6 * c6 == zz) by (nonlinear_arith)
        requires
            c6 == -uz,
            zs == uz * sc,
            zz == uz * uz,
    ;
    let c7: int = cu_at(7, ux, uy, uz);
    assert(c7 == ux + uy);
    assert(c7 * sc == xs + ys && c7 * c7 == xx + yy + 2 * xy) by (nonlinear_arith)
        requires
            c7 == ux + uy,
            xs == ux * sc,
            xx == ux * ux,
            xy == ux * uy,
            ys == uy * sc,
            yy == uy * uy,
    ;
    let c8: int = cu_at(8, ux, uy, uz);
    assert(c8 == ux - uy);
    assert(c8 * sc == xs - ys && c8 * c8 == xx + yy - 2 * xy) by (nonlinear_arith)
        requires
            c8 == ux - uy,
            xs == ux * sc,
            xx == ux * ux,
            xy == ux * uy,
            ys == uy * sc,
            yy == uy * uy,
    ;
    let c9: int = cu_at(9, ux, uy, uz);
    assert(c9 == -ux + uy);
    assert(c9 * sc == -xs + ys && c9 * c9 == xx + yy - 2 * xy) by (nonlinear_arith)
        requires
            c9 == -ux + uy,
            xs == ux * sc,
            xx == ux * ux,
            xy == ux * uy,
            ys == uy * sc,
            yy == uy * uy,
    ;
    let c10: int = cu_at(10, ux, uy, uz);
    assert(c10 == -ux - uy);
    assert(c10 * sc == -xs - ys && c10 * c10 == xx + yy + 2 * xy) by (nonlinear_arith)
        requires
            c10 == -ux - uy,
            xs == ux * sc,
            xx == ux * ux,
            xy == ux * uy,
            ys == uy * sc,
            yy == uy * uy,
    ;
    let c11: int = cu_at(11, ux, uy, uz);
    assert(c11 == ux + uz);
    assert(c11 * sc == xs + zs && c11 * c11 == xx + zz + 2 * xz) by (nonlinear_arith)
        requires
            c11 == ux + uz,
            xs == ux * sc,
            xx == ux * ux,
            xz == ux * uz,
            zs == uz * sc,
            zz == uz * uz,
    ;
    let c12: int = cu_at(12, ux, uy, uz);
    assert(c12 == ux - uz);
    assert(c12 * sc == xs - zs && c12 * c12 == xx + zz - 2 * xz) by (nonlinear_arith)
        requires
            c12 == ux - uz,
            xs == ux * sc,
            xx == ux * ux,
            xz == ux * uz,
            zs == uz * sc,
            zz == uz * uz,
    ;
    let c13: int = cu_at(13, ux, uy, uz);
    assert(c13 == -ux + uz);
    assert(c13 * sc == -xs + zs && c13 * c13 == xx + zz - 2 * xz) by (nonlinear_arith)
        requires
            c13 == -ux + uz,
            xs == ux * sc,
            xx == ux * ux,
            xz == ux * uz,
            zs == uz * sc,
            zz == uz * uz,
    ;
    let c14: int = cu_at(14, ux, uy, uz);
    assert(c14 == -ux - uz);
    assert(c14 * sc == -xs - zs && c14 * c14 == xx + zz + 2 * xz) by (nonlinear_arith)
        requires
            c14 == -ux - uz,
            xs == ux * sc,
            xx == ux * ux,
            xz == ux * uz,
            zs == uz * sc,
            zz == uz * uz,
    ;
    let c15: int = cu_at(15, ux, uy, uz);
    assert(c15 == uy + uz);
    assert(c15 * sc == ys + zs && c15 * c15 == yy + zz + 2 * yz) by (nonlinear_arith)
        requires
            c15 == uy + uz,
            ys == uy * sc,
            yy == uy * uy,
            yz == uy * uz,
            zs == uz * sc,
            zz == uz * uz,
    ;
    let c16: int = cu_at(16, ux, uy, uz);
    assert(c16 == uy - uz);
    assert(c16 * sc == ys - zs && c16 * c16 == yy + zz - 2 * yz) by (nonlinear_arith)
        requires
            c16 == uy - uz,
            ys == uy * sc,
            yy == uy * uy,
            yz == uy * uz,
            zs == uz * sc,
            zz == uz * uz,
    ;
    let c17: int = cu_at(17, ux, uy, uz);
    assert(c17 == -uy + uz);
    assert(c17 * sc == -ys + zs && c17 * c17 == yy + zz - 2 * yz) by (nonlinear_arith)
        requires
            c17 == -uy + uz,
            ys == uy * sc,
            yy == uy * uy,
            yz == uy * uz,
            zs == uz * sc,
            zz == uz * uz,
    ;
    let c18: int = cu_at(18, ux, uy, uz);
    assert(c18 == -uy - uz);
    assert(c18 * sc == -ys - zs && c18 * c18 == yy + zz + 2 * yz) by (nonlinear_arith)
        requires
            c18 == -uy - uz,
            ys == uy * sc,
            yy == uy * uy,
            yz == uy * uz,
            zs == uz * sc,
            zz == uz * uz,
    ;
    let c19: int = cu_at(19, ux, uy, uz);
    assert(c19 == ux + uy + uz);
    assert(c19 * sc == xs + ys + zs && c19 * c19 == xx + yy + zz + 2 * xy + 2 * xz + 2 * yz) by (nonlinear_arith)
        requires
            c19 == ux + uy + uz,
            xs == ux * sc,
            xx == ux * ux,
            xy == ux * uy,
            xz == ux * uz,
            ys == uy * sc,
            yy == uy * uy,
            yz == uy * uz,
            zs == uz * sc,
            zz == uz * uz,
    ;
    let c20: int = cu_at(20, ux, uy, uz);
    assert(c20 == ux + uy - uz);
    assert(c20 * sc == xs + ys - zs && c20 * c20 == xx + yy + zz + 2 * xy - 2 * xz - 2 * yz) by (nonlinear_arith)
        requires
            c20 == ux + uy - uz,
            xs == ux * sc,
            xx == ux * ux,
            xy == ux * uy,
            xz == ux * uz,
            ys == uy * sc,
            yy == uy * uy,
            yz == uy * uz,
            zs == uz * sc,
            zz == uz * uz,
    ;
    let c21: int = cu_at(21, ux, uy, uz);
    assert(c21 == ux - uy + uz);
    assert(c21 * sc == xs - ys + zs && c21 * c21 == xx + yy + zz - 2 * xy + 2 * xz - 2 * yz) by (nonlinear_arith)
        requires
            c21 == ux - uy + uz,
            xs == ux * sc,
            xx == ux * ux,
            xy == ux * uy,
            xz == ux * uz,
            ys == uy * sc,
            yy == uy * uy,
            yz == uy * uz,
            zs == uz * sc,
            zz == uz * uz,
    ;
    let c22: int = cu_at(22, ux, uy, uz);
    assert(c22 == ux - uy - uz);
    assert(c22 * sc == xs - ys - zs && c22 * c22 == xx + yy + zz - 2 * xy - 2 * xz + 2 * yz) by (nonlinear_arith)
        requires
            c22 == ux - uy - uz,
            xs == ux * sc,
            xx == ux * ux,
            xy == ux * uy,
            xz == ux * uz,
            ys == uy * sc,
            yy == uy * uy,
            yz == uy * uz,
            zs == uz * sc,
            zz == uz * uz,
    ;
    let c23: int = cu_at(23, ux, uy, uz);
    assert(c23 == -ux + uy + uz);
    assert(c23 * sc == -xs + ys + zs && c23 * c23 == xx + yy + zz - 2 * xy - 2 * xz + 2 * yz) by (nonlinear_arith)
        requires
            c23 == -ux + uy + uz,
            xs == ux * sc,
            xx == ux * ux,
            xy == ux * uy,
            xz == ux * uz,
            ys == uy * sc,
            yy == uy * uy,
            yz == uy * uz,
            zs == uz * sc,
            zz == uz * uz,
    ;
    let c24: int = cu_at(24, ux, uy, uz);
    assert(c24 == -ux + uy - uz);
    assert(c24 * sc == -xs + ys - zs && c24 * c24 == xx + yy + zz - 2 * xy + 2 * xz - 2 * yz) by (nonlinear_arith)
        requires
            c24 == -ux + uy - uz,
            xs == ux * sc,
            xx == ux * ux,
            xy == ux * uy,
            xz == ux * uz,
            ys == uy * sc,
            yy == uy * uy,
            yz == uy * uz,
            zs == uz * sc,
            zz == uz * uz,
    ;
    let c25: int = cu_at(25, ux, uy, uz);
    assert(c25 == -ux - uy + uz);
    assert(c25 * sc == -xs - ys + zs && c25 * c25 == xx + yy + zz + 2 * xy - 2 * xz - 2 * yz) by (nonlinear_arith)
        requires
            c25 == -ux - uy + uz,
            xs == ux * sc,
            xx == ux * ux,
            xy == ux * uy,
            xz == ux * uz,
            ys == uy * sc,
            yy == uy * uy,
            yz == uy * uz,
            zs == uz * sc,
            zz == uz * uz,
    ;
    let c26: int = cu_at(26, ux, uy, uz);
    assert(c26 == -ux - uy - uz);
    assert(c26 * sc == -xs - ys - zs && c26 * c26 == xx + yy + zz + 2 * xy + 2 * xz + 2 * yz) by (nonlinear_arith)
        requires
            c26 == -ux - uy - uz,
            xs == ux * sc,
            xx == ux * ux,
            xy == ux * uy,
            xz == ux * uz,
            ys == uy * sc,
            yy == uy * uy,
            yz == uy * uz,
            zs == uz * sc,
            zz == uz * uz,
    ;
}

/// The numerator sum factors through the density.
proof fn lemma_sum_eqn_factor(rho: int, ux: int, uy: int, uz: int, n: int)
    ensures
        sum_eqn(rho, ux, uy, uz, n) == rho * sum_wp(ux, uy, uz, n),
    decreases n,
{
    if n <= 0 {
        assert(rho * 0 == 0) by (nonlinear_arith);
    } else {
        lemma_sum_eqn_factor(rho, ux, uy, uz, n - 1);
        let a = sum_wp(ux, uy, uz, n - 1);
        let b = weight_at(n - 1) * eq_poly(n - 1, ux, uy, uz);
        assert(rho * a + rho * b == rho * (a + b)) by (nonlinear_arith);
    }
}

/// For any density and velocity, the exact equilibrium numerators of all
/// 27 directions sum to the density times the common denominator: at the
/// level of exact arithmetic the equilibrium distributions sum to the
/// density.
pub proof fn lemma_equilibrium_mass(rho: int, ux: int, uy: int, uz: int)
    ensures
        sum_eqn(rho, ux, uy, uz, 27) == rho * (EQ_DEN as int),
{
    lemma_sum_eqn_factor(rho, ux, uy, uz, 27);
    lemma_sum_wp_closed(ux, uy, uz);
}

/// Inside the practical band (density at most four, velocity components at
/// most a quarter, in lattice units) the stored equilibrium value is the
/// plain floored quotient: far from saturation.
pub proof fn lemma_feq_unsaturated(i: int, rho: int, ux: int, uy: int, uz: int)
    requires
        0 <= i < 27,
        0 <= rho <= 4 * SCALE,
        -16384 <= ux <= 16384,
        -16384 <= uy <= 16384,
        -16384 <= uz <= 16384,
    ensures
        feq_at(i, rho, ux, uy, uz) == eq_num(i, rho, ux, uy, uz) / (EQ_DEN as int),
        -851968 <= feq_at(i, rho, ux, uy, uz) <= 851968,
{
    lemma_dir_bounds(i);
    let sc = SCALE as int;
    let c = cu_at(i, ux, uy, uz);
    lemma_mul_bound(dir_at(i).0, ux, 1, 16384);
    lemma_mul_bound(dir_at(i).1, uy, 1, 16384);
    lemma_mul_bound(dir_at(i).2, uz, 1, 16384);
    lemma_mul_bound(c, sc, 49152, sc);
    lemma_mul_bound(c, c, 49152, 49152);
    lemma_mul_bound(ux, ux, 16384, 16384);
    lemma_mul_bound(uy, uy, 16384, 16384);
    lemma_mul_bound(uz, uz, 16384, 16384);
    assert(sc * sc == 0x1_0000_0000) by (nonlinear_arith)
        requires
            sc == 65536,
    ;
    let p = eq_poly(i, ux, uy, uz);
    assert(-53_000_000_000 <= p <= 53_000_000_000);
    lemma_mul_bound(weight_at(i), p, 64, 53_000_000_000);
    lemma_mul_bound(rho, weight_at(i) * p, 4 * SCALE as int, 3_392_000_000_000int);
    let nm = eq_num(i, rho, ux, uy, uz);
    assert(-890_000_000_000_000_000 <= nm <= 890_000_000_000_000_000);
    assert(851968 * (EQ_DEN as int) >= 890_000_000_000_000_000);
    crate::fixed::lemma_div_magnitude(nm, EQ_DEN as int, 851968);
}

/// Stored equilibrium values of all 27 directions sum to the density up to
/// the flooring of each quotient: the sum lies in `(rho - 27, rho]`.
/// Stated inside the practical band where no value saturates.
pub proof fn lemma_equilibrium_sum_stored(rho: int, ux: int, uy: int, uz: int)
    requires
        0 <= rho <= 4 * SCALE,
        -16384 <= ux <= 16384,
        -16384 <= uy <= 16384,
        -16384 <= uz <= 16384,
    ensures
        rho - 27 < sum_feq(rho, ux, uy, uz, 27) <= rho,
{
    let d = EQ_DEN as int;
    lemma_equilibrium_mass(rho, ux, uy, uz);
    lemma_feq_sum_shape(rho, ux, uy, uz, 27);
    // d * sum_feq <= sum_eqn == rho * d < d * sum_feq + 27 * d
    assert(rho * d == d * rho) by (nonlinear_arith);
    let s = sum_feq(rho, ux, uy, uz, 27);
    assert(d * s <= d * rho);
    assert(d * rho < d * s + 27 * d);
    assert(s <= rho) by (nonlinear_arith)
        requires
            d > 0,
            d * s <= d * rho,
    ;
    assert(rho - 27 < s) by (nonlinear_arith)
        requires
            d > 0,
            d * rho < d * s + 27 * d,
    ;
}

/// One product vanishing: anything times zero is zero.
pub(crate) proof fn lemma_mul_of_zero(a: int, b: int)
    by (nonlinear_arith)
    requires
        a == 0 || b == 0,
    ensures
        a * b == 0,
{
}

/// Arithmetic core of one step of [`lemma_feq_sum_shape`].
proof fn lemma_step_combine(dd: int, sp: int, st: int, ep: int, et: int, q: int, r: int, nm: int, n: int)
    by (nonlinear_arith)
    requires
        st == sp + q,
        et == ep + nm,
        nm == dd * q + r,
        0 <= r < dd,
        dd * sp <= ep,
        ep <= dd * sp + (n - 1) * (dd - 1),
        n >= 1,
    ensures
        dd * st <= et,
        et <= dd * st + n * (dd - 1),
{
}

/// Each partial stored-equilibrium sum brackets the exact numerator sum:
/// the numerators exceed `EQ_DEN` times the stored sum by less than one
/// denominator per direction.
proof fn lemma_feq_sum_shape(rho: int, ux: int, uy: int, uz: int, n: int)
    requires
        0 <= rho <= 4 * SCALE,
        -16384 <= ux <= 16384,
        -16384 <= uy <= 16384,
        -16384 <= uz <= 16384,
        0 <= n <= 27,
    ensures
        (EQ_DEN as int) * sum_feq(rho, ux, uy, uz, n) <= sum_eqn(rho, ux, uy, uz, n) <= (
        EQ_DEN as int) * sum_feq(rho, ux, uy, uz, n) + n * ((EQ_DEN as int) - 1),
    decreases n,
{
    if n > 0 {
        lemma_feq_sum_shape(rho, ux, uy, uz, n - 1);
        lemma_feq_unsaturated(n - 1, rho, ux, uy, uz);
        vstd::arithmetic::div_mod::lemma_fundamental_div_mod(
            eq_num(n - 1, rho, ux, uy, uz),
            EQ_DEN as int,
        );
        vstd::arithmetic::div_mod::lemma_mod_bound(eq_num(n - 1, rho, ux, uy, uz), EQ_DEN as int);
        lemma_step_combine(
            EQ_DEN as int,
            sum_feq(rho, ux, uy, uz, n - 1),
            sum_feq(rho, ux, uy, uz, n),
            sum_eqn(rho, ux, uy, uz, n - 1),
            sum_eqn(rho, ux, uy, uz, n),
            eq_num(n - 1, rho, ux, uy, uz) / (EQ_DEN as int),
            eq_num(n - 1, rho, ux, uy, uz) % (EQ_DEN as int),
            eq_num(n - 1, rho, ux, uy, uz),
            n,
        );
    } else {
        lemma_mul_of_zero(EQ_DEN as int, sum_feq(rho, ux, uy, uz, n));
        lemma_mul_of_zero(n, (EQ_DEN as int) - 1);
    }
}

/// BGK relaxation is the identity on a node whose distributions already
/// are the stored equilibrium of its cached density and velocity.
pub proof fn lemma_bgk_fixed_point(p: LatticePoint, tau: int)
    requires
        p.wf(),
        tau >= 1,
        forall|i: int|
            0 <= i < 27 ==> #[trigger] p.f@[i] as int == feq_at(
                i,
                p.density as int,
                p.velocity@[0] as int,
                p.velocity@[1] as int,
                p.velocity@[2] as int,
            ),
    ensures
        forall|i: int|
            0 <= i < 27 ==> relaxed_at(
                p.f@[i] as int,
                i,
                p.density as int,
                p.velocity@[0] as int,
                p.velocity@[1] as int,
                p.velocity@[2] as int,
                tau,
            ) == p.f@[i] as int,
{
    assert forall|i: int| 0 <= i < 27 implies relaxed_at(
        p.f@[i] as int,
        i,
        p.density as int,
        p.velocity@[0] as int,
        p.velocity@[1] as int,
        p.velocity@[2] as int,
        tau,
    ) == p.f@[i] as int by {
        let fv = p.f@[i] as int;
        let fe = feq_at(
            i,
            p.density as int,
            p.velocity@[0] as int,
            p.velocity@[1] as int,
            p.velocity@[2] as int,
        );
        assert(fe == fv);
        assert((fe - fv) * (SCALE as int) == 0) by (nonlinear_arith)
            requires
                fe == fv,
        ;
        vstd::arithmetic::div_mod::lemma_div_of0(tau);
    }
}

/// Arithmetic core of [`lemma_collision_mass`]: from the bracket on the
/// relaxed sum and the bracket on the stored equilibrium sum, mass never
/// rises and the scaled drop stays under `27 * (SCALE + tau)`.
proof fn lemma_mass_conclude(tau: int, sf: int, sr: int, sfeq: int)
    by (nonlinear_arith)
    requires
        tau * (sr - sf) <= (sfeq - sf) * (SCALE as int),
        (sfeq - sf) * (SCALE as int) <= tau * (sr - sf) + 27 * (tau - 1),
        sf - 27 < sfeq <= sf,
        tau >= 1,
        SCALE == 65536,
    ensures
        sr <= sf,
        tau * (sf - sr) < 27 * (SCALE + tau),
{
}

/// One collision never raises a node's mass, and lowers it by less than 27
/// flooring quanta amplified by `SCALE / tau`: multiplied through by
/// `tau`, the drop is below `27 * (SCALE + tau)`.  Stated for a node whose
/// cached density is the current sum of its distributions, inside the
/// practical band.
pub proof fn lemma_collision_mass(p: LatticePoint, tau: int)
    requires
        p.wf(),
        p.density as int == sum_f(p.f@, 27),
        0 <= p.density <= 4 * SCALE,
        forall|i: int| 0 <= i < 27 ==> -32 * SCALE <= #[trigger] p.f@[i] <= 32 * SCALE,
        forall|a: int| 0 <= a < 3 ==> -16384 <= #[trigger] p.velocity@[a] <= 16384,
        SCALE / 2 <= tau,
    ensures
        sum_relaxed(
            p.f@,
            p.density as int,
            p.velocity@[0] as int,
            p.velocity@[1] as int,
            p.velocity@[2] as int,
            tau,
            27,
        ) <= sum_f(p.f@, 27),
        tau * (sum_f(p.f@, 27) - sum_relaxed(
            p.f@,
            p.density as int,
            p.velocity@[0] as int,
            p.velocity@[1] as int,
            p.velocity@[2] as int,
            tau,
            27,
        )) < 27 * (SCALE + tau),
{
    let rho = p.density as int;
    let ux = p.velocity@[0] as int;
    let uy = p.velocity@[1] as int;
    let uz = p.velocity@[2] as int;
    lemma_relaxed_sum_bracket(p.f@, rho, ux, uy, uz, tau, 27);
    lemma_equilibrium_sum_stored(rho, ux, uy, uz);
    lemma_mass_conclude(
        tau,
        sum_f(p.f@, 27),
        sum_relaxed(p.f@, rho, ux, uy, uz, tau, 27),
        sum_feq(rho, ux, uy, uz, 27),
    );
}

/// Arithmetic core of one step of [`lemma_relaxed_sum_bracket`].
proof fn lemma_bracket_combine(
    tau: int,
    dp: int,
    dt: int,
    gp: int,
    gt: int,
    q: int,
    g: int,
    r: int,
    n: int,
)
    by (nonlinear_arith)
    requires
        dt == dp + q,
        gt == gp + g,
        g * (SCALE as int) == tau * q + r,
        0 <= r < tau,
        tau * dp <= gp * (SCALE as int),
        gp * (SCALE as int) <= tau * dp + (n - 1) * (tau - 1),
        n >= 1,
        SCALE == 65536,
    ensures
        tau * dt <= gt * (SCALE as int),
        gt * (SCALE as int) <= tau * dt + n * (tau - 1),
{
}

/// One collision never raises the mass of a distribution vector, and the
/// drop, scaled by `tau`, stays below `27 * (SCALE + tau)`: the vector
/// form of [`lemma_collision_mass`], over the moments the collision phase
/// itself recovers.
pub proof fn lemma_vector_collision_mass(f: Seq<i64>, tau: int)
    requires
        f.len() == 27,
        forall|d: int| 0 <= d < 27 ==> -32 * SCALE <= #[trigger] f[d] <= 32 * SCALE,
        0 <= sum_f(f, 27) <= 4 * SCALE,
        forall|a: int| 0 <= a < 3 ==> -16384 <= #[trigger] vel_from(f, a) <= 16384,
        SCALE / 2 <= tau,
    ensures
        sum_relaxed(f, sum_f(f, 27), vel_from(f, 0), vel_from(f, 1), vel_from(f, 2), tau, 27)
            <= sum_f(f, 27),
        tau * (sum_f(f, 27) - sum_relaxed(
            f,
            sum_f(f, 27),
            vel_from(f, 0),
            vel_from(f, 1),
            vel_from(f, 2),
            tau,
            27,
        )) <= 27 * (SCALE + tau) - 1,
{
    let rho = sum_f(f, 27);
    let ux = vel_from(f, 0);
    let uy = vel_from(f, 1);
    let uz = vel_from(f, 2);
    lemma_relaxed_sum_bracket(f, rho, ux, uy, uz, tau, 27);
    lemma_equilibrium_sum_stored(rho, ux, uy, uz);
    lemma_mass_conclude(
        tau,
        sum_f(f, 27),
        sum_relaxed(f, rho, ux, uy, uz, tau, 27),
        sum_feq(rho, ux, uy, uz, 27),
    );
}

/// Partial sums of the relaxed values bracket the equilibrium deficit:
/// `tau * (sum_relaxed - sum_f)` lies within `(G * SCALE - n * tau,
/// G * SCALE]` where `G` is the partial stored-equilibrium sum minus the
/// partial mass.
proof fn lemma_relaxed_sum_bracket(
    f: Seq<i64>,
    rho: int,
    ux: int,
    uy: int,
    uz: int,
    tau: int,
    n: int,
)
    requires
        f.len() == 27,
        forall|i: int| 0 <= i < 27 ==> -32 * SCALE <= #[trigger] f[i] <= 32 * SCALE,
        0 <= rho <= 4 * SCALE,
        -16384 <= ux <= 16384,
        -16384 <= uy <= 16384,
        -16384 <= uz <= 16384,
        SCALE / 2 <= tau,
        0 <= n <= 27,
    ensures
        tau * (sum_relaxed(f, rho, ux, uy, uz, tau, n) - sum_f(f, n)) <= (sum_feq(
            rho,
            ux,
            uy,
            uz,
            n,
        ) - sum_f(f, n)) * (SCALE as int),
        (sum_feq(rho, ux, uy, uz, n) - sum_f(f, n)) * (SCALE as int) <= tau * (sum_relaxed(
            f,
            rho,
            ux,
            uy,
            uz,
            tau,
            n,
        ) - sum_f(f, n)) + n * (tau - 1),
    decreases n,
{
    if n > 0 {
        lemma_relaxed_sum_bracket(f, rho, ux, uy, uz, tau, n - 1);
        lemma_feq_unsaturated(n - 1, rho, ux, uy, uz);
        let fv = f[n - 1] as int;
        let fe = feq_at(n - 1, rho, ux, uy, uz);
        lemma_mul_bound(fe - fv, SCALE as int, 2949120, 65536);
        vstd::arithmetic::div_mod::lemma_fundamental_div_mod((fe - fv) * (SCALE as int), tau);
        vstd::arithmetic::div_mod::lemma_mod_bound((fe - fv) * (SCALE as int), tau);
        let q = (fe - fv) * (SCALE as int) / tau;
        // q stays well inside the band, so the relaxed value does not
        // saturate
        assert(-6_000_000 <= q <= 6_000_000) by (nonlinear_arith)
            requires
                tau * q <= (fe - fv) * (SCALE as int) < tau * q + tau,
                -193_273_528_320 <= (fe - fv) * (SCALE as int) <= 193_273_528_320,
                32768 <= tau,
        ;
        assert(relaxed_at(fv, n - 1, rho, ux, uy, uz, tau) == fv + q);
        lemma_bracket_combine(
            tau,
            sum_relaxed(f, rho, ux, uy, uz, tau, n - 1) - sum_f(f, n - 1),
            sum_relaxed(f, rho, ux, uy, uz, tau, n) - sum_f(f, n),
            sum_feq(rho, ux, uy, uz, n - 1) - sum_f(f, n - 1),
            sum_feq(rho, ux, uy, uz, n) - sum_f(f, n),
            q,
            fe - fv,
            (fe - fv) * (SCALE as int) % tau,
            n,
        );
    } else {
        lemma_mul_of_zero(tau, sum_relaxed(f, rho, ux, uy, uz, tau, n) - sum_f(f, n));
        lemma_mul_of_zero(sum_feq(rho, ux, uy, uz, n) - sum_f(f, n), SCALE as int);
        lemma_mul_of_zero(n, tau - 1);
    }
}

} // verus!

