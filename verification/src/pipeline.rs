//! The three-phase step pipeline over two same-shape grid buffers:
//! collision reads buffer A and writes buffer B, streaming reads B and
//! writes A, boundary enforcement rewrites A in place from its pre-phase
//! values.  Each phase's effect is stated per cell over the grids as they
//! stood when the phase began.

use vstd::prelude::*;

use crate::fixed::{F_LIMIT, RHO_LIMIT, V_LIMIT};
use crate::lattice::{
    dir_at, feq_at, opp_at, relaxed_at, sum_f, vel_from, LatticePoint, NodeType, D3Q27,
};

verus! {

/// A dense block of lattice nodes, linearized with `i` (the x index)
/// fastest, then `j`, then `k`.
pub struct DomainGrid {
    pub nx: usize,
    pub ny: usize,
    pub nz: usize,
    pub nodes: Vec<LatticePoint>,
}

impl DomainGrid {
    /// Structural invariant: positive extents, one well-formed node per
    /// cell.
    pub open spec fn wf(self) -> bool {
        &&& 1 <= self.nx && 1 <= self.ny && 1 <= self.nz
        &&& self.nx < 0x4000_0000 && self.ny < 0x4000_0000 && self.nz < 0x4000_0000
        &&& self.nodes.len() == self.nx * self.ny * self.nz
        &&& forall|c: int| 0 <= c < self.nodes.len() ==> (#[trigger] self.nodes@[c]).wf()
    }

    /// The linear index of cell `(i, j, k)`.
    pub open spec fn lin(self, i: int, j: int, k: int) -> int {
        lin_at(self.nx as int, self.ny as int, i, j, k)
    }

    /// Whether `(i, j, k)` lies inside the grid.
    pub open spec fn in_bounds(self, i: int, j: int, k: int) -> bool {
        0 <= i < self.nx && 0 <= j < self.ny && 0 <= k < self.nz
    }

    /// Two grids of the same shape.
    pub open spec fn same_shape(self, other: DomainGrid) -> bool {
        self.nx == other.nx && self.ny == other.ny && self.nz == other.nz
    }

    /// The linear index of a cell, computed in executable code.
    pub fn index(&self, i: usize, j: usize, k: usize) -> (c: usize)
        requires
            self.wf(),
            i < self.nx,
            j < self.ny,
            k < self.nz,
        ensures
            c as int == self.lin(i as int, j as int, k as int),
            c < self.nodes.len(),
    {
        proof {
            lemma_lin_bounds(
                self.nx as int,
                self.ny as int,
                self.nz as int,
                i as int,
                j as int,
                k as int,
            );
            assert(self.nx * (self.ny * self.nz) == self.nodes.len());
        }
        i + self.nx * (j + self.ny * k)
    }
}

/// The linear index of cell `(i, j, k)` in a grid whose x extent is `nx`
/// and y extent `ny`, x fastest.
pub open spec fn lin_at(nx: int, ny: int, i: int, j: int, k: int) -> int {
    i + nx * (j + ny * k)
}

/// How the linear index starts and wraps as a row or a plane is finished.
pub proof fn lemma_lin_wrap(nx: int, ny: int, j: int, k: int)
    ensures
        lin_at(nx, ny, 0, 0, 0) == 0,
        lin_at(nx, ny, nx, j, k) == lin_at(nx, ny, 0, j + 1, k),
        lin_at(nx, ny, 0, ny, k) == lin_at(nx, ny, 0, 0, k + 1),
{
    assert(nx * (0 + ny * 0) == 0) by (nonlinear_arith);
    assert(nx + nx * (j + ny * k) == nx * ((j + 1) + ny * k)) by (nonlinear_arith);
    assert(nx * (ny + ny * k) == nx * (0 + ny * (k + 1))) by (nonlinear_arith);
}

/// The linear index of an in-bounds cell is nonnegative, below the cell
/// count, and every intermediate of its computation stays in range.
pub proof fn lemma_lin_bounds(nx: int, ny: int, nz: int, i: int, j: int, k: int)
    by (nonlinear_arith)
    requires
        1 <= nx,
        1 <= ny,
        1 <= nz,
        0 <= i < nx,
        0 <= j < ny,
        0 <= k < nz,
    ensures
        0 <= ny * k <= ny * nz - ny,
        0 <= j + ny * k < ny * nz,
        ny * nz <= nx * (ny * nz),
        0 <= nx * (j + ny * k) <= nx * (ny * nz) - nx,
        0 <= i + nx * (j + ny * k) < nx * (ny * nz),
        nx * (ny * nz) == (nx * ny) * nz,
{
}

/// Distinct in-bounds cells have distinct linear indices.
pub proof fn lemma_lin_injective(
    nx: int,
    ny: int,
    nz: int,
    i1: int,
    j1: int,
    k1: int,
    i2: int,
    j2: int,
    k2: int,
)
    requires
        1 <= nx,
        1 <= ny,
        1 <= nz,
        0 <= i1 < nx,
        0 <= j1 < ny,
        0 <= k1 < nz,
        0 <= i2 < nx,
        0 <= j2 < ny,
        0 <= k2 < nz,
        lin_at(nx, ny, i1, j1, k1) == lin_at(nx, ny, i2, j2, k2),
    ensures
        i1 == i2 && j1 == j2 && k1 == k2,
{
    assert(i1 == i2 && j1 == j2 && k1 == k2) by (nonlinear_arith)
        requires
            1 <= nx,
            1 <= ny,
            1 <= nz,
            0 <= i1 < nx,
            0 <= j1 < ny,
            0 <= k1 < nz,
            0 <= i2 < nx,
            0 <= j2 < ny,
            0 <= k2 < nz,
            i1 + nx * (j1 + ny * k1) == i2 + nx * (j2 + ny * k2),
    ;
}

/// A fresh copy of a distribution vector.
fn copy_f(v: &Vec<i64>) -> (r: Vec<i64>)
    requires
        v.len() == 27,
    ensures
        r@ == v@,
{
    let mut r: Vec<i64> = Vec::new();
    let mut i: usize = 0;
    while i < 27
        invariant
            i <= 27,
            v.len() == 27,
            r.len() == i,
            forall|j: int| 0 <= j < i ==> r@[j] == v@[j],
        decreases 27 - i,
    {
        r.push(v[i]);
        i = i + 1;
    }
    proof {
        assert(r@ =~= v@);
    }
    r
}

/// A fresh copy of a node.
pub(crate) fn clone_point(p: &LatticePoint) -> (r: LatticePoint)
    requires
        p.f.len() == 27,
    ensures
        r.f@ == p.f@,
        r.density == p.density,
        r.velocity == p.velocity,
        r.node_type == p.node_type,
{
    LatticePoint {
        f: copy_f(&p.f),
        density: p.density,
        velocity: p.velocity,
        node_type: p.node_type,
    }
}

/// What collision leaves in a destination cell: the macroscopic moments of
/// the source cell's distributions, and each distribution relaxed toward
/// the equilibrium of those moments.  The tag rides along unchanged.
pub open spec fn collided_rel(src: LatticePoint, dst: LatticePoint, tau: int) -> bool {
    &&& dst.f.len() == 27
    &&& dst.density as int == sum_f(src.f@, 27)
    &&& (forall|a: int| 0 <= a < 3 ==> #[trigger] dst.velocity@[a] as int == vel_from(src.f@, a))
    &&& dst.node_type == src.node_type
    &&& forall|d: int|
        0 <= d < 27 ==> #[trigger] dst.f@[d] as int == relaxed_at(
            src.f@[d] as int,
            d,
            sum_f(src.f@, 27),
            vel_from(src.f@, 0),
            vel_from(src.f@, 1),
            vel_from(src.f@, 2),
            tau,
        )
}

/// Collision phase: for every cell of `src`, recover the macroscopic
/// moments, relax every distribution toward their equilibrium, and write
/// the result into the same cell of `dst`.  Tags have no effect here.
pub fn collision(src: &DomainGrid, dst: &mut DomainGrid, tau: i64)
    requires
        src.wf(),
        old(dst).wf(),
        old(dst).same_shape(*src),
        tau >= 1,
    ensures
        final(dst).wf(),
        final(dst).same_shape(*src),
        final(dst).nodes.len() == src.nodes.len(),
        forall|c: int|
            0 <= c < src.nodes.len() ==> collided_rel(
                src.nodes@[c],
                #[trigger] final(dst).nodes@[c],
                tau as int,
            ),
{
    let n = src.nodes.len();
    let mut c: usize = 0;
    while c < n
        invariant
            c <= n,
            n == src.nodes.len(),
            src.wf(),
            dst.wf(),
            dst.same_shape(*src),
            dst.nodes.len() == n,
            tau >= 1,
            forall|cc: int|
                0 <= cc < c ==> collided_rel(src.nodes@[cc], #[trigger] dst.nodes@[cc], tau as int),
        decreases n - c,
    {
        let mut p = clone_point(&src.nodes[c]);
        p.calculate_macroscopic();
        p.collide(tau);
        dst.nodes[c] = p;
        c = c + 1;
    }
}

/// The value that streaming leaves in component `d` of cell `(i, j, k)`:
/// pulled from the cell one lattice step against direction `d` in the
/// source grid, or kept from the destination's own pre-phase value when
/// that source cell lies outside the grid.
pub open spec fn stream_val(
    src: DomainGrid,
    dst0: DomainGrid,
    i: int,
    j: int,
    k: int,
    d: int,
) -> int {
    let si = i - dir_at(d).0;
    let sj = j - dir_at(d).1;
    let sk = k - dir_at(d).2;
    if dst0.in_bounds(si, sj, sk) {
        src.nodes@[dst0.lin(si, sj, sk)].f@[d] as int
    } else {
        dst0.nodes@[dst0.lin(i, j, k)].f@[d] as int
    }
}

/// Streaming phase: every cell pulls, for each direction, the value that
/// is advecting toward it from its upwind neighbor in `src`; components
/// whose upwind neighbor lies outside the grid keep the cell's pre-phase
/// value.  Cached moments and tags are untouched.
pub fn streaming(src: &DomainGrid, dst: &mut DomainGrid)
    requires
        src.wf(),
        old(dst).wf(),
        old(dst).same_shape(*src),
    ensures
        final(dst).wf(),
        final(dst).same_shape(*src),
        final(dst).nodes.len() == old(dst).nodes.len(),
        forall|i: int, j: int, k: int, d: int|
            old(dst).in_bounds(i, j, k) && 0 <= d < 27 ==> final(dst).nodes@[old(dst).lin(
                i,
                j,
                k,
            )].f@[d] as int == #[trigger] stream_val(*src, *old(dst), i, j, k, d),
        forall|c: int|
            0 <= c < old(dst).nodes.len() ==> {
                &&& (#[trigger] final(dst).nodes@[c]).density == old(dst).nodes@[c].density
                &&& final(dst).nodes@[c].velocity == old(dst).nodes@[c].velocity
                &&& final(dst).nodes@[c].node_type == old(dst).nodes@[c].node_type
            },
{
    let nx = dst.nx;
    let ny = dst.ny;
    let nz = dst.nz;
    let n = dst.nodes.len();
    let mut k: usize = 0;
    let mut c: usize = 0;
    proof {
        lemma_lin_wrap(nx as int, ny as int, 0, 0);
    }
    while k < nz
        invariant
            src.wf(),
            dst.wf(),
            dst.same_shape(*src),
            dst.same_shape(*old(dst)),
            nx == dst.nx && ny == dst.ny && nz == dst.nz,
            n == dst.nodes.len(),
            n == old(dst).nodes.len(),
            k <= nz,
            c as int == lin_at(nx as int, ny as int, 0, 0, k as int),
            c <= n,
            forall|i2: int, j2: int, k2: int, d2: int|
                old(dst).in_bounds(i2, j2, k2) && 0 <= d2 < 27 && old(dst).lin(i2, j2, k2)
                    < c ==> dst.nodes@[old(dst).lin(i2, j2, k2)].f@[d2] as int == #[trigger] stream_val(
                    *src,
                    *old(dst),
                    i2,
                    j2,
                    k2,
                    d2,
                ),
            forall|cc: int|
                0 <= cc < c ==> {
                    &&& (#[trigger] dst.nodes@[cc]).density == old(dst).nodes@[cc].density
                    &&& dst.nodes@[cc].velocity == old(dst).nodes@[cc].velocity
                    &&& dst.nodes@[cc].node_type == old(dst).nodes@[cc].node_type
                },
            forall|cc: int| c <= cc < n ==> #[trigger] dst.nodes@[cc] == old(dst).nodes@[cc],
        decreases nz - k,
    {
        let mut j: usize = 0;
        while j < ny
            invariant
                src.wf(),
                dst.wf(),
                dst.same_shape(*src),
                dst.same_shape(*old(dst)),
                nx == dst.nx && ny == dst.ny && nz == dst.nz,
                n == dst.nodes.len(),
                n == old(dst).nodes.len(),
                k < nz,
                j <= ny,
                c as int == lin_at(nx as int, ny as int, 0, j as int, k as int),
                c <= n,
                forall|i2: int, j2: int, k2: int, d2: int|
                    old(dst).in_bounds(i2, j2, k2) && 0 <= d2 < 27 && old(dst).lin(i2, j2, k2)
                        < c ==> dst.nodes@[old(dst).lin(i2, j2, k2)].f@[d2] as int
                        == #[trigger] stream_val(*src, *old(dst), i2, j2, k2, d2),
                forall|cc: int|
                    0 <= cc < c ==> {
                        &&& (#[trigger] dst.nodes@[cc]).density == old(dst).nodes@[cc].density
                        &&& dst.nodes@[cc].velocity == old(dst).nodes@[cc].velocity
                        &&& dst.nodes@[cc].node_type == old(dst).nodes@[cc].node_type
                    },
                forall|cc: int| c <= cc < n ==> #[trigger] dst.nodes@[cc] == old(dst).nodes@[cc],
            decreases ny - j,
        {
            let mut i: usize = 0;
            while i < nx
                invariant
                    src.wf(),
                    dst.wf(),
                    dst.same_shape(*src),
                    dst.same_shape(*old(dst)),
                    nx == dst.nx && ny == dst.ny && nz == dst.nz,
                    n == dst.nodes.len(),
                    n == old(dst).nodes.len(),
                    k < nz,
                    j < ny,
                    i <= nx,
                    c as int == lin_at(nx as int, ny as int, i as int, j as int, k as int),
                    c <= n,
                    forall|i2: int, j2: int, k2: int, d2: int|
                        old(dst).in_bounds(i2, j2, k2) && 0 <= d2 < 27 && old(dst).lin(i2, j2, k2)
                            < c ==> dst.nodes@[old(dst).lin(i2, j2, k2)].f@[d2] as int
                            == #[trigger] stream_val(*src, *old(dst), i2, j2, k2, d2),
                    forall|cc: int|
                        0 <= cc < c ==> {
                            &&& (#[trigger] dst.nodes@[cc]).density == old(dst).nodes@[cc].density
                            &&& dst.nodes@[cc].velocity == old(dst).nodes@[cc].velocity
                            &&& dst.nodes@[cc].node_type == old(dst).nodes@[cc].node_type
                        },
                    forall|cc: int|
                        c <= cc < n ==> #[trigger] dst.nodes@[cc] == old(dst).nodes@[cc],
                decreases nx - i,
            {
                proof {
                    lemma_lin_bounds(
                        nx as int,
                        ny as int,
                        nz as int,
                        i as int,
                        j as int,
                        k as int,
                    );
                    assert(nx * (ny * nz) == dst.nodes.len());
                    assert(old(dst).lin(i as int, j as int, k as int) == c as int);
                }
                let dcur = clone_point(&dst.nodes[c]);
                let mut newf: Vec<i64> = Vec::new();
                let mut d: usize = 0;
                while d < 27
                    invariant
                        src.wf(),
                        dst.wf(),
                        dst.same_shape(*src),
                        dst.same_shape(*old(dst)),
                        nx == dst.nx && ny == dst.ny && nz == dst.nz,
                        i < nx && j < ny && k < nz,
                        c < dst.nodes.len(),
                        c as int == lin_at(nx as int, ny as int, i as int, j as int, k as int),
                        dcur.f@ == dst.nodes@[c as int].f@,
                        dst.nodes@[c as int] == old(dst).nodes@[c as int],
                        d <= 27,
                        newf.len() == d,
                        forall|dd: int|
                            0 <= dd < d ==> #[trigger] newf@[dd] as int == stream_val(
                                *src,
                                *old(dst),
                                i as int,
                                j as int,
                                k as int,
                                dd,
                            ),
                        forall|dd: int| 0 <= dd < d ==> -F_LIMIT <= #[trigger] newf@[dd] <= F_LIMIT,
                    decreases 27 - d,
                {
                    let (cx, cy, cz) = D3Q27::velocity(d);
                    let si = i as i64 - cx as i64;
                    let sj = j as i64 - cy as i64;
                    let sk = k as i64 - cz as i64;
                    let v: i64;
                    if 0 <= si && si < nx as i64 && 0 <= sj && sj < ny as i64 && 0 <= sk && sk
                        < nz as i64 {
                        let sc_idx = src.index(si as usize, sj as usize, sk as usize);
                        v = src.nodes[sc_idx].f[d];
                    } else {
                        v = dcur.f[d];
                    }
                    newf.push(v);
                    d = d + 1;
                }
                dst.nodes[c] = LatticePoint {
                    f: newf,
                    density: dcur.density,
                    velocity: dcur.velocity,
                    node_type: dcur.node_type,
                };
                proof {
                    assert forall|i2: int, j2: int, k2: int, d2: int|
                        old(dst).in_bounds(i2, j2, k2) && 0 <= d2 < 27 && old(dst).lin(i2, j2, k2)
                            < c + 1 implies dst.nodes@[old(dst).lin(i2, j2, k2)].f@[d2] as int
                        == #[trigger] stream_val(*src, *old(dst), i2, j2, k2, d2) by {
                        if old(dst).lin(i2, j2, k2) == c as int {
                            lemma_lin_injective(
                                nx as int,
                                ny as int,
                                nz as int,
                                i2,
                                j2,
                                k2,
                                i as int,
                                j as int,
                                k as int,
                            );
                        }
                    }
                }
                i = i + 1;
                c = c + 1;
            }
            proof {
                lemma_lin_wrap(nx as int, ny as int, j as int, k as int);
            }
            j = j + 1;
        }
        proof {
            lemma_lin_wrap(nx as int, ny as int, 0, k as int);
        }
        k = k + 1;
    }
    proof {
        assert((nx as int) * (0 + (ny as int) * (nz as int)) == (nx as int) * ((ny as int) * (
        nz as int))) by (nonlinear_arith);
        assert(c as int == nx * (ny * nz));
        assert forall|i2: int, j2: int, k2: int, d2: int|
            old(dst).in_bounds(i2, j2, k2) && 0 <= d2 < 27 implies dst.nodes@[old(dst).lin(
            i2,
            j2,
            k2,
        )].f@[d2] as int == #[trigger] stream_val(*src, *old(dst), i2, j2, k2, d2) by {
            lemma_lin_bounds(nx as int, ny as int, nz as int, i2, j2, k2);
        }
    }
}

/// A fresh copy of a node vector.
fn copy_nodes(v: &Vec<LatticePoint>) -> (r: Vec<LatticePoint>)
    requires
        forall|c: int| 0 <= c < v.len() ==> (#[trigger] v@[c]).f.len() == 27,
    ensures
        r.len() == v.len(),
        forall|c: int|
            0 <= c < v.len() ==> {
                &&& (#[trigger] r@[c]).f@ == v@[c].f@
                &&& r@[c].density == v@[c].density
                &&& r@[c].velocity == v@[c].velocity
                &&& r@[c].node_type == v@[c].node_type
            },
{
    let mut r: Vec<LatticePoint> = Vec::new();
    let mut i: usize = 0;
    let n = v.len();
    while i < n
        invariant
            i <= n,
            n == v.len(),
            r.len() == i,
            forall|c: int| 0 <= c < v.len() ==> (#[trigger] v@[c]).f.len() == 27,
            forall|c: int|
                0 <= c < i ==> {
                    &&& (#[trigger] r@[c]).f@ == v@[c].f@
                    &&& r@[c].density == v@[c].density
                    &&& r@[c].velocity == v@[c].velocity
                    &&& r@[c].node_type == v@[c].node_type
                },
        decreases n - i,
    {
        let p = clone_point(&v[i]);
        r.push(p);
        i = i + 1;
    }
    r
}

/// What boundary enforcement leaves in component `d` of cell `(i, j, k)`,
/// in terms of the grid `g` as it stood when the phase began: Solid nodes
/// reflect each component from its opposite direction, Inlet nodes take
/// the equilibrium of the configured inlet velocity at the node's current
/// density, Outlet nodes copy their interior neighbor along the negative
/// x axis, Fluid nodes are untouched.
pub open spec fn boundary_val(
    g: DomainGrid,
    i: int,
    j: int,
    k: int,
    d: int,
    vx: int,
    vy: int,
    vz: int,
) -> int {
    let p = g.nodes@[g.lin(i, j, k)];
    match p.node_type {
        NodeType::Fluid => p.f@[d] as int,
        NodeType::Solid => p.f@[opp_at(d)] as int,
        NodeType::Inlet => feq_at(d, sum_f(p.f@, 27), vx, vy, vz),
        NodeType::Outlet => if i >= 1 {
            g.nodes@[g.lin(i - 1, j, k)].f@[d] as int
        } else {
            p.f@[d] as int
        },
    }
}

/// Boundary enforcement phase, in place: every cell is rewritten from the
/// pre-phase values of the grid according to its tag.  Cached moments and
/// tags are untouched.
pub fn boundary_enforcement(grid: &mut DomainGrid, inlet_velocity: [i64; 3])
    requires
        old(grid).wf(),
        forall|a: int| 0 <= a < 3 ==> -V_LIMIT <= #[trigger] inlet_velocity@[a] <= V_LIMIT,
    ensures
        final(grid).wf(),
        final(grid).same_shape(*old(grid)),
        final(grid).nodes.len() == old(grid).nodes.len(),
        forall|i: int, j: int, k: int, d: int|
            old(grid).in_bounds(i, j, k) && 0 <= d < 27 ==> final(grid).nodes@[old(grid).lin(
                i,
                j,
                k,
            )].f@[d] as int == #[trigger] boundary_val(
                *old(grid),
                i,
                j,
                k,
                d,
                inlet_velocity@[0] as int,
                inlet_velocity@[1] as int,
                inlet_velocity@[2] as int,
            ),
        forall|c: int|
            0 <= c < old(grid).nodes.len() ==> {
                &&& (#[trigger] final(grid).nodes@[c]).density == old(grid).nodes@[c].density
                &&& final(grid).nodes@[c].velocity == old(grid).nodes@[c].velocity
                &&& final(grid).nodes@[c].node_type == old(grid).nodes@[c].node_type
            },
{
    let ghost vx = inlet_velocity@[0] as int;
    let ghost vy = inlet_velocity@[1] as int;
    let ghost vz = inlet_velocity@[2] as int;
    let nx = grid.nx;
    let ny = grid.ny;
    let nz = grid.nz;
    let n = grid.nodes.len();
    let snap = copy_nodes(&grid.nodes);
    let mut k: usize = 0;
    let mut c: usize = 0;
    proof {
        lemma_lin_wrap(nx as int, ny as int, 0, 0);
    }
    while k < nz
        invariant
            grid.wf(),
            old(grid).wf(),
            grid.same_shape(*old(grid)),
            nx == grid.nx && ny == grid.ny && nz == grid.nz,
            n == grid.nodes.len(),
            n == old(grid).nodes.len(),
            snap.len() == n,
            forall|a: int| 0 <= a < 3 ==> -V_LIMIT <= #[trigger] inlet_velocity@[a] <= V_LIMIT,
            vx == inlet_velocity@[0] as int,
            vy == inlet_velocity@[1] as int,
            vz == inlet_velocity@[2] as int,
            forall|cc: int|
                0 <= cc < n ==> {
                    &&& (#[trigger] snap@[cc]).f@ == old(grid).nodes@[cc].f@
                    &&& snap@[cc].density == old(grid).nodes@[cc].density
                    &&& snap@[cc].velocity == old(grid).nodes@[cc].velocity
                    &&& snap@[cc].node_type == old(grid).nodes@[cc].node_type
                },
            k <= nz,
            c as int == lin_at(nx as int, ny as int, 0, 0, k as int),
            c <= n,
            forall|i2: int, j2: int, k2: int, d2: int|
                old(grid).in_bounds(i2, j2, k2) && 0 <= d2 < 27 && old(grid).lin(i2, j2, k2)
                    < c ==> grid.nodes@[old(grid).lin(i2, j2, k2)].f@[d2] as int
                    == #[trigger] boundary_val(*old(grid), i2, j2, k2, d2, vx, vy, vz),
            forall|cc: int|
                0 <= cc < c ==> {
                    &&& (#[trigger] grid.nodes@[cc]).density == old(grid).nodes@[cc].density
                    &&& grid.nodes@[cc].velocity == old(grid).nodes@[cc].velocity
                    &&& grid.nodes@[cc].node_type == old(grid).nodes@[cc].node_type
                },
            forall|cc: int| c <= cc < n ==> #[trigger] grid.nodes@[cc] == old(grid).nodes@[cc],
        decreases nz - k,
    {
        let mut j: usize = 0;
        while j < ny
            invariant
                grid.wf(),
                old(grid).wf(),
                grid.same_shape(*old(grid)),
                nx == grid.nx && ny == grid.ny && nz == grid.nz,
                n == grid.nodes.len(),
                n == old(grid).nodes.len(),
                snap.len() == n,
                forall|a: int| 0 <= a < 3 ==> -V_LIMIT <= #[trigger] inlet_velocity@[a] <= V_LIMIT,
                vx == inlet_velocity@[0] as int,
                vy == inlet_velocity@[1] as int,
                vz == inlet_velocity@[2] as int,
                forall|cc: int|
                    0 <= cc < n ==> {
                        &&& (#[trigger] snap@[cc]).f@ == old(grid).nodes@[cc].f@
                        &&& snap@[cc].density == old(grid).nodes@[cc].density
                        &&& snap@[cc].velocity == old(grid).nodes@[cc].velocity
                        &&& snap@[cc].node_type == old(grid).nodes@[cc].node_type
                    },
                k < nz,
                j <= ny,
                c as int == lin_at(nx as int, ny as int, 0, j as int, k as int),
                c <= n,
                forall|i2: int, j2: int, k2: int, d2: int|
                    old(grid).in_bounds(i2, j2, k2) && 0 <= d2 < 27 && old(grid).lin(i2, j2, k2)
                        < c ==> grid.nodes@[old(grid).lin(i2, j2, k2)].f@[d2] as int
                        == #[trigger] boundary_val(*old(grid), i2, j2, k2, d2, vx, vy, vz),
                forall|cc: int|
                    0 <= cc < c ==> {
                        &&& (#[trigger] grid.nodes@[cc]).density == old(grid).nodes@[cc].density
                        &&& grid.nodes@[cc].velocity == old(grid).nodes@[cc].velocity
                        &&& grid.nodes@[cc].node_type == old(grid).nodes@[cc].node_type
                    },
                forall|cc: int| c <= cc < n ==> #[trigger] grid.nodes@[cc] == old(grid).nodes@[cc],
            decreases ny - j,
        {
            let mut i: usize = 0;
            while i < nx
                invariant
                    grid.wf(),
                    old(grid).wf(),
                    grid.same_shape(*old(grid)),
                    nx == grid.nx && ny == grid.ny && nz == grid.nz,
                    n == grid.nodes.len(),
                    n == old(grid).nodes.len(),
                    snap.len() == n,
                    forall|a: int|
                        0 <= a < 3 ==> -V_LIMIT <= #[trigger] inlet_velocity@[a] <= V_LIMIT,
                    vx == inlet_velocity@[0] as int,
                    vy == inlet_velocity@[1] as int,
                    vz == inlet_velocity@[2] as int,
                    forall|cc: int|
                        0 <= cc < n ==> {
                            &&& (#[trigger] snap@[cc]).f@ == old(grid).nodes@[cc].f@
                            &&& snap@[cc].density == old(grid).nodes@[cc].density
                            &&& snap@[cc].velocity == old(grid).nodes@[cc].velocity
                            &&& snap@[cc].node_type == old(grid).nodes@[cc].node_type
                        },
                    k < nz,
                    j < ny,
                    i <= nx,
                    c as int == lin_at(nx as int, ny as int, i as int, j as int, k as int),
                    c <= n,
                    forall|i2: int, j2: int, k2: int, d2: int|
                        old(grid).in_bounds(i2, j2, k2) && 0 <= d2 < 27 && old(grid).lin(
                            i2,
                            j2,
                            k2,
                        ) < c ==> grid.nodes@[old(grid).lin(i2, j2, k2)].f@[d2] as int
                            == #[trigger] boundary_val(*old(grid), i2, j2, k2, d2, vx, vy, vz),
                    forall|cc: int|
                        0 <= cc < c ==> {
                            &&& (#[trigger] grid.nodes@[cc]).density == old(
                                grid,
                            ).nodes@[cc].density
                            &&& grid.nodes@[cc].velocity == old(grid).nodes@[cc].velocity
                            &&& grid.nodes@[cc].node_type == old(grid).nodes@[cc].node_type
                        },
                    forall|cc: int|
                        c <= cc < n ==> #[trigger] grid.nodes@[cc] == old(grid).nodes@[cc],
                decreases nx - i,
            {
                proof {
                    lemma_lin_bounds(
                        nx as int,
                        ny as int,
                        nz as int,
                        i as int,
                        j as int,
                        k as int,
                    );
                    assert(nx * (ny * nz) == grid.nodes.len());
                    assert(old(grid).lin(i as int, j as int, k as int) == c as int);
                }
                let tag = snap[c].node_type;
                if tag == NodeType::Solid {
                    let mut newf: Vec<i64> = Vec::new();
                    let mut d: usize = 0;
                    while d < 27
                        invariant
                            c < snap.len(),
                            snap@[c as int].f@.len() == 27,
                            forall|dd: int|
                                0 <= dd < 27 ==> -F_LIMIT <= #[trigger] snap@[c as int].f@[dd]
                                    <= F_LIMIT,
                            d <= 27,
                            newf.len() == d,
                            forall|dd: int|
                                0 <= dd < d ==> #[trigger] newf@[dd] == snap@[c as int].f@[opp_at(
                                    dd,
                                )],
                            forall|dd: int|
                                0 <= dd < d ==> -F_LIMIT <= #[trigger] newf@[dd] <= F_LIMIT,
                        decreases 27 - d,
                    {
                        proof {
                            crate::lattice::lemma_opposite(d as int);
                        }
                        let o = D3Q27::opposite(d);
                        newf.push(snap[c].f[o]);
                        d = d + 1;
                    }
                    let dens = snap[c].density;
                    let vel = snap[c].velocity;
                    grid.nodes[c] = LatticePoint { f: newf, density: dens, velocity: vel, node_type: tag };
                } else if tag == NodeType::Inlet {
                    let mut rho: i64 = 0;
                    let mut d: usize = 0;
                    while d < 27
                        invariant
                            c < snap.len(),
                            snap@[c as int].f@.len() == 27,
                            forall|dd: int|
                                0 <= dd < 27 ==> -F_LIMIT <= #[trigger] snap@[c as int].f@[dd]
                                    <= F_LIMIT,
                            d <= 27,
                            rho as int == sum_f(snap@[c as int].f@, d as int),
                            -(d as int) * F_LIMIT <= rho as int <= (d as int) * F_LIMIT,
                        decreases 27 - d,
                    {
                        rho = rho + snap[c].f[d];
                        d = d + 1;
                    }
                    let mut newf: Vec<i64> = Vec::new();
                    let mut d2: usize = 0;
                    while d2 < 27
                        invariant
                            -RHO_LIMIT <= rho <= RHO_LIMIT,
                            rho as int == sum_f(snap@[c as int].f@, 27),
                            c < snap.len(),
                            forall|a: int|
                                0 <= a < 3 ==> -V_LIMIT <= #[trigger] inlet_velocity@[a]
                                    <= V_LIMIT,
                            d2 <= 27,
                            newf.len() == d2,
                            forall|dd: int|
                                0 <= dd < d2 ==> #[trigger] newf@[dd] as int == feq_at(
                                    dd,
                                    sum_f(snap@[c as int].f@, 27),
                                    inlet_velocity@[0] as int,
                                    inlet_velocity@[1] as int,
                                    inlet_velocity@[2] as int,
                                ),
                            forall|dd: int|
                                0 <= dd < d2 ==> -F_LIMIT <= #[trigger] newf@[dd] <= F_LIMIT,
                        decreases 27 - d2,
                    {
                        let v = crate::lattice::equilibrium_distribution_value(d2, rho, inlet_velocity);
                        newf.push(v);
                        d2 = d2 + 1;
                    }
                    let dens = snap[c].density;
                    let vel = snap[c].velocity;
                    grid.nodes[c] = LatticePoint { f: newf, density: dens, velocity: vel, node_type: tag };
                } else if tag == NodeType::Outlet && i >= 1 {
                    let nb = copy_f(&snap[c - 1].f);
                    let dens = snap[c].density;
                    let vel = snap[c].velocity;
                    grid.nodes[c] = LatticePoint { f: nb, density: dens, velocity: vel, node_type: tag };
                }
                proof {
                    assert forall|i2: int, j2: int, k2: int, d2: int|
                        old(grid).in_bounds(i2, j2, k2) && 0 <= d2 < 27 && old(grid).lin(
                            i2,
                            j2,
                            k2,
                        ) < c + 1 implies grid.nodes@[old(grid).lin(i2, j2, k2)].f@[d2] as int
                        == #[trigger] boundary_val(*old(grid), i2, j2, k2, d2, vx, vy, vz) by {
                        if old(grid).lin(i2, j2, k2) == c as int {
                            lemma_lin_injective(
                                nx as int,
                                ny as int,
                                nz as int,
                                i2,
                                j2,
                                k2,
                                i as int,
                                j as int,
                                k as int,
                            );
                            if old(grid).nodes@[c as int].node_type == NodeType::Solid {
                                crate::lattice::lemma_opposite(d2);
                            }
                        }
                    }
                }
                i = i + 1;
                c = c + 1;
            }
            proof {
                lemma_lin_wrap(nx as int, ny as int, j as int, k as int);
            }
            j = j + 1;
        }
        proof {
            lemma_lin_wrap(nx as int, ny as int, 0, k as int);
        }
        k = k + 1;
    }
    proof {
        assert((nx as int) * (0 + (ny as int) * (nz as int)) == (nx as int) * ((ny as int) * (
        nz as int))) by (nonlinear_arith);
        assert(c as int == nx * (ny * nz));
        assert forall|i2: int, j2: int, k2: int, d2: int|
            old(grid).in_bounds(i2, j2, k2) && 0 <= d2 < 27 implies grid.nodes@[old(grid).lin(
            i2,
            j2,
            k2,
        )].f@[d2] as int == #[trigger] boundary_val(*old(grid), i2, j2, k2, d2, vx, vy, vz) by {
            lemma_lin_bounds(nx as int, ny as int, nz as int, i2, j2, k2);
        }
    }
}

/// Sum of the first `n` streamed component values of cell `(i, j, k)`.
pub open spec fn stream_sum(
    src: DomainGrid,
    dst0: DomainGrid,
    i: int,
    j: int,
    k: int,
    n: int,
) -> int
    decreases n,
{
    if n <= 0 {
        0
    } else {
        stream_sum(src, dst0, i, j, k, n - 1) + stream_val(src, dst0, i, j, k, n - 1)
    }
}

/// A distribution vector that matches the streamed values pointwise sums
/// to the streamed sum.
pub proof fn lemma_stream_sum_eq(
    src: DomainGrid,
    dst0: DomainGrid,
    fs: Seq<i64>,
    i: int,
    j: int,
    k: int,
    n: int,
)
    requires
        forall|dd: int| 0 <= dd < n ==> #[trigger] fs[dd] as int == stream_val(src, dst0, i, j, k, dd),
    ensures
        sum_f(fs, n) == stream_sum(src, dst0, i, j, k, n),
    decreases n,
{
    if n > 0 {
        lemma_stream_sum_eq(src, dst0, fs, i, j, k, n - 1);
    }
}

/// The value one full step leaves in component `d` of cell `(i, j, k)`,
/// in terms of the grid before the step (`a0`) and the scratch buffer
/// after collision (`b`): collision into `b`, a streaming pull, then
/// boundary enforcement by the cell's tag.
pub open spec fn step_out_f(
    a0: DomainGrid,
    b: DomainGrid,
    i: int,
    j: int,
    k: int,
    d: int,
    vx: int,
    vy: int,
    vz: int,
) -> int {
    let p = a0.nodes@[a0.lin(i, j, k)];
    match p.node_type {
        NodeType::Fluid => stream_val(b, a0, i, j, k, d),
        NodeType::Solid => stream_val(b, a0, i, j, k, opp_at(d)),
        NodeType::Inlet => feq_at(d, stream_sum(b, a0, i, j, k, 27), vx, vy, vz),
        NodeType::Outlet => if i >= 1 {
            stream_val(b, a0, i - 1, j, k, d)
        } else {
            stream_val(b, a0, i, j, k, d)
        },
    }
}

/// One full step: collision from `a` into `b`, streaming from `b` back
/// into `a`, then boundary enforcement on `a` in place, each phase
/// complete before the next starts.  On return `b` holds the
/// post-collision state and every cell of `a` holds the composed value
/// [`step_out_f`] of the pre-step state.
pub fn step(a: &mut DomainGrid, b: &mut DomainGrid, tau: i64, inlet_velocity: [i64; 3])
    requires
        old(a).wf(),
        old(b).wf(),
        old(b).same_shape(*old(a)),
        tau >= 1,
        forall|x: int| 0 <= x < 3 ==> -V_LIMIT <= #[trigger] inlet_velocity@[x] <= V_LIMIT,
    ensures
        final(a).wf(),
        final(b).wf(),
        final(a).same_shape(*old(a)),
        final(b).same_shape(*old(a)),
        final(a).nodes.len() == old(a).nodes.len(),
        forall|c: int|
            0 <= c < old(a).nodes.len() ==> collided_rel(
                old(a).nodes@[c],
                #[trigger] final(b).nodes@[c],
                tau as int,
            ),
        forall|i: int, j: int, k: int, d: int|
            old(a).in_bounds(i, j, k) && 0 <= d < 27 ==> final(a).nodes@[old(a).lin(
                i,
                j,
                k,
            )].f@[d] as int == #[trigger] step_out_f(
                *old(a),
                *final(b),
                i,
                j,
                k,
                d,
                inlet_velocity@[0] as int,
                inlet_velocity@[1] as int,
                inlet_velocity@[2] as int,
            ),
        forall|c: int|
            0 <= c < old(a).nodes.len() ==> {
                &&& (#[trigger] final(a).nodes@[c]).density == old(a).nodes@[c].density
                &&& final(a).nodes@[c].velocity == old(a).nodes@[c].velocity
                &&& final(a).nodes@[c].node_type == old(a).nodes@[c].node_type
            },
{
    collision(a, b, tau);
    streaming(b, a);
    let ghost mid = *a;
    boundary_enforcement(a, inlet_velocity);
    proof {
        let a0 = *old(a);
        let vx = inlet_velocity@[0] as int;
        let vy = inlet_velocity@[1] as int;
        let vz = inlet_velocity@[2] as int;
        assert forall|i: int, j: int, k: int, d: int|
            a0.in_bounds(i, j, k) && 0 <= d < 27 implies a.nodes@[a0.lin(i, j, k)].f@[d] as int
            == #[trigger] step_out_f(a0, *b, i, j, k, d, vx, vy, vz) by {
            lemma_lin_bounds(a0.nx as int, a0.ny as int, a0.nz as int, i, j, k);
            assert(a0.nx * (a0.ny * a0.nz) == a0.nodes.len());
            let c = a0.lin(i, j, k);
            assert(a.nodes@[c].f@[d] as int == boundary_val(mid, i, j, k, d, vx, vy, vz));
            let tag = a0.nodes@[c].node_type;
            assert(mid.nodes@[c].node_type == tag);
            if tag == NodeType::Solid {
                crate::lattice::lemma_opposite(d);
            } else if tag == NodeType::Inlet {
                lemma_stream_sum_eq(*b, a0, mid.nodes@[c].f@, i, j, k, 27);
            } else if tag == NodeType::Outlet {
                if i >= 1 {
                    assert(a0.in_bounds(i - 1, j, k));
                }
            }
        }
    }
}

/// When both buffers hold one and the same distribution vector in every
/// cell, streaming changes nothing: every pulled value equals the value
/// already present, so the phase moves no mass.
pub proof fn lemma_streaming_uniform(src: DomainGrid, dst0: DomainGrid, fv: Seq<i64>)
    requires
        src.wf(),
        dst0.wf(),
        dst0.same_shape(src),
        fv.len() == 27,
        forall|c: int| 0 <= c < src.nodes.len() ==> (#[trigger] src.nodes@[c]).f@ == fv,
        forall|c: int| 0 <= c < dst0.nodes.len() ==> (#[trigger] dst0.nodes@[c]).f@ == fv,
    ensures
        forall|i: int, j: int, k: int, d: int|
            dst0.in_bounds(i, j, k) && 0 <= d < 27 ==> #[trigger] stream_val(src, dst0, i, j, k, d)
                == fv[d] as int,
{
    assert forall|i: int, j: int, k: int, d: int|
        dst0.in_bounds(i, j, k) && 0 <= d < 27 implies #[trigger] stream_val(src, dst0, i, j, k, d)
        == fv[d] as int by {
        lemma_lin_bounds(dst0.nx as int, dst0.ny as int, dst0.nz as int, i, j, k);
        assert(dst0.nx * (dst0.ny * dst0.nz) == dst0.nodes.len());
        let si = i - dir_at(d).0;
        let sj = j - dir_at(d).1;
        let sk = k - dir_at(d).2;
        if dst0.in_bounds(si, sj, sk) {
            lemma_lin_bounds(dst0.nx as int, dst0.ny as int, dst0.nz as int, si, sj, sk);
        }
    }
}

/// Total mass of the first `n` cells of a node vector.
pub open spec fn grid_mass(nodes: Seq<LatticePoint>, n: int) -> int
    decreases n,
{
    if n <= 0 {
        0
    } else {
        grid_mass(nodes, n - 1) + sum_f(nodes[n - 1].f@, 27)
    }
}

/// Arithmetic core of one step of [`lemma_collision_grid_mass`].
proof fn lemma_mass_acc(tau: int, ms: int, md: int, msp: int, mdp: int, cs: int, cd: int, bb: int, n: int)
    by (nonlinear_arith)
    requires
        ms == msp + cs,
        md == mdp + cd,
        tau * (msp - mdp) <= (n - 1) * bb,
        tau * (cs - cd) <= bb,
    ensures
        tau * (ms - md) <= n * bb,
{
}

/// Over a whole grid, the collision phase never raises the total mass,
/// and the total drop, scaled by `tau`, stays below
/// `27 * (SCALE + tau)` per cell: the grid form of the per-node
/// collision-mass bound, stated for states inside the practical band.
pub proof fn lemma_collision_grid_mass(src: DomainGrid, dst: DomainGrid, tau: int, n: int)
    requires
        src.wf(),
        dst.nodes.len() == src.nodes.len(),
        0 <= n <= src.nodes.len(),
        forall|c: int|
            0 <= c < src.nodes.len() ==> collided_rel(
                src.nodes@[c],
                #[trigger] dst.nodes@[c],
                tau,
            ),
        forall|c: int, d: int|
            0 <= c < src.nodes.len() && 0 <= d < 27 ==> -32 * crate::fixed::SCALE <= #[trigger] src.nodes@[c].f@[d]
                <= 32 * crate::fixed::SCALE,
        forall|c: int|
            0 <= c < src.nodes.len() ==> 0 <= sum_f((#[trigger] src.nodes@[c]).f@, 27) <= 4
                * crate::fixed::SCALE,
        forall|c: int, a: int|
            0 <= c < src.nodes.len() && 0 <= a < 3 ==> -16384 <= #[trigger] vel_from(
                src.nodes@[c].f@,
                a,
            ) <= 16384,
        crate::fixed::SCALE / 2 <= tau,
    ensures
        grid_mass(dst.nodes@, n) <= grid_mass(src.nodes@, n),
        tau * (grid_mass(src.nodes@, n) - grid_mass(dst.nodes@, n)) <= n * (27 * (
        crate::fixed::SCALE + tau) - 1),
    decreases n,
{
    if n > 0 {
        lemma_collision_grid_mass(src, dst, tau, n - 1);
        let c = n - 1;
        let fsrc = src.nodes@[c].f@;
        let fdst = dst.nodes@[c].f@;
        crate::lattice::lemma_sum_f_relaxed(
            fdst,
            fsrc,
            sum_f(fsrc, 27),
            vel_from(fsrc, 0),
            vel_from(fsrc, 1),
            vel_from(fsrc, 2),
            tau,
            27,
        );
        crate::lattice::lemma_vector_collision_mass(fsrc, tau);
        assert(tau * (sum_f(src.nodes@[c].f@, 27) - sum_f(dst.nodes@[c].f@, 27)) <= 27 * (
        crate::fixed::SCALE + tau) - 1) by (nonlinear_arith)
            requires
                sum_f(dst.nodes@[c].f@, 27) == crate::lattice::sum_relaxed(
                    src.nodes@[c].f@,
                    sum_f(src.nodes@[c].f@, 27),
                    vel_from(src.nodes@[c].f@, 0),
                    vel_from(src.nodes@[c].f@, 1),
                    vel_from(src.nodes@[c].f@, 2),
                    tau,
                    27,
                ),
                tau * (sum_f(src.nodes@[c].f@, 27) - crate::lattice::sum_relaxed(
                    src.nodes@[c].f@,
                    sum_f(src.nodes@[c].f@, 27),
                    vel_from(src.nodes@[c].f@, 0),
                    vel_from(src.nodes@[c].f@, 1),
                    vel_from(src.nodes@[c].f@, 2),
                    tau,
                    27,
                )) <= 27 * (crate::fixed::SCALE + tau) - 1,
        ;
        lemma_mass_acc(
            tau,
            grid_mass(src.nodes@, n),
            grid_mass(dst.nodes@, n),
            grid_mass(src.nodes@, n - 1),
            grid_mass(dst.nodes@, n - 1),
            sum_f(src.nodes@[c].f@, 27),
            sum_f(dst.nodes@[c].f@, 27),
            27 * (crate::fixed::SCALE + tau) - 1,
            n,
        );
    } else {
        crate::lattice::lemma_mul_of_zero(
            tau,
            grid_mass(src.nodes@, n) - grid_mass(dst.nodes@, n),
        );
        crate::lattice::lemma_mul_of_zero(n, 27 * (crate::fixed::SCALE + tau) - 1);
    }
}

} // verus!
