//! The solver loop: build the initial grid from a classification and a
//! configuration, drive the step pipeline, collect periodic snapshots,
//! and evaluate the convergence criterion at output intervals.

use vstd::prelude::*;

use crate::config::{tau_of, valid, Config, ConfigError};
use crate::fixed::{div_floor, lemma_div_magnitude, SCALE, V_LIMIT};
use crate::geometry::{min3s, min3_exec, Geometry, GeometryError, Triangle};
use crate::lattice::{feq_at, sum_f, vel_from, LatticePoint, NodeType};
use crate::pipeline::{
    clone_point, collided_rel, lemma_lin_bounds, lemma_lin_injective, lemma_lin_wrap, lin_at,
    step, step_out_f, DomainGrid,
};

verus! {

/// One per-node record of a snapshot: the macroscopic fields and the tag,
/// ordered with the x axis fastest.
#[derive(Clone, Copy, Debug)]
pub struct NodeRecord {
    pub density: i64,
    pub velocity: [i64; 3],
    pub node_type: NodeType,
}

/// The per-node records of one output instant.
pub struct Snapshot {
    pub iteration: usize,
    pub records: Vec<NodeRecord>,
}

/// What a completed run hands to the output collaborator: the snapshots
/// in order and the manifest of iteration indices, one per snapshot.
pub struct RunOutcome {
    pub iterations: usize,
    pub converged: bool,
    pub snapshots: Vec<Snapshot>,
    pub manifest: Vec<usize>,
}

/// Why a solver could not be built.
#[derive(Clone, Copy, Debug, PartialEq, Eq, Structural)]
pub enum SolverError {
    Config(ConfigError),
    Geometry(GeometryError),
}

/// The classification tag of a cell, with the solid test first and the
/// plane overrides next, as the initializer applies them.
pub open spec fn cell_tag(g: Geometry, i: int, j: int, k: int) -> NodeType {
    if g.solid_at(i, j, k) {
        NodeType::Solid
    } else if g.inlet_at(i, j, k) {
        NodeType::Inlet
    } else if g.outlet_at(i, j, k) {
        NodeType::Outlet
    } else {
        NodeType::Fluid
    }
}

/// The seeded velocity component of a fresh node: inlet nodes carry the
/// configured inlet velocity, fluid nodes a tenth of its x component to
/// hasten the onset of flow, solid and outlet nodes rest.
pub open spec fn init_vel(c: Config, tag: NodeType, a: int) -> int {
    match tag {
        NodeType::Inlet => c.physics.inlet_velocity@[a] as int,
        NodeType::Fluid => if a == 0 {
            (c.physics.inlet_velocity@[0] as int) / 10
        } else {
            0
        },
        _ => 0,
    }
}

/// What initialization leaves in a cell: the reference density and the
/// seeded velocity cached, and the distributions at their equilibrium.
pub open spec fn node_init_ok(c: Config, g: Geometry, i: int, j: int, k: int, node: LatticePoint) -> bool {
    let tag = cell_tag(g, i, j, k);
    &&& node.node_type == tag
    &&& node.density == c.physics.density
    &&& forall|a: int| 0 <= a < 3 ==> #[trigger] node.velocity@[a] as int == init_vel(c, tag, a)
    &&& node.f@.len() == 27
    &&& forall|d: int|
        0 <= d < 27 ==> #[trigger] node.f@[d] as int == feq_at(
            d,
            c.physics.density as int,
            init_vel(c, tag, 0),
            init_vel(c, tag, 1),
            init_vel(c, tag, 2),
        )
}

/// Whether one record's velocity magnitude lies strictly below the
/// tolerance, compared through squares.
pub open spec fn rec_slow(rec: NodeRecord, tol: int) -> bool {
    (rec.velocity@[0] as int) * (rec.velocity@[0] as int) + (rec.velocity@[1] as int) * (
    rec.velocity@[1] as int) + (rec.velocity@[2] as int) * (rec.velocity@[2] as int) < tol * tol
}

/// Whether every fluid record's velocity magnitude lies strictly below
/// the tolerance.
pub open spec fn records_below(recs: Seq<NodeRecord>, tol: int) -> bool {
    forall|c: int|
        0 <= c < recs.len() ==> ((#[trigger] recs[c]).node_type == NodeType::Fluid ==> rec_slow(
            recs[c],
            tol,
        ))
}

/// The default voxelizer thickness threshold: four fifths of the least
/// grid spacing, floored to a geometry unit.
pub open spec fn default_thickness_of(dx: int, dy: int, dz: int) -> int {
    (4 * min3s(dx, dy, dz)) / 5
}

/// The default voxelizer thickness threshold, executable.
pub fn default_thickness(dx: i64, dy: i64, dz: i64) -> (t: i64)
    requires
        1 <= dx <= 32768,
        1 <= dy <= 32768,
        1 <= dz <= 32768,
    ensures
        t as int == default_thickness_of(dx as int, dy as int, dz as int),
        0 <= t <= 32768,
{
    let md = min3_exec(dx, dy, dz);
    let q = div_floor(4 * (md as i128), 5);
    proof {
        lemma_div_magnitude(4 * (md as int), 5, 26215);
    }
    q as i64
}

/// The solver: configuration, classification, the two grid buffers, the
/// relaxation time and the iteration counter.
pub struct LBMSolver {
    pub config: Config,
    pub geometry: Geometry,
    pub grid: DomainGrid,
    pub scratch: DomainGrid,
    pub iteration: usize,
    pub tau: i64,
}

impl LBMSolver {
    /// Structural invariant tying the buffers, the classification and the
    /// configuration together.
    pub open spec fn wf(self) -> bool {
        &&& valid(self.config)
        &&& self.geometry.wf()
        &&& self.geometry.nx == self.config.domain.nx
        &&& self.geometry.ny == self.config.domain.ny
        &&& self.geometry.nz == self.config.domain.nz
        &&& self.grid.wf()
        &&& self.grid.nx == self.config.domain.nx
        &&& self.grid.ny == self.config.domain.ny
        &&& self.grid.nz == self.config.domain.nz
        &&& self.scratch.wf()
        &&& self.scratch.same_shape(self.grid)
        &&& self.tau as int == tau_of(self.config)
        &&& 32768 <= self.tau <= 0x100_0000_0000
    }

    /// The iterations performed so far.
    pub fn get_iteration(&self) -> (r: usize)
        ensures
            r == self.iteration,
    {
        self.iteration
    }

    /// The configuration of this run.
    pub fn get_config(&self) -> (r: &Config)
        ensures
            r == &self.config,
    {
        &self.config
    }

    /// The classification of this run.
    pub fn get_geometry(&self) -> (r: &Geometry)
        ensures
            r == &self.geometry,
    {
        &self.geometry
    }

    /// Build a solver: validate the configuration, classify the mesh with
    /// the default supersampling and thickness, and seed every node at
    /// the equilibrium of its tag's velocity.
    pub fn new(config: Config, triangles: &Vec<Triangle>) -> (r: Result<LBMSolver, SolverError>)
        ensures
            r matches Err(SolverError::Config(_)) <==> !valid(config),
            r is Ok ==> {
                let s = r->Ok_0;
                &&& s.wf()
                &&& s.config == config
                &&& s.iteration == 0
                &&& forall|i2: int, j2: int, k2: int|
                    #![trigger lin_at(config.domain.nx as int, config.domain.ny as int, i2, j2, k2)]
                    0 <= i2 < config.domain.nx && 0 <= j2 < config.domain.ny && 0 <= k2
                        < config.domain.nz ==> node_init_ok(
                        config,
                        s.geometry,
                        i2,
                        j2,
                        k2,
                        s.grid.nodes@[lin_at(
                            config.domain.nx as int,
                            config.domain.ny as int,
                            i2,
                            j2,
                            k2,
                        )],
                    )
                &&& forall|j2: int, k2: int|
                    0 <= j2 < config.domain.ny && 0 <= k2 < config.domain.nz ==> !s.geometry.solid_at(
                        0,
                        j2,
                        k2,
                    ) && !s.geometry.solid_at(config.domain.nx - 1, j2, k2)
            },
            (valid(config) && r is Err) ==> (r matches Err(SolverError::Geometry(_)) && (
            triangles@.len() == 0 || exists|ti: int|
                0 <= ti < triangles@.len() && !crate::geometry::tri_ok(
                    #[trigger] triangles@[ti],
                ))),
    {
        match config.validate() {
            Err(e) => {
                return Err(SolverError::Config(e));
            },
            Ok(()) => {},
        }
        let tau = config.calculate_tau();
        let nx = config.domain.nx;
        let ny = config.domain.ny;
        let nz = config.domain.nz;
        let thr = default_thickness(config.domain.dx, config.domain.dy, config.domain.dz);
        let geometry = match Geometry::from_triangles(
            triangles,
            nx,
            ny,
            nz,
            config.domain.dx,
            config.domain.dy,
            config.domain.dz,
            3,
            thr,
        ) {
            Err(e) => {
                return Err(SolverError::Geometry(e));
            },
            Ok(g) => g,
        };
        let density = config.physics.density;
        let vin = config.physics.inlet_velocity;
        proof {
            crate::fixed::lemma_div_in_range(vin@[0] as int, 10, -16384, 16384);
        }
        let seed_x = div_floor(vin[0] as i128, 10) as i64;
        let mut nodes: Vec<LatticePoint> = Vec::new();
        let mut scratch_nodes: Vec<LatticePoint> = Vec::new();
        let mut k: usize = 0;
        let mut c: usize = 0;
        proof {
            lemma_lin_wrap(nx as int, ny as int, 0, 0);
        }
        while k < nz
            invariant
                valid(config),
                geometry.wf(),
                geometry.nx == nx && geometry.ny == ny && geometry.nz == nz,
                nx == config.domain.nx && ny == config.domain.ny && nz == config.domain.nz,
                density == config.physics.density,
                vin == config.physics.inlet_velocity,
                seed_x as int == (vin@[0] as int) / 10,
                -16384 <= seed_x <= 16384,
                k <= nz,
                c as int == lin_at(nx as int, ny as int, 0, 0, k as int),
                c <= geometry.solid.len(),
                nodes.len() == c,
                scratch_nodes.len() == c,
                forall|cc: int| 0 <= cc < c ==> (#[trigger] nodes@[cc]).wf(),
                forall|cc: int| 0 <= cc < c ==> (#[trigger] scratch_nodes@[cc]).wf(),
                forall|i2: int, j2: int, k2: int|
                    #![trigger lin_at(nx as int, ny as int, i2, j2, k2)]
                    0 <= i2 < nx && 0 <= j2 < ny && 0 <= k2 < nz && lin_at(
                        nx as int,
                        ny as int,
                        i2,
                        j2,
                        k2,
                    ) < c ==> node_init_ok(
                        config,
                        geometry,
                        i2,
                        j2,
                        k2,
                        nodes@[lin_at(nx as int, ny as int, i2, j2, k2)],
                    ),
            decreases nz - k,
        {
            let mut j: usize = 0;
            while j < ny
                invariant
                    valid(config),
                    geometry.wf(),
                    geometry.nx == nx && geometry.ny == ny && geometry.nz == nz,
                    nx == config.domain.nx && ny == config.domain.ny && nz == config.domain.nz,
                    density == config.physics.density,
                    vin == config.physics.inlet_velocity,
                    seed_x as int == (vin@[0] as int) / 10,
                    -16384 <= seed_x <= 16384,
                    k < nz,
                    j <= ny,
                    c as int == lin_at(nx as int, ny as int, 0, j as int, k as int),
                    c <= geometry.solid.len(),
                    nodes.len() == c,
                    scratch_nodes.len() == c,
                    forall|cc: int| 0 <= cc < c ==> (#[trigger] nodes@[cc]).wf(),
                    forall|cc: int| 0 <= cc < c ==> (#[trigger] scratch_nodes@[cc]).wf(),
                    forall|i2: int, j2: int, k2: int|
                        #![trigger lin_at(nx as int, ny as int, i2, j2, k2)]
                        0 <= i2 < nx && 0 <= j2 < ny && 0 <= k2 < nz && lin_at(
                            nx as int,
                            ny as int,
                            i2,
                            j2,
                            k2,
                        ) < c ==> node_init_ok(
                            config,
                            geometry,
                            i2,
                            j2,
                            k2,
                            nodes@[lin_at(nx as int, ny as int, i2, j2, k2)],
                        ),
                decreases ny - j,
            {
                let mut i: usize = 0;
                while i < nx
                    invariant
                        valid(config),
                        geometry.wf(),
                        geometry.nx == nx && geometry.ny == ny && geometry.nz == nz,
                        nx == config.domain.nx && ny == config.domain.ny && nz == config.domain.nz,
                        density == config.physics.density,
                        vin == config.physics.inlet_velocity,
                        seed_x as int == (vin@[0] as int) / 10,
                        -16384 <= seed_x <= 16384,
                        k < nz,
                        j < ny,
                        i <= nx,
                        c as int == lin_at(nx as int, ny as int, i as int, j as int, k as int),
                        c <= geometry.solid.len(),
                        nodes.len() == c,
                        scratch_nodes.len() == c,
                        forall|cc: int| 0 <= cc < c ==> (#[trigger] nodes@[cc]).wf(),
                        forall|cc: int| 0 <= cc < c ==> (#[trigger] scratch_nodes@[cc]).wf(),
                        forall|i2: int, j2: int, k2: int|
                            #![trigger lin_at(nx as int, ny as int, i2, j2, k2)]
                            0 <= i2 < nx && 0 <= j2 < ny && 0 <= k2 < nz && lin_at(
                                nx as int,
                                ny as int,
                                i2,
                                j2,
                                k2,
                            ) < c ==> node_init_ok(
                                config,
                                geometry,
                                i2,
                                j2,
                                k2,
                                nodes@[lin_at(nx as int, ny as int, i2, j2, k2)],
                            ),
                    decreases nx - i,
                {
                    proof {
                        lemma_lin_bounds(nx as int, ny as int, nz as int, i as int, j as int, k as int);
                        assert(geometry.nx * (geometry.ny * geometry.nz)
                            == geometry.solid.len() as int);
                    }
                    let tag: NodeType = if geometry.is_solid(i, j, k) {
                        NodeType::Solid
                    } else if geometry.is_inlet(i, j, k) {
                        NodeType::Inlet
                    } else if geometry.is_outlet(i, j, k) {
                        NodeType::Outlet
                    } else {
                        NodeType::Fluid
                    };
                    let vel: [i64; 3] = if tag == NodeType::Inlet {
                        vin
                    } else if tag == NodeType::Fluid {
                        [seed_x, 0, 0]
                    } else {
                        [0, 0, 0]
                    };
                    let node = LatticePoint::new_equilibrium(density, vel, tag);
                    nodes.push(node);
                    let blank = LatticePoint::new_equilibrium(SCALE, [0, 0, 0], NodeType::Fluid);
                    scratch_nodes.push(blank);
                    proof {
                        assert forall|i2: int, j2: int, k2: int|
                            #![trigger lin_at(nx as int, ny as int, i2, j2, k2)]
                            0 <= i2 < nx && 0 <= j2 < ny && 0 <= k2 < nz && lin_at(
                                nx as int,
                                ny as int,
                                i2,
                                j2,
                                k2,
                            ) < c + 1 implies node_init_ok(
                            config,
                            geometry,
                            i2,
                            j2,
                            k2,
                            nodes@[lin_at(nx as int, ny as int, i2, j2, k2)],
                        ) by {
                            lemma_lin_bounds(nx as int, ny as int, nz as int, i2, j2, k2);
                            if lin_at(nx as int, ny as int, i2, j2, k2) == c as int {
                                lemma_lin_injective(
                                    nx as int,
                                    ny as int,
                                    nz as int,
                                    i2,
                                    j2,
                                    k2,
                                    i as int,
                                    j as int,
                                    k as int,
                                );
                            }
                        }
                    }
                    i = i + 1;
                    c = c + 1;
                }
                proof {
                    lemma_lin_wrap(nx as int, ny as int, j as int, k as int);
                }
                j = j + 1;
            }
            proof {
                lemma_lin_wrap(nx as int, ny as int, 0, k as int);
            }
            k = k + 1;
        }
        proof {
            assert((nx as int) * (0 + (ny as int) * (nz as int)) == (nx as int) * ((ny as int) * (
            nz as int))) by (nonlinear_arith);
            lemma_lin_bounds(nx as int, ny as int, nz as int, 0, 0, 0);
            assert(c as int == (nx as int) * ((ny as int) * (nz as int)));
            assert forall|i2: int, j2: int, k2: int|
                #![trigger lin_at(nx as int, ny as int, i2, j2, k2)]
                0 <= i2 < nx && 0 <= j2 < ny && 0 <= k2 < nz implies node_init_ok(
                config,
                geometry,
                i2,
                j2,
                k2,
                nodes@[lin_at(nx as int, ny as int, i2, j2, k2)],
            ) by {
                lemma_lin_bounds(nx as int, ny as int, nz as int, i2, j2, k2);
            }
        }
        let grid = DomainGrid { nx, ny, nz, nodes };
        let scratch = DomainGrid { nx, ny, nz, nodes: scratch_nodes };
        let solver = LBMSolver { config, geometry, grid, scratch, iteration: 0, tau };
        Ok(solver)
    }

    /// Advance the state by one full pipeline invocation and count it.
    pub fn step_once(&mut self)
        requires
            old(self).wf(),
            old(self).iteration < usize::MAX,
        ensures
            final(self).wf(),
            final(self).iteration == old(self).iteration + 1,
            final(self).config == old(self).config,
            final(self).geometry == old(self).geometry,
            final(self).tau == old(self).tau,
            final(self).grid.same_shape(old(self).grid),
            forall|c: int|
                0 <= c < old(self).grid.nodes.len() ==> collided_rel(
                    old(self).grid.nodes@[c],
                    #[trigger] final(self).scratch.nodes@[c],
                    old(self).tau as int,
                ),
            forall|i: int, j: int, k: int, d: int|
                old(self).grid.in_bounds(i, j, k) && 0 <= d < 27 ==> final(self).grid.nodes@[old(self).grid.lin(
                    i,
                    j,
                    k,
                )].f@[d] as int == #[trigger] step_out_f(
                    old(self).grid,
                    final(self).scratch,
                    i,
                    j,
                    k,
                    d,
                    old(self).config.physics.inlet_velocity@[0] as int,
                    old(self).config.physics.inlet_velocity@[1] as int,
                    old(self).config.physics.inlet_velocity@[2] as int,
                ),
            forall|c: int|
                0 <= c < old(self).grid.nodes.len() ==> (#[trigger] final(self).grid.nodes@[c]).node_type
                    == old(self).grid.nodes@[c].node_type,
    {
        let tau = self.tau;
        let vin = self.config.physics.inlet_velocity;
        step(&mut self.grid, &mut self.scratch, tau, vin);
        self.iteration = self.iteration + 1;
    }

    /// The per-node records of the current state: each cell's macroscopic
    /// density and velocity recovered from its distributions, with its
    /// tag, x axis fastest.
    pub fn snapshot(&self) -> (s: Snapshot)
        requires
            self.wf(),
        ensures
            s.iteration == self.iteration,
            s.records@.len() == self.grid.nodes.len(),
            forall|c: int|
                0 <= c < self.grid.nodes.len() ==> {
                    let rec = #[trigger] s.records@[c];
                    &&& rec.density as int == sum_f(self.grid.nodes@[c].f@, 27)
                    &&& (forall|a: int|
                        0 <= a < 3 ==> #[trigger] rec.velocity@[a] as int == vel_from(
                            self.grid.nodes@[c].f@,
                            a,
                        ))
                    &&& rec.node_type == self.grid.nodes@[c].node_type
                    &&& -V_LIMIT <= rec.velocity@[0] <= V_LIMIT
                    &&& -V_LIMIT <= rec.velocity@[1] <= V_LIMIT
                    &&& -V_LIMIT <= rec.velocity@[2] <= V_LIMIT
                },
    {
        let n = self.grid.nodes.len();
        let mut records: Vec<NodeRecord> = Vec::new();
        let mut c: usize = 0;
        while c < n
            invariant
                self.wf(),
                n == self.grid.nodes.len(),
                c <= n,
                records.len() == c,
                forall|cc: int|
                    0 <= cc < c ==> {
                        let rec = #[trigger] records@[cc];
                        &&& rec.density as int == sum_f(self.grid.nodes@[cc].f@, 27)
                        &&& (forall|a: int|
                            0 <= a < 3 ==> #[trigger] rec.velocity@[a] as int == vel_from(
                                self.grid.nodes@[cc].f@,
                                a,
                            ))
                        &&& rec.node_type == self.grid.nodes@[cc].node_type
                        &&& -V_LIMIT <= rec.velocity@[0] <= V_LIMIT
                        &&& -V_LIMIT <= rec.velocity@[1] <= V_LIMIT
                        &&& -V_LIMIT <= rec.velocity@[2] <= V_LIMIT
                    },
            decreases n - c,
        {
            let mut p = clone_point(&self.grid.nodes[c]);
            p.calculate_macroscopic();
            let rec = NodeRecord {
                density: p.density,
                velocity: p.velocity,
                node_type: p.node_type,
            };
            records.push(rec);
            c = c + 1;
        }
        Snapshot { iteration: self.iteration, records }
    }

    /// Whether every fluid record of a snapshot is below the convergence
    /// tolerance.
    pub fn check_convergence(records: &Vec<NodeRecord>, tolerance: i64) -> (r: bool)
        requires
            forall|c: int|
                0 <= c < records.len() ==> {
                    &&& -V_LIMIT <= (#[trigger] records@[c]).velocity@[0] <= V_LIMIT
                    &&& -V_LIMIT <= records@[c].velocity@[1] <= V_LIMIT
                    &&& -V_LIMIT <= records@[c].velocity@[2] <= V_LIMIT
                },
            0 <= tolerance <= 0x10_0000,
        ensures
            r == records_below(records@, tolerance as int),
    {
        let n = records.len();
        let mut ok = true;
        let mut c: usize = 0;
        while c < n
            invariant
                n == records.len(),
                c <= n,
                forall|cc: int|
                    0 <= cc < n ==> {
                        &&& -V_LIMIT <= (#[trigger] records@[cc]).velocity@[0] <= V_LIMIT
                        &&& -V_LIMIT <= records@[cc].velocity@[1] <= V_LIMIT
                        &&& -V_LIMIT <= records@[cc].velocity@[2] <= V_LIMIT
                    },
                0 <= tolerance <= 0x10_0000,
                ok == (forall|cc: int|
                    0 <= cc < c ==> ((#[trigger] records@[cc]).node_type == NodeType::Fluid
                        ==> rec_slow(records@[cc], tolerance as int))),
            decreases n - c,
        {
            let rec = &records[c];
            if rec.node_type == NodeType::Fluid {
                let v0 = rec.velocity[0];
                let v1 = rec.velocity[1];
                let v2 = rec.velocity[2];
                proof {
                    crate::fixed::lemma_mul_bound(v0 as int, v0 as int, V_LIMIT as int, V_LIMIT as int);
                    crate::fixed::lemma_mul_bound(v1 as int, v1 as int, V_LIMIT as int, V_LIMIT as int);
                    crate::fixed::lemma_mul_bound(v2 as int, v2 as int, V_LIMIT as int, V_LIMIT as int);
                    crate::fixed::lemma_mul_bound(
                        tolerance as int,
                        tolerance as int,
                        0x10_0000int,
                        0x10_0000int,
                    );
                    assert((v0 as int) * (v0 as int) == (records@[c as int].velocity@[0] as int) * (
                    records@[c as int].velocity@[0] as int)) by (nonlinear_arith)
                        requires
                            v0 == records@[c as int].velocity@[0],
                    ;
                    assert((v1 as int) * (v1 as int) == (records@[c as int].velocity@[1] as int) * (
                    records@[c as int].velocity@[1] as int)) by (nonlinear_arith)
                        requires
                            v1 == records@[c as int].velocity@[1],
                    ;
                    assert((v2 as int) * (v2 as int) == (records@[c as int].velocity@[2] as int) * (
                    records@[c as int].velocity@[2] as int)) by (nonlinear_arith)
                        requires
                            v2 == records@[c as int].velocity@[2],
                    ;
                }
                let m2: i64 = v0 * v0 + v1 * v1 + v2 * v2;
                if !(m2 < tolerance * tolerance) {
                    ok = false;
                }
            }
            c = c + 1;
        }
        ok
    }

    /// Run until convergence or the iteration cap: write a snapshot at
    /// every output interval (including the initial state), evaluate the
    /// convergence criterion only at those instants, and hand back the
    /// snapshots with the manifest of their iteration indices.
    pub fn run(&mut self) -> (r: RunOutcome)
        requires
            old(self).wf(),
            old(self).iteration == 0,
        ensures
            final(self).wf(),
            final(self).config == old(self).config,
            final(self).geometry == old(self).geometry,
            r.iterations == final(self).iteration,
            r.iterations <= old(self).config.simulation.max_iterations,
            r.converged || r.iterations == old(self).config.simulation.max_iterations,
            r.manifest@.len() == r.snapshots@.len(),
            forall|s: int|
                0 <= s < r.snapshots@.len() ==> #[trigger] r.manifest@[s] == r.snapshots@[s].iteration,
            forall|s: int|
                0 <= s < r.snapshots@.len() ==> (#[trigger] r.snapshots@[s]).records@.len()
                    == final(self).grid.nodes.len(),
            r.snapshots@.len() >= 1,
            r.converged ==> records_below(
                r.snapshots@[r.snapshots@.len() - 1].records@,
                old(self).config.simulation.convergence_tolerance as int,
            ),
    {
        let maxit = self.config.simulation.max_iterations;
        let freq = self.config.output.output_frequency;
        let tol = self.config.simulation.convergence_tolerance;
        let mut snapshots: Vec<Snapshot> = Vec::new();
        let mut manifest: Vec<usize> = Vec::new();
        let mut converged = false;
        let s0 = self.snapshot();
        manifest.push(s0.iteration);
        snapshots.push(s0);
        while self.iteration < maxit && !converged
            invariant
                self.wf(),
                self.config == old(self).config,
                self.geometry == old(self).geometry,
                maxit == self.config.simulation.max_iterations,
                freq == self.config.output.output_frequency,
                tol == self.config.simulation.convergence_tolerance,
                self.iteration <= maxit,
                manifest.len() == snapshots.len(),
                snapshots.len() >= 1,
                forall|s: int|
                    0 <= s < snapshots@.len() ==> #[trigger] manifest@[s]
                        == snapshots@[s].iteration,
                forall|s: int|
                    0 <= s < snapshots@.len() ==> (#[trigger] snapshots@[s]).records@.len()
                        == self.grid.nodes.len(),
                converged ==> records_below(
                    snapshots@[snapshots@.len() - 1].records@,
                    tol as int,
                ),
            decreases maxit - self.iteration + (if converged {
                0int
            } else {
                1int
            }),
        {
            self.step_once();
            if self.iteration % freq == 0 {
                let s = self.snapshot();
                converged = Self::check_convergence(&s.records, tol);
                manifest.push(s.iteration);
                snapshots.push(s);
            }
        }
        let iterations = self.iteration;
        RunOutcome { iterations, converged, snapshots, manifest }
    }
}

} // verus!
