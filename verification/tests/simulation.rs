//! Grid-level scenarios: mass conservation over a pass, bounce-back,
//! voxelization of a cylinder, the boundary-plane override, and two
//! end-to-end runs.

use lattice_boltzmann::config::{
    Config, ConfigError, DomainConfig, OutputConfig, PhysicsConfig, SimulationConfig,
};
use lattice_boltzmann::geometry::{Geometry, GeometryError, Point3i, Triangle};
use lattice_boltzmann::lattice::LatticePoint;
use lattice_boltzmann::pipeline::{boundary_enforcement, collision, step, streaming, DomainGrid};
use lattice_boltzmann::solver::{LBMSolver, NodeRecord};
use lattice_boltzmann::{NodeType, D3Q27, GEO_SCALE, SCALE};

fn uniform_grid(nx: usize, ny: usize, nz: usize, density: i64, velocity: [i64; 3]) -> DomainGrid {
    let mut nodes = Vec::new();
    for _ in 0..nx * ny * nz {
        nodes.push(LatticePoint::new_equilibrium(density, velocity, NodeType::Fluid));
    }
    DomainGrid { nx, ny, nz, nodes }
}

fn total_mass(g: &DomainGrid) -> i64 {
    g.nodes.iter().map(|p| p.f.iter().sum::<i64>()).sum()
}

#[test]
fn mass_invariant_over_collision_streaming_pass() {
    // closed test grid: no inlet or outlet nodes, uniform state at rest
    let nx = 4;
    let ny = 4;
    let nz = 4;
    let mut a = uniform_grid(nx, ny, nz, SCALE, [0, 0, 0]);
    let mut b = uniform_grid(nx, ny, nz, SCALE, [0, 0, 0]);
    let before = total_mass(&a);
    let tau: i64 = 65536;
    collision(&a, &mut b, tau);
    streaming(&b, &mut a);
    let after = total_mass(&a);
    // collision floors each relaxation quotient, so the total can only
    // drift down, by less than 54 quanta per node at tau = 1; streaming
    // of a uniform state moves nothing
    let cells = (nx * ny * nz) as i64;
    assert!(after <= before);
    assert!(before - after <= 54 * cells);
    // relative drift stays below one part in a thousand
    assert!((before - after) * 1000 < before);
}

#[test]
fn bounce_back_reflects_every_component() {
    let mut g = uniform_grid(3, 1, 1, SCALE, [0, 0, 0]);
    // make the middle node solid with an asymmetric distribution vector
    let c = 1usize;
    g.nodes[c].node_type = NodeType::Solid;
    for d in 0..27usize {
        g.nodes[c].f[d] = 1000 + (d as i64) * 17;
    }
    let before = g.nodes[c].f.clone();
    boundary_enforcement(&mut g, [0, 0, 0]);
    for d in 0..27usize {
        assert_eq!(g.nodes[c].f[d], before[D3Q27::opposite(d)]);
    }
}

#[test]
fn outlet_copies_interior_neighbor() {
    let mut g = uniform_grid(3, 1, 1, SCALE, [0, 0, 0]);
    g.nodes[2].node_type = NodeType::Outlet;
    for d in 0..27usize {
        g.nodes[1].f[d] = 2000 + (d as i64) * 13;
    }
    let expected = g.nodes[1].f.clone();
    boundary_enforcement(&mut g, [0, 0, 0]);
    assert_eq!(g.nodes[2].f, expected);
}

fn cylinder_mesh(cx: f64, cy: f64, z0: f64, z1: f64, r: f64, segments: usize) -> Vec<Triangle> {
    let to_units = |x: f64, y: f64, z: f64| Point3i {
        x: (x * GEO_SCALE as f64).round() as i64,
        y: (y * GEO_SCALE as f64).round() as i64,
        z: (z * GEO_SCALE as f64).round() as i64,
    };
    let mut tris = Vec::new();
    for s in 0..segments {
        let a0 = 2.0 * std::f64::consts::PI * (s as f64) / (segments as f64);
        let a1 = 2.0 * std::f64::consts::PI * ((s + 1) as f64) / (segments as f64);
        let p00 = to_units(cx + r * a0.cos(), cy + r * a0.sin(), z0);
        let p10 = to_units(cx + r * a1.cos(), cy + r * a1.sin(), z0);
        let p01 = to_units(cx + r * a0.cos(), cy + r * a0.sin(), z1);
        let p11 = to_units(cx + r * a1.cos(), cy + r * a1.sin(), z1);
        // lateral surface
        tris.push(Triangle { a: p00, b: p10, c: p11 });
        tris.push(Triangle { a: p00, b: p11, c: p01 });
        // caps
        let c0 = to_units(cx, cy, z0);
        let c1 = to_units(cx, cy, z1);
        tris.push(Triangle { a: c0, b: p10, c: p00 });
        tris.push(Triangle { a: c1, b: p01, c: p11 });
    }
    tris
}

#[test]
fn cylinder_voxelization_count() {
    // a cylinder of radius 1.0 and height 0.8 in a 2.4 x 2.4 x 1.2 box
    // at spacing 0.1
    let dx = 409i64;
    let nx = 24usize;
    let nz = 12usize;
    let tris = cylinder_mesh(1.2, 1.2, 0.2, 1.0, 1.0, 48);
    let g = Geometry::from_triangles(&tris, nx, nx, nz, dx, dx, dx, 3, 327).unwrap();
    let mut count = 0usize;
    for k in 0..nz {
        for j in 0..nx {
            for i in 0..nx {
                if g.is_solid(i, j, k) {
                    count += 1;
                    // every solid cell hugs the cylinder: within one
                    // spacing of the surface band in radius and height
                    let x = (i as f64 + 0.5) * 0.1 - 1.2;
                    let y = (j as f64 + 0.5) * 0.1 - 1.2;
                    let z = (k as f64 + 0.5) * 0.1;
                    let rad = (x * x + y * y).sqrt();
                    assert!(rad <= 1.0 + 0.2);
                    assert!(z >= 0.2 - 0.2 && z <= 1.0 + 0.2);
                }
            }
        }
    }
    // the sampled surface shell tracks pi R^2 (H / dx) to within a
    // resolution-dependent band
    let expected = std::f64::consts::PI * 10.0 * 10.0 * 8.0;
    assert!(count > 0);
    assert!((count as f64) > expected * 0.25);
    assert!((count as f64) < expected * 1.5);
}

#[test]
fn plane_override_beats_mesh_geometry() {
    // a wall just inside the x = 0 plane, spanning the whole cross
    // section
    let p = |x: i64, y: i64, z: i64| Point3i { x, y, z };
    let tris = vec![
        Triangle { a: p(205, -409, -409), b: p(205, 8192, -409), c: p(205, 8192, 8192) },
        Triangle { a: p(205, -409, -409), b: p(205, 8192, 8192), c: p(205, -409, 8192) },
    ];
    let nx = 6usize;
    let ny = 4usize;
    let nz = 4usize;
    let g = Geometry::from_triangles(&tris, nx, ny, nz, 409, 409, 409, 3, 327).unwrap();
    for j in 0..ny {
        for k in 0..nz {
            // the mesh would have marked x = 0 solid; the override wins
            assert!(!g.is_solid(0, j, k));
            assert!(g.is_inlet(0, j, k));
            assert!(g.is_fluid(0, j, k));
            assert!(!g.is_solid(nx - 1, j, k));
            assert!(g.is_outlet(nx - 1, j, k));
            assert!(g.is_fluid(nx - 1, j, k));
            // the neighbors of the raw solid cells keep their
            // informational boundary mark
            assert!(g.is_boundary(1, j, k));
        }
    }
}

fn small_config(nx: usize, max_iterations: usize) -> Config {
    Config {
        domain: DomainConfig { nx, ny: 5, nz: 5, dx: 409, dy: 409, dz: 409 },
        physics: PhysicsConfig {
            reynolds_number: 100 * SCALE,
            inlet_velocity: [6554, 0, 0],
            density: SCALE,
            viscosity: None,
        },
        simulation: SimulationConfig {
            max_iterations,
            convergence_tolerance: 0,
            tau: Some(39322),
        },
        output: OutputConfig {
            output_directory: String::from("out"),
            output_frequency: 1,
            output_format: String::from("vtk"),
        },
    }
}

fn degenerate_obstacle() -> Vec<Triangle> {
    // a zero-area triangle: present, parsed, and skipped by the
    // voxelizer, leaving an obstacle-free domain
    let q = Point3i { x: 2048, y: 2048, z: 2048 };
    vec![Triangle { a: q, b: q, c: q }]
}

#[test]
fn open_channel_keeps_seeded_flow() {
    let config = small_config(10, 1);
    let tris = degenerate_obstacle();
    let mut solver = LBMSolver::new(config, &tris).unwrap();
    let outcome = solver.run();
    assert_eq!(outcome.iterations, 1);
    assert!(!outcome.converged);
    // the initial snapshot and the one written after the single step
    assert_eq!(outcome.snapshots.len(), 2);
    assert_eq!(outcome.manifest, vec![0, 1]);
    let last = &outcome.snapshots[1];
    let seed = 6554i64 / 10;
    for k in 1..4usize {
        for j in 1..4usize {
            for i in 2..8usize {
                let rec = &last.records[i + 10 * (j + 5 * k)];
                assert_eq!(rec.node_type, NodeType::Fluid);
                // velocity within 5% of the seeded value
                assert!((rec.velocity[0] - seed).abs() * 20 <= seed);
                assert!(rec.velocity[1].abs() * 20 <= seed);
                assert!(rec.velocity[2].abs() * 20 <= seed);
                // density within 1% of the reference
                assert!((rec.density - SCALE).abs() * 100 <= SCALE);
            }
        }
    }
}

#[test]
fn solid_node_reflects_and_leaks_no_momentum() {
    // a single solid node surrounded by stationary equilibrium fluid
    let nx = 3usize;
    let mut a = uniform_grid(nx, nx, nx, SCALE, [0, 0, 0]);
    let mut b = uniform_grid(nx, nx, nx, SCALE, [0, 0, 0]);
    let center = 1 + 3 * (1 + 3 * 1);
    a.nodes[center].node_type = NodeType::Solid;
    let before = a.nodes[center].f.clone();
    step(&mut a, &mut b, 65536, [0, 0, 0]);
    // the solid node's distributions equal its pre-step ones permuted by
    // the opposite map; at rest that permutation is invisible, so the
    // vector must be unchanged
    // quantization lets each component drift by a few quanta as the
    // surrounding fluid relaxes onto its own representable equilibrium
    for d in 0..27usize {
        assert!((a.nodes[center].f[d] - before[D3Q27::opposite(d)]).abs() <= 27);
    }
    // no momentum leaks into the neighbors: every other cell ends
    // bitwise identical to a control grid with no solid node at all
    let mut a2 = uniform_grid(nx, nx, nx, SCALE, [0, 0, 0]);
    let mut b2 = uniform_grid(nx, nx, nx, SCALE, [0, 0, 0]);
    step(&mut a2, &mut b2, 65536, [0, 0, 0]);
    for c in 0..a.nodes.len() {
        if c == center {
            continue;
        }
        assert_eq!(a.nodes[c].f, a2.nodes[c].f);
        a.nodes[c].calculate_macroscopic();
        a2.nodes[c].calculate_macroscopic();
        assert_eq!(a.nodes[c].velocity, a2.nodes[c].velocity);
    }
}

#[test]
fn empty_mesh_is_rejected() {
    let tris: Vec<Triangle> = Vec::new();
    let r = Geometry::from_triangles(&tris, 4, 4, 4, 409, 409, 409, 3, 327);
    assert_eq!(r.err().unwrap(), GeometryError::EmptyMesh);
}

#[test]
fn out_of_range_vertex_is_rejected() {
    let p = Point3i { x: 40000, y: 0, z: 0 };
    let q = Point3i { x: 0, y: 500, z: 0 };
    let s = Point3i { x: 0, y: 0, z: 500 };
    let tris = vec![Triangle { a: p, b: q, c: s }];
    let r = Geometry::from_triangles(&tris, 4, 4, 4, 409, 409, 409, 3, 327);
    assert_eq!(r.err().unwrap(), GeometryError::CoordinateOutOfRange);
}

#[test]
fn invalid_configurations_are_rejected() {
    let mut c = small_config(10, 1);
    c.domain.nx = 0;
    assert_eq!(c.validate().err().unwrap(), ConfigError::InvalidExtent);

    let mut c = small_config(10, 1);
    c.domain.dx = 0;
    assert_eq!(c.validate().err().unwrap(), ConfigError::InvalidSpacing);

    let mut c = small_config(10, 1);
    c.physics.density = 0;
    assert_eq!(c.validate().err().unwrap(), ConfigError::InvalidDensity);

    let mut c = small_config(10, 1);
    c.physics.reynolds_number = 0;
    assert_eq!(c.validate().err().unwrap(), ConfigError::InvalidReynolds);

    let mut c = small_config(10, 1);
    c.physics.inlet_velocity = [-100, -200, -300];
    assert_eq!(c.validate().err().unwrap(), ConfigError::InvalidVelocity);

    let mut c = small_config(10, 1);
    c.physics.viscosity = Some(-5);
    assert_eq!(c.validate().err().unwrap(), ConfigError::InvalidViscosity);

    let mut c = small_config(10, 1);
    c.simulation.tau = Some(100);
    assert_eq!(c.validate().err().unwrap(), ConfigError::InvalidTau);

    let mut c = small_config(10, 1);
    c.simulation.convergence_tolerance = -1;
    assert_eq!(c.validate().err().unwrap(), ConfigError::InvalidTolerance);

    let mut c = small_config(10, 1);
    c.output.output_frequency = 0;
    assert_eq!(c.validate().err().unwrap(), ConfigError::InvalidOutputFrequency);

    let bad = {
        let mut c = small_config(10, 1);
        c.domain.ny = 0;
        c
    };
    let r = LBMSolver::new(bad, &degenerate_obstacle());
    assert!(r.is_err());

    // a valid configuration with an empty mesh fails on the geometry side
    let empty: Vec<Triangle> = Vec::new();
    let r2 = LBMSolver::new(small_config(10, 1), &empty);
    match r2 {
        Err(lattice_boltzmann::SolverError::Geometry(e)) => {
            assert_eq!(e, GeometryError::EmptyMesh)
        },
        _ => panic!("expected a geometry error"),
    }
}

#[test]
fn derived_tau_follows_the_formula() {
    let mut c = small_config(10, 1);
    c.simulation.tau = None;
    c.physics.viscosity = None;
    assert!(c.validate().is_ok());
    // nu = U * L / Re with U the largest inlet component and L = dx;
    // tau = 3 nu / cs^2 + 1/2 = 9 nu + 1/2 in scale units
    let nu = (6554i64 * (409 * 16)) / (100 * SCALE);
    assert_eq!(c.calculate_tau(), 9 * nu + 32768);

    let mut c2 = small_config(10, 1);
    c2.simulation.tau = None;
    c2.physics.viscosity = Some(1000);
    assert_eq!(c2.calculate_tau(), 9 * 1000 + 32768);

    let c3 = small_config(10, 1);
    assert_eq!(c3.calculate_tau(), 39322);
}

#[test]
fn convergence_check_is_exact_on_the_threshold() {
    let below = NodeRecord { density: SCALE, velocity: [3, 0, 0], node_type: NodeType::Fluid };
    let at = NodeRecord { density: SCALE, velocity: [4, 0, 0], node_type: NodeType::Fluid };
    let solid_fast =
        NodeRecord { density: SCALE, velocity: [100, 0, 0], node_type: NodeType::Solid };
    let recs = vec![below, solid_fast];
    assert!(LBMSolver::check_convergence(&recs, 4));
    let recs2 = vec![below, at];
    assert!(!LBMSolver::check_convergence(&recs2, 4));
}

#[test]
fn streaming_pulls_from_the_upwind_neighbor() {
    // two cells along x with distinct marker values per direction
    let mut a = uniform_grid(2, 1, 1, SCALE, [0, 0, 0]);
    let mut b = uniform_grid(2, 1, 1, SCALE, [0, 0, 0]);
    for d in 0..27usize {
        b.nodes[0].f[d] = 10_000 + d as i64;
        b.nodes[1].f[d] = 20_000 + d as i64;
        a.nodes[0].f[d] = 30_000 + d as i64;
        a.nodes[1].f[d] = 40_000 + d as i64;
    }
    let b_left = b.nodes[0].f.clone();
    let b_right = b.nodes[1].f.clone();
    let a_left = a.nodes[0].f.clone();
    let a_right = a.nodes[1].f.clone();
    streaming(&b, &mut a);
    for d in 0..27usize {
        let c = D3Q27::velocity(d);
        // cell 0 pulls direction d from (0 - cx, -cy, -cz)
        let expect0 = match (-c.0, c.1 == 0 && c.2 == 0) {
            (0, true) => b_left[d],
            (1, true) => b_right[d],
            _ => a_left[d],
        };
        assert_eq!(a.nodes[0].f[d], expect0);
        let expect1 = match (1 - c.0, c.1 == 0 && c.2 == 0) {
            (0, true) => b_left[d],
            (1, true) => b_right[d],
            _ => a_right[d],
        };
        assert_eq!(a.nodes[1].f[d], expect1);
    }
}

#[test]
fn boundary_enforcement_leaves_fluid_untouched() {
    let mut g = uniform_grid(3, 1, 1, SCALE, [0, 0, 0]);
    for d in 0..27usize {
        g.nodes[1].f[d] = 5_000 + d as i64;
    }
    let before = g.nodes[1].f.clone();
    boundary_enforcement(&mut g, [6554, 0, 0]);
    assert_eq!(g.nodes[1].f, before);
}

#[test]
fn inlet_takes_equilibrium_at_configured_velocity() {
    let mut g = uniform_grid(2, 1, 1, SCALE, [0, 0, 0]);
    g.nodes[0].node_type = NodeType::Inlet;
    let rho: i64 = g.nodes[0].f.iter().sum();
    let vin = [6554i64, 0, 0];
    boundary_enforcement(&mut g, vin);
    for d in 0..27usize {
        assert_eq!(g.nodes[0].f[d], LatticePoint::equilibrium_distribution(d, rho, vin));
    }
}

