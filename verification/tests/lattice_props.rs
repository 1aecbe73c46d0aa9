//! Node-level properties: equilibrium mass, BGK fixed point, moment
//! recovery and the opposite-direction map.

use lattice_boltzmann::lattice::LatticePoint;
use lattice_boltzmann::{NodeType, D3Q27, SCALE};

fn sum_equilibrium(density: i64, velocity: [i64; 3]) -> i64 {
    let mut sum: i64 = 0;
    let mut i: usize = 0;
    while i < 27 {
        sum += LatticePoint::equilibrium_distribution(i, density, velocity);
        i += 1;
    }
    sum
}

#[test]
fn equilibrium_sums_to_density_at_rest() {
    let rho = SCALE;
    let total = sum_equilibrium(rho, [0, 0, 0]);
    // each of the 27 floored quotients loses less than one quantum
    assert!(total <= rho && rho - total < 27);
}

#[test]
fn equilibrium_sums_to_density_moving() {
    let rho = 3 * SCALE / 2;
    let u = [3277, -1311, 655];
    let total = sum_equilibrium(rho, u);
    assert!(total <= rho && rho - total < 27);
}

#[test]
fn equilibrium_sums_to_density_extreme_band() {
    let rho = 4 * SCALE;
    let u = [16384, 16384, -16384];
    let total = sum_equilibrium(rho, u);
    assert!(total <= rho && rho - total < 27);
}

#[test]
fn equilibrium_rest_values_exact() {
    // at rest the bracket is exactly 2 * SCALE^2, so direction 0 carries
    // floor(64 * rho * 2 * SCALE^2 / (432 * SCALE^2)) = floor(rho * 64 / 216)
    let rho = SCALE;
    let f0 = LatticePoint::equilibrium_distribution(0, rho, [0, 0, 0]);
    assert_eq!(f0, rho * 64 / 216);
    let f1 = LatticePoint::equilibrium_distribution(1, rho, [0, 0, 0]);
    assert_eq!(f1, rho * 16 / 216);
    let f19 = LatticePoint::equilibrium_distribution(19, rho, [0, 0, 0]);
    assert_eq!(f19, rho / 216);
}

#[test]
fn bgk_relaxation_fixes_equilibrium() {
    let rho = SCALE;
    let u = [3277, 655, -1311];
    let mut p = LatticePoint::new_equilibrium(rho, u, NodeType::Fluid);
    let before = p.f.clone();
    // the cached moments are exactly the ones the equilibrium was built
    // from, so relaxation reproduces every distribution bit for bit
    p.collide(65536);
    assert_eq!(p.f, before);
    // and again with a different relaxation time
    p.collide(39322);
    assert_eq!(p.f, before);
}

#[test]
fn macroscopic_recovers_moments() {
    let mut p = LatticePoint::new_equilibrium(SCALE, [0, 0, 0], NodeType::Fluid);
    // perturb one moving pair asymmetrically: +x gains, -x loses
    p.f[1] += 600;
    p.f[2] -= 600;
    let expected_density: i64 = p.f.iter().sum();
    p.calculate_macroscopic();
    assert_eq!(p.density, expected_density);
    // momentum along x is +1200 in distribution units
    let expected_vx = 1200i64 * SCALE / expected_density;
    assert_eq!(p.velocity[0], expected_vx);
    assert_eq!(p.velocity[1], 0);
    assert_eq!(p.velocity[2], 0);
}

#[test]
fn macroscopic_zero_density_gives_zero_velocity() {
    let mut p = LatticePoint::new_equilibrium(SCALE, [0, 0, 0], NodeType::Fluid);
    for v in p.f.iter_mut() {
        *v = 0;
    }
    p.calculate_macroscopic();
    assert_eq!(p.density, 0);
    assert_eq!(p.velocity, [0, 0, 0]);
}

#[test]
fn opposite_is_the_geometric_negation() {
    for i in 0..27usize {
        let o = D3Q27::opposite(i);
        assert_eq!(D3Q27::opposite(o), i);
        let c = D3Q27::velocity(i);
        let co = D3Q27::velocity(o);
        assert_eq!(co.0, -c.0);
        assert_eq!(co.1, -c.1);
        assert_eq!(co.2, -c.2);
        assert_eq!(D3Q27::weight_numerator(i), D3Q27::weight_numerator(o));
    }
}

#[test]
fn weights_sum_to_the_common_denominator() {
    let mut total: i64 = 0;
    for i in 0..27usize {
        total += D3Q27::weight_numerator(i);
    }
    assert_eq!(total, D3Q27::WEIGHT_DEN);
}

#[test]
fn collision_conserves_mass_closely() {
    let rho = SCALE;
    let u = [3277, 0, 0];
    let mut p = LatticePoint::new_equilibrium(rho, u, NodeType::Fluid);
    // push the node off equilibrium, preserving its mass
    p.f[3] += 500;
    p.f[4] -= 500;
    let before: i64 = p.f.iter().sum();
    p.calculate_macroscopic();
    let tau: i64 = 65536;
    p.collide(tau);
    let after: i64 = p.f.iter().sum();
    // mass never rises and drops by less than 27 * (SCALE + tau) / tau
    assert!(after <= before);
    assert!((before - after) * tau < 27 * (SCALE + tau));
}
