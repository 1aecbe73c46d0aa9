//! Run configuration in fixed-point units, its validity conditions, and
//! the derivation of the relaxation time.
//!
//! Extents are cell counts; spacings are geometry units (`GEO_SCALE`);
//! physical quantities (velocities, density, viscosity, relaxation time,
//! tolerance, Reynolds number) are state units (`SCALE`).

use vstd::prelude::*;

use crate::fixed::{div_floor, lemma_mul_bound, SCALE, SCALE_RATIO};
use crate::geometry::{max3s, GEO_LIMIT};

verus! {

/// Domain extents and grid spacing.
#[derive(Clone, Debug)]
pub struct DomainConfig {
    pub nx: usize,
    pub ny: usize,
    pub nz: usize,
    pub dx: i64,
    pub dy: i64,
    pub dz: i64,
}

/// Physical parameters.
#[derive(Clone, Debug)]
pub struct PhysicsConfig {
    pub reynolds_number: i64,
    pub inlet_velocity: [i64; 3],
    pub density: i64,
    pub viscosity: Option<i64>,
}

/// Iteration control.
#[derive(Clone, Debug)]
pub struct SimulationConfig {
    pub max_iterations: usize,
    pub convergence_tolerance: i64,
    pub tau: Option<i64>,
}

/// Where and how often snapshots are handed to the output collaborator.
#[derive(Clone, Debug)]
pub struct OutputConfig {
    pub output_directory: String,
    pub output_frequency: usize,
    pub output_format: String,
}

/// The full run configuration.
#[derive(Clone, Debug)]
pub struct Config {
    pub domain: DomainConfig,
    pub physics: PhysicsConfig,
    pub simulation: SimulationConfig,
    pub output: OutputConfig,
}

/// Why a configuration was rejected.
#[derive(Clone, Copy, Debug, PartialEq, Eq, Structural)]
pub enum ConfigError {
    /// An extent is zero or too large, or the cell count overflows.
    InvalidExtent,
    /// A spacing is out of range, or the domain does not fit the
    /// representable geometry band.
    InvalidSpacing,
    /// The reference density is out of range.
    InvalidDensity,
    /// The Reynolds number is not positive.
    InvalidReynolds,
    /// An inlet velocity component is out of range, or the largest
    /// component is negative.
    InvalidVelocity,
    /// The explicit viscosity is out of range.
    InvalidViscosity,
    /// The explicit relaxation time is out of range.
    InvalidTau,
    /// The convergence tolerance is out of range.
    InvalidTolerance,
    /// The output interval is zero.
    InvalidOutputFrequency,
}

/// The extents are positive and the cell count fits.
pub open spec fn extents_ok(c: Config) -> bool {
    &&& 1 <= c.domain.nx < 0x4000_0000
    &&& 1 <= c.domain.ny < 0x4000_0000
    &&& 1 <= c.domain.nz < 0x4000_0000
    &&& (c.domain.nx as int) * ((c.domain.ny as int) * (c.domain.nz as int)) < 0x1_0000_0000
}

/// The spacings are positive and the domain extent along each axis stays
/// inside the representable geometry band.
pub open spec fn spacing_ok(c: Config) -> bool {
    &&& 1 <= c.domain.dx <= GEO_LIMIT
    &&& 1 <= c.domain.dy <= GEO_LIMIT
    &&& 1 <= c.domain.dz <= GEO_LIMIT
    &&& (c.domain.nx as int) * (c.domain.dx as int) <= GEO_LIMIT
    &&& (c.domain.ny as int) * (c.domain.dy as int) <= GEO_LIMIT
    &&& (c.domain.nz as int) * (c.domain.dz as int) <= GEO_LIMIT
}

/// The physical parameters lie in the bands the engine's contracts cover.
pub open spec fn physics_ok(c: Config) -> bool {
    &&& 1 <= c.physics.density <= 4 * SCALE
    &&& 1 <= c.physics.reynolds_number
    &&& forall|a: int| 0 <= a < 3 ==> -16384 <= #[trigger] c.physics.inlet_velocity@[a] <= 16384
    &&& max3s(
        c.physics.inlet_velocity@[0] as int,
        c.physics.inlet_velocity@[1] as int,
        c.physics.inlet_velocity@[2] as int,
    ) >= 0
    &&& (c.physics.viscosity matches Some(nu) ==> 0 <= nu <= 0x100_0000)
}

/// The iteration controls lie in their bands.
pub open spec fn simulation_ok(c: Config) -> bool {
    &&& (c.simulation.tau matches Some(t) ==> 32768 <= t <= 0x100_0000_0000)
    &&& 0 <= c.simulation.convergence_tolerance <= 0x10_0000
    &&& c.output.output_frequency >= 1
}

/// A configuration every contract of the engine covers.
pub open spec fn valid(c: Config) -> bool {
    extents_ok(c) && spacing_ok(c) && physics_ok(c) && simulation_ok(c)
}

/// The relaxation time a configuration denotes: the explicit value if
/// given; otherwise `3 nu / cs^2 + 1/2` with `cs^2 = 1/3`, the kinematic
/// viscosity `nu` being the explicit value if given and otherwise
/// `U L / Re` with `U` the largest inlet-velocity component and `L` the
/// grid spacing along x.
pub open spec fn tau_of(c: Config) -> int {
    match c.simulation.tau {
        Some(t) => t as int,
        None => {
            let nu = match c.physics.viscosity {
                Some(v) => v as int,
                None => (max3s(
                    c.physics.inlet_velocity@[0] as int,
                    c.physics.inlet_velocity@[1] as int,
                    c.physics.inlet_velocity@[2] as int,
                ) * ((c.domain.dx as int) * (SCALE_RATIO as int))) / (
                c.physics.reynolds_number as int),
            };
            9 * nu + 32768
        },
    }
}

impl Config {
    /// Check every validity condition, reporting the first violation.
    pub fn validate(&self) -> (r: Result<(), ConfigError>)
        ensures
            r is Ok <==> valid(*self),
            r == Result::<(), ConfigError>::Err(ConfigError::InvalidExtent) ==> !extents_ok(*self),
            r == Result::<(), ConfigError>::Err(ConfigError::InvalidSpacing) ==> !spacing_ok(
                *self,
            ),
            (r == Result::<(), ConfigError>::Err(ConfigError::InvalidDensity) || r
                == Result::<(), ConfigError>::Err(ConfigError::InvalidReynolds) || r
                == Result::<(), ConfigError>::Err(ConfigError::InvalidVelocity) || r
                == Result::<(), ConfigError>::Err(ConfigError::InvalidViscosity)) ==> !physics_ok(
                *self,
            ),
            (r == Result::<(), ConfigError>::Err(ConfigError::InvalidTau) || r
                == Result::<(), ConfigError>::Err(ConfigError::InvalidTolerance) || r
                == Result::<(), ConfigError>::Err(ConfigError::InvalidOutputFrequency))
                ==> !simulation_ok(*self),
    {
        let d = &self.domain;
        if !(1 <= d.nx && d.nx < 0x4000_0000 && 1 <= d.ny && d.ny < 0x4000_0000 && 1 <= d.nz
            && d.nz < 0x4000_0000) {
            return Err(ConfigError::InvalidExtent);
        }
        proof {
            lemma_mul_bound(d.ny as int, d.nz as int, 0x4000_0000int, 0x4000_0000int);
            lemma_mul_bound(d.nx as int, (d.ny as int) * (d.nz as int), 0x4000_0000int,
                0x1000_0000_0000_0000int);
        }
        let prod: u128 = (d.nx as u128) * ((d.ny as u128) * (d.nz as u128));
        if !(prod < 0x1_0000_0000) {
            return Err(ConfigError::InvalidExtent);
        }
        if !(1 <= d.dx && d.dx <= GEO_LIMIT && 1 <= d.dy && d.dy <= GEO_LIMIT && 1 <= d.dz && d.dz
            <= GEO_LIMIT) {
            return Err(ConfigError::InvalidSpacing);
        }
        proof {
            lemma_mul_bound(d.nx as int, d.dx as int, 0x4000_0000int, 32768);
            lemma_mul_bound(d.ny as int, d.dy as int, 0x4000_0000int, 32768);
            lemma_mul_bound(d.nz as int, d.dz as int, 0x4000_0000int, 32768);
        }
        if !((d.nx as i64) * d.dx <= GEO_LIMIT && (d.ny as i64) * d.dy <= GEO_LIMIT && (d.nz
            as i64) * d.dz <= GEO_LIMIT) {
            return Err(ConfigError::InvalidSpacing);
        }
        let p = &self.physics;
        if !(1 <= p.density && p.density <= 4 * SCALE) {
            return Err(ConfigError::InvalidDensity);
        }
        if !(1 <= p.reynolds_number) {
            return Err(ConfigError::InvalidReynolds);
        }
        let v0 = p.inlet_velocity[0];
        let v1 = p.inlet_velocity[1];
        let v2 = p.inlet_velocity[2];
        let vmax: i64 = if v0 >= v1 && v0 >= v2 {
            v0
        } else if v1 >= v2 {
            v1
        } else {
            v2
        };
        if !(-16384 <= v0 && v0 <= 16384 && -16384 <= v1 && v1 <= 16384 && -16384 <= v2 && v2
            <= 16384 && vmax >= 0) {
            return Err(ConfigError::InvalidVelocity);
        }
        match p.viscosity {
            Some(nu) => {
                if !(0 <= nu && nu <= 0x100_0000) {
                    return Err(ConfigError::InvalidViscosity);
                }
            },
            None => {},
        }
        let s = &self.simulation;
        match s.tau {
            Some(t) => {
                if !(32768 <= t && t <= 0x100_0000_0000) {
                    return Err(ConfigError::InvalidTau);
                }
            },
            None => {},
        }
        if !(0 <= s.convergence_tolerance && s.convergence_tolerance <= 0x10_0000) {
            return Err(ConfigError::InvalidTolerance);
        }
        if self.output.output_frequency < 1 {
            return Err(ConfigError::InvalidOutputFrequency);
        }
        Ok(())
    }

    /// The relaxation time this configuration denotes, in `SCALE` units.
    pub fn calculate_tau(&self) -> (t: i64)
        requires
            valid(*self),
        ensures
            t as int == tau_of(*self),
            32768 <= t <= 0x100_0000_0000,
    {
        match self.simulation.tau {
            Some(t) => t,
            None => {
                let nu: i64 = match self.physics.viscosity {
                    Some(v) => v,
                    None => {
                        let v0 = self.physics.inlet_velocity[0];
                        let v1 = self.physics.inlet_velocity[1];
                        let v2 = self.physics.inlet_velocity[2];
                        let vmax: i64 = if v0 >= v1 && v0 >= v2 {
                            v0
                        } else if v1 >= v2 {
                            v1
                        } else {
                            v2
                        };
                        proof {
                            lemma_mul_bound(vmax as int, (self.domain.dx as int) * 16, 16384,
                                524288);
                        }
                        let num: i128 = (vmax as i128) * ((self.domain.dx as i128) * (
                        SCALE_RATIO as i128));
                        let q = div_floor(num, self.physics.reynolds_number as i128);
                        proof {
                            crate::fixed::lemma_div_in_range(
                                num as int,
                                self.physics.reynolds_number as int,
                                0,
                                0x2_0000_0000,
                            );
                        }
                        q as i64
                    },
                };
                9 * nu + 32768
            },
        }
    }
}

} // verus!
