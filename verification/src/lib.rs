//! A D3Q27 Lattice-Boltzmann flow solver over fixed-point arithmetic.
//!
//! State quantities (densities, velocities, distribution values, relaxation
//! times) are scaled integers: multiples of `1/fixed::SCALE`.  Geometry
//! coordinates use a coarser quantum, `1/fixed::GEO_SCALE` of the same
//! physical unit.  Every operation of the engine is specified exactly over
//! mathematical integers, including where a quotient is floored.

pub mod config;
pub mod fixed;
pub mod geometry;
pub mod lattice;
pub mod pipeline;
pub mod solver;

pub use config::{Config, ConfigError, DomainConfig, OutputConfig, PhysicsConfig, SimulationConfig};
pub use fixed::{GEO_SCALE, SCALE};
pub use geometry::{Geometry, GeometryError, Point3i, Triangle};
pub use lattice::{D3Q27, LatticePoint, NodeType};
pub use pipeline::DomainGrid;
pub use solver::{LBMSolver, NodeRecord, RunOutcome, Snapshot, SolverError};
