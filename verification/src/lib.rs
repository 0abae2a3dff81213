//! The bookkeeping of a rigid-body physics engine: the impulse cache that carries contact
//! impulses from one step to the next, the registries of the bodies that force generators and
//! integrators act on, fixed joints, and Euler steps for bodies that do not rotate.
//!
//! Coordinates, time steps and impulses are integers (`i64`); vector and
//! transform types that only pass through (accelerations, joint positions) are generic.
//! Rotations and everything else that needs floating point live outside this crate.
pub mod arith;
pub mod body;
pub mod body_force_generator;
pub mod body_smp_euler_integrator;
pub mod contact;
pub mod euler;
pub mod fixed;
pub mod impulse_cache;
pub mod signal;
