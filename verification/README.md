# nphysics (verified core)

The bookkeeping of a rigid-body physics engine, verified with Verus.

- `src/impulse_cache.rs`: the impulse cache of the constraint solver (contacts and impulses
  of the previous step and of the step being built; warm starting across steps).
- `src/contact.rs`: contact identifiers bucketed on a grid, and the contact table.
- `src/body.rs`, `src/body_force_generator.rs`, `src/body_smp_euler_integrator.rs`: the
  bodies a force generator or an integrator acts on, and what they write into them.
- `src/fixed.rs`: fixed joints and their anchors.
- `src/euler.rs`: Euler steps without rotation on integer coordinates.
- `app/lib.rs`: floating-point bodies, rotations (with `nalgebra`) and the time step loop.
