# dustroute

A verified library for deterministic redstone physics and physical
redstone-circuit analysis.

- `src/` is the library, verified with Verus: the world model and block
  behaviour, world deltas, redstone propagation, piston planning, the
  event engine with its scheduler and traces, the physical circuit and
  scene model with patches, and the checks an optimization must pass
  (contracts, macro realization and search, safety).
- `tests/` exercises the library on concrete worlds and events.
- `app/` holds the dust path optimizer and the placement mutation search,
  which need the `dustroute_translate` crate (dust connectivity, wire
  shapes, placement circuits) and the wall clock; they use the library's
  types, path geometry and scores and are not verified. The other
  optimization planners (macro replacement planning and materialization,
  staged optimization, realization, reverse rewrites and the semantic
  scores) rest on that crate or on floating point throughout and are not
  part of this crate.
