# editor_core

The core of a 2D scene editor, verified with Verus.

- `src/` is the verified library: scene documents and the command processor with
  its inverses, the undo/redo operation logs (scene, scene asset, logic graph),
  logic graphs with their evaluation, validation and topological order, the scene
  asset and `.bsn` export models, the runtime export plan, runtime deltas, the
  validation center, instance placement, the host message buses and project
  paths. Each public function states its result in its `ensures`; the laws that
  span several functions (what an undo restores, what a bus read gives back, what
  a de-duplication keeps) are public proof functions named `law_*`.
- `app/` is the unverified surface around it: process-wide state, JSON through
  serde, the floating-point parts of the exports, and the host-facing entry points.
- `tests/` runs the library on concrete values.
