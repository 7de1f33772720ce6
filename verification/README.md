# dynbem_rs

Verified core of a rotor-aerodynamics library (blade-element momentum,
dynamic inflow and vortex-particle wake models).

`src/` is checked by Verus. It holds the parts of the library that decide
rather than compute in floating point:

- `rotor_profile` — model names, the profiler's command line and the session
  it plans;
- `aero_model` — inflow integration methods and how their names are read;
- `vpm` — wake-engine selection, the per-step wake plan (evaluator, FIFO
  truncation, merge gate), averaging windows, persisted-state shape checks,
  and the wake-settling controller;
- `barnes_hut` — octree shape, its pre-order flattening with escape links and
  eight-slot packed leaf blocks, the stackless walk step, octant bucketing;
- `merge` — the tree-collapse walk of the wake merge;
- `rotor_yaml`, `rotor_definition`, `polar` — loading rules for rotor files
  and polar tables;
- `theory_report` — report statuses, totals and time stamps;
- `text` — the string helpers these use.

`app/` is thin glue around the library: the profiler's command line
(`profile_cli`), reading rotor files and polar tables (file I/O, the serde
YAML parse, the `f64` fields), the report writer, and the `f32` octree build,
Barnes-Hut evaluation and wake merge of the vortex-particle code, which take
their decisions (leaf rule, octant buckets, flattened walk, collapse walk)
from the library.

Not present in `app/`: the floating-point aerodynamic models themselves
(blade-element momentum, Pitt-Peters and Øye inflow), the vortex-particle
march, the trim solver and the mechanical equations of motion. The library's
decision functions for them (`WakeControls::plan_step`, `Settler`,
`averaging_start`, `table_fits_rotor`, `blade_state_reusable`,
`parse_integration_method`) are verified and tested, but nothing in `app/`
calls them yet. `tests/` exercises the library.
