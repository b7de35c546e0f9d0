# hematite

An atomistic Landau-Lifshitz-Gilbert spin simulation of hematite that runs
on the GPU. This crate is split in two:

- `src/` is the verified library: the flattened lattice layout and its
  inverse, periodic neighbour wrap-around, the finite-difference stencil of
  the topological charge, the packing of the pair interactions into the
  arrays the kernel reads, the kernel's neighbour addressing and
  counter-based random state (as host functions; see below), the launch schedule, the save-state byte
  format, the selection of plotted cuts, and the configuration-file grammar
  with the exact decimal factor of every unit suffix. Every function there
  carries a contract that Verus proves; the laws that tie functions
  together (address round trips, save/load round trips, what the kernel
  reads back from the packed tables, full coverage of the dispatch) are
  public proof functions.
- `app/` is the program around it: reading and writing files and images,
  floating-point physics (fields, the RK4 step, statistics, plotting), and
  the GPU kernels, which cubecl compiles for the device.

The GPU kernels cannot call host code, so the device runs `#[cube]` copies
of the kernel helpers (`accessgpuspins`, `gpurng`, and the addressing of
`field::interaction_index` / `pair_address`) that `app/` repeats line for
line. Those copies are not verified; the versions in `src/` are the
verified statement of what they compute, and nothing checks that the two
stay the same.

The modules mirror the program: `simulation`, `statistics`, `utils` and
`visualisation`.
