//! Verified core of an atomistic Landau-Lifshitz-Gilbert spin simulation of
//! hematite: the lattice index layout, periodic neighbour arithmetic, the
//! interaction tables handed to the GPU kernel, the kernel's counter-based
//! random state, the launch schedule, the save-state byte format and the
//! configuration-file grammar.
pub mod simulation;
pub mod statistics;
pub mod utils;
pub mod visualisation;
