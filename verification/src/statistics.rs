pub mod savestate;
pub mod topological;
