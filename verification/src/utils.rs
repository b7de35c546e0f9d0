pub mod config;
pub mod cpuspinarray;
pub mod gpurng;
