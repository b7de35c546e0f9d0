pub mod accessgpuspins;
pub mod field;
pub mod interactions;
pub mod launchgpu;
pub mod lithomask;
