pub mod createplot;
pub mod interpolategrid;
