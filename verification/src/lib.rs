pub mod entities;
pub mod errors;
