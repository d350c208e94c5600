pub mod types;
pub mod env;
pub mod bind;
pub mod native;
pub mod eval;
pub mod laws;
pub mod show;
