pub mod layered;
pub mod overlap;
pub mod source;
pub mod types;
pub mod validate;
