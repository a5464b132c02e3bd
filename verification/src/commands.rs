pub mod compile;
pub mod diff;
pub mod hash;
pub mod validate;
