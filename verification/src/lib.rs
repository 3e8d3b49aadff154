//! A fixed-width 256-bit unsigned integer built from four 64-bit limbs,
//! intended as a deterministic arithmetic primitive for consensus-critical
//! numeric computations.

pub mod bytes;
pub mod laws;
pub mod math;
pub mod u256;

pub use u256::U256;
