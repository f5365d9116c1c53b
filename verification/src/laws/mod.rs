//! What holds of the library as a whole, beyond the contract of each function.

pub mod contexts;
pub mod decisions;
pub mod delivery;
pub mod equality;
pub mod expertise;
pub mod keeping;
pub mod lists;
pub mod log;
pub mod numbers;
pub mod people;
pub mod ranking;
pub mod reading;
pub mod replay;
pub mod traces;
pub mod verification;
pub mod versions;
pub mod wording;
