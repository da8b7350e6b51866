pub mod ratio;
pub mod regression;
pub mod sums;

pub use ratio::Ratio;
pub use regression::{FitError, LinearRegression, MAX_EXACT_SAMPLES};
