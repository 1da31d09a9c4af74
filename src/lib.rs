//! Integer algorithms: binary gcd, closest-sum pair and maximum subarray sum.
pub mod closest_pair;
pub mod error;
pub mod gcd;
pub mod max_subarray;
pub mod unsigned;

pub use closest_pair::{closest_sum_pair, Elements};
pub use error::InputError;
pub use gcd::gcd;
pub use max_subarray::max_subarray_sum;
pub use unsigned::UnsignedInt;
