//! The gates of the lane conversion and the lookup table they share.

pub mod lane;
pub mod running_sum;
pub mod tables;
pub mod witness;
