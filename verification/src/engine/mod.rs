//! Engine-side logic shared by the modal banks and the plucked string.

pub mod driven;
pub mod pluck;
pub mod rng;
