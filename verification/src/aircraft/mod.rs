//! Aircraft display: statistics, labels, the "last seen" timer and the
//! choice of 3D model.

pub mod labels;
pub mod models;
pub mod stats;
