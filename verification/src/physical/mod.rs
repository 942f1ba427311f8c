//! The physical circuit layer: verified topology, port-level scenes,
//! reversible patches and temporal assessment.

pub mod circuit;
pub mod patch;
pub mod scene;
pub mod temporal;
