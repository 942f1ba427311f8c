//! Optimization support: the reports a macro replacement is verified
//! against, the contracts an optimization must meet, the selection of
//! phased layout scores, and the safety gate that decides whether a
//! verified optimization may be applied, and the position geometry of
//! the dust path optimizer.

pub mod contract;
pub mod macro_realize;
pub mod macro_search;
pub mod phased;
pub mod physical;
pub mod placement;
pub mod safety;
pub mod wire_geometry;
