//! Breadth-first exploration of a transaction graph: starting from a seed
//! address, each level collects every outgoing transfer recipient whose
//! transaction lies strictly after a cutoff time, and a text report is
//! accumulated along the way.

pub mod candidates;
pub mod dedup;
pub mod explore;
pub mod fetch;
pub mod laws;
pub mod model;
pub mod report;
