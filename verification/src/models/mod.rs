//! The records that flow through the analysis.

pub mod event;
