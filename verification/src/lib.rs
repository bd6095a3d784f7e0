//! Log analysis for security events: parsing of system logs, grouping of
//! events per actor, rule-based intent detection and summaries.

pub mod text;
pub mod models;
pub mod matching;
pub mod parser;
pub mod groups;
pub mod grouping;
pub mod utils;
pub mod detection;
pub mod order;
pub mod storage;
pub mod pipeline;
pub mod laws;
pub mod grouping_laws;
