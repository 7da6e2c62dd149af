//! Content discovery engine: corpus building, response classification,
//! calibration against a server's generic responses, and a bounded scheduler.

pub mod args;
pub mod corpus;
pub mod decider;
pub mod output;
pub mod rules;
pub mod scan;
pub mod tech;
pub mod text;
