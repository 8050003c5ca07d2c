//! Recording and alerting rules: their configuration, their durable state, their evaluation and
//! what is shown of them.

pub mod acceptance;
pub mod accounting;
pub mod alert;
pub mod cluster;
pub mod copies;
pub mod counters;
pub mod definitions;
pub mod durations;
pub mod evaluation;
pub mod fingerprint;
pub mod input;
pub mod labels;
pub mod laws;
pub mod limits;
pub mod load;
pub mod model;
pub mod persist;
pub mod projection;
pub mod recording;
pub mod replace;
pub mod reserved;
pub mod restart;
pub mod runs;
pub mod runtime;
pub mod schedule;
pub mod scheduling;
pub mod shown;
pub mod status;
pub mod store;
pub mod time;
pub mod types;
pub mod update;
pub mod upper;
pub mod validate;
