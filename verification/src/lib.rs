//! Bounded server-side stores of a time-series database: rules, metric metadata, the managed
//! control plane and the remote-read adapter, with their admission and accounting rules proved.

pub mod budget;
pub mod capacity;
pub mod json;
pub mod managed_control_plane;
pub mod metadata_store;
pub mod names;
pub mod ordered;
pub mod reading;
pub mod remote_read;
pub mod rules;
pub mod series;
pub mod sizes;
pub mod stable;
pub mod text;
