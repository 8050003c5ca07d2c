//! The remote-read adapter: reading and bounding requests, transforming what was selected, framing
//! and compressing the response, and the answers to failures.

pub mod answers;
pub mod decode;
pub mod distributed;
pub mod errors;
pub mod execution;
pub mod fanout;
pub mod laws;
pub mod model;
pub mod protocol;
pub mod request;
pub mod response;
pub mod results;
pub mod scan;
pub mod session;
pub mod transform;
pub mod union;
pub mod wire;
