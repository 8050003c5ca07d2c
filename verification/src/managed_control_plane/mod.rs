//! The managed control plane: deployments and tenants, the requests that change them, the audit
//! trail of those requests, and the admission of tenant traffic.

pub mod admissions;
pub mod decisions;
pub mod fields;
pub mod laws;
pub mod plane;
pub mod requests;
pub mod state;
pub mod status;
pub mod tenant_policy;
pub mod types;
