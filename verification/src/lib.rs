//! Verified core of an OpenSSH access compiler: policy validation, request
//! evaluation and issuance planning.
pub mod text;
pub mod policy;
pub mod evaluator;
pub mod plan;
pub mod laws;
