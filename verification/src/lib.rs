//! Verified core of an APRIL (AOSC Package Reconstruction Information
//! Listing) processor: a Debian version comparator, a boolean expression
//! language over versions, a manifest model with its planner, and the
//! pure parts of the reconstruction executor.

pub mod control;
pub mod errors;
pub mod manifest;
pub mod paths;
pub mod plan;
pub mod resource;
pub mod strutil;
pub mod version;
pub mod version_expr;
