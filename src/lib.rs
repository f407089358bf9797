//! Search index over a mirrored package registry: per-package version
//! resolution, manifest description selection, a compact cache format and a
//! tiered search with aligned, highlighted output.

pub mod functions;
pub mod order;
pub mod krate;
pub mod search;
pub mod render;
pub mod index;
