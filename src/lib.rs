//! Decision logic of a static content server: an ordered set of content
//! roots, the fixed table of logical pages, the static mounts derived from
//! the roots, request dispatch, and page / not-found resolution over the
//! outcome of probing each root.

pub mod routes;
pub mod text;
pub mod resolve;
pub mod roots;
pub mod mounts;
pub mod pipeline;
pub mod laws;
