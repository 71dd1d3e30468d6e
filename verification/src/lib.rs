//! Local caching and data-normalization core of a Canvas LMS command-line
//! client: decides when remote data must be refetched versus served from a
//! time-bounded cache, normalizes raw course and assignment records into
//! sortable view rows, and drives the per-course refresh loop.

pub mod cache;
pub mod days;
pub mod model;
pub mod normalize;
pub mod orchestrate;
pub mod sort;
