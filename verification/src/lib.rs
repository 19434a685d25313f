//! A declarative error-taxonomy library.
//!
//! Given an ordered, non-empty list of named tags (categories of failure),
//! this crate builds a family of tag descriptors: each tag wraps an arbitrary
//! type-erased error while remembering which tag produced it, a dispatch
//! operation recognises at runtime which tag (if any) wrapped a given error
//! and hands the original error to a caller-supplied handler, and an optional
//! aggregate "main error" forms a closed sum over the tags with an exhaustive
//! consumption operation.

pub mod aggregate;
pub mod erased;
pub mod family;
pub mod naming;
pub mod spec_model;
