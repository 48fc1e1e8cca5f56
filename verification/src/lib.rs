//! A read-only package registry library: path-safety validation for
//! request-derived path fragments, semantic-version resolution over a
//! package's version directories, JSON encoding of package metadata,
//! and the outcome decisions of the two HTTP endpoints.

use vstd::prelude::*;

pub mod handlers;
pub mod metadata;
pub mod paths;
pub mod resolve;

verus! {

} // verus!
