//! Normalises IATI aid-activity XML into a compact JSON schema: decoding of
//! raw file bytes, XML to JSON mapping with a retry on a known data defect,
//! projection of each activity onto a fixed set of fields with a derived
//! summary, and the merging of per-file outcomes.

use vstd::prelude::*;

pub mod convert;
pub mod decode;
pub mod error;
pub mod json;
pub mod laws;
pub mod number;
pub mod project;
pub mod text;
pub mod walk;

verus! {

} // verus!
