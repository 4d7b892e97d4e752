//! A verified core for collecting frequency statistics of EXIF metadata
//! over a directory tree: bounded-depth classification of candidate files,
//! per-file field extraction with partial-failure tolerance, frequency
//! aggregation, and report rendering.

use vstd::prelude::*;

pub mod aggregate;
pub mod classify;
pub mod extract;
pub mod fields;
pub mod freq;
pub mod report;
pub mod year;

verus! {

/// Parameters of one scan request: the root directory to scan.
pub struct ReportReqParams {
    pub path: String,
}

} // verus!
