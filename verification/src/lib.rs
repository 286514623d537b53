//! Content-addressed asset synchronizer core.
//!
//! Given a decoded manifest describing a file tree (fragments holding files
//! and downloadable bundles), this library resolves content hashes to file
//! placements, decides which bundles are already current on disk, and
//! scatter-writes each fetched byte range to every destination that shares
//! its hash. All I/O stays outside; the library works on plain values.

use vstd::prelude::*;

pub mod models;
pub mod resolve;
pub mod scatter;
pub mod extract;
pub mod hex;
pub mod digest;
pub mod decode;
pub mod version;
pub mod urls;
pub mod sync;
pub mod ranges;

verus! {

/// Decides whether a locally computed content hash already matches the hash
/// the manifest declares, i.e. whether a download can be skipped.
pub fn is_up_to_date(current: &String, expected: &String) -> (r: bool)
    ensures
        r == (current@ == expected@),
{
    current.eq(expected)
}

} // verus!
