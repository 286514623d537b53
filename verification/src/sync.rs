//! Per-object download decisions. The orchestration loop outside performs
//! network and disk work; these functions decide, from plain values, whether
//! any is needed: a bundle or file whose local content already carries the
//! declared hash is skipped, which makes a re-run on a current installation
//! a network no-op.

use vstd::prelude::*;
use crate::models::{Bundle, FileM};

verus! {

/// What to do about one remote object.
#[derive(PartialEq, Eq, Structural, Debug, Clone, Copy)]
pub enum SyncAction {
    Skip,
    Fetch,
}

/// Skip-if-current for a bundle: `local_hash` is the digest of the blob
/// already at the bundle's path, if one exists; the bundle is fetched unless
/// that digest equals the bundle's declared hash.
pub fn bundle_action(local_hash: Option<&String>, bundle: &Bundle) -> (a: SyncAction)
    ensures
        a == SyncAction::Skip <==> (local_hash matches Option::Some(h) && h@ == bundle@.hash),
{
    match local_hash {
        Option::Some(h) => if h.eq(&bundle.hash) {
            SyncAction::Skip
        } else {
            SyncAction::Fetch
        },
        Option::None => SyncAction::Fetch,
    }
}

/// Skip-if-current for a loose file, against the manifest's whole-file hash.
pub fn file_action(local_hash: Option<&String>, file: &FileM) -> (a: SyncAction)
    ensures
        a == SyncAction::Skip <==> (local_hash matches Option::Some(h) && h@ == file@.hash),
{
    match local_hash {
        Option::Some(h) => if h.eq(&file.hash) {
            SyncAction::Skip
        } else {
            SyncAction::Fetch
        },
        Option::None => SyncAction::Fetch,
    }
}

} // verus!
