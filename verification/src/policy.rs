//! The overwrite policy's decision and the extractor's destination arithmetic.
//! Whether an existing destination may be replaced depends only on the `force`
//! flag; the filesystem effect itself stays outside the library.

use vstd::prelude::*;

use crate::StoreError;
use crate::paths::{join, join_path, parent_dir, parent_of};

verus! {

/// An existing destination may be replaced only under `force`; a fresh one may
/// always be written.
pub open spec fn overwrite_allowed(exists: bool, force: bool) -> bool {
    force || !exists
}

/// The overwrite decision for one destination: refused exactly when the
/// destination exists and `force` is false, so nothing is ever truncated
/// without consent.
pub fn check_overwrite(exists: bool, force: bool) -> (r: Result<(), StoreError>)
    ensures
        r is Ok <==> overwrite_allowed(exists, force),
        r is Err ==> r->Err_0 == StoreError::AlreadyExists,
{
    if exists && !force {
        Err(StoreError::AlreadyExists)
    } else {
        Ok(())
    }
}

/// The destination of one extracted entry: its archive path resolved relative
/// to the directory that contains the container file itself.
pub fn extract_destination(container_path: &Vec<char>, entry: &Vec<char>) -> (r: Vec<char>)
    ensures
        r@ == join(parent_dir(container_path@), entry@),
{
    let parent = parent_of(container_path);
    join_path(&parent, entry)
}

} // verus!
