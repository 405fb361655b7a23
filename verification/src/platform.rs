//! Declarations of the standard-library types that the library carries
//! through its state without looking inside, and the one shared-pointer
//! operation it needs.
use std::sync::Arc;
use vstd::prelude::*;

verus! {

/// A file-system path; the library only moves it around.
#[verifier::external_type_specification]
#[verifier::external_body]
pub struct ExPathBuf(std::path::PathBuf);

/// An I/O error reported by the standard library.
#[verifier::external_type_specification]
#[verifier::external_body]
pub struct ExIoError(std::io::Error);

/// Calls `Arc::clone`, which the standard library documents as making a
/// new pointer to the same allocation: the result denotes the same value.
#[verifier::external_body]
pub fn arc_clone<T>(a: &Arc<T>) -> (r: Arc<T>)
    ensures
        r == *a,
{
    Arc::clone(a)
}

} // verus!
