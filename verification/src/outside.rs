//! Declarations of the outside types that the library carries through.

use libloading::Error as LoaderError;
use vstd::prelude::*;

verus! {

/// The operating system's error value, carried through unchanged.
#[verifier::external_type_specification]
#[verifier::external_body]
pub struct ExIoError(std::io::Error);

/// The dynamic loader's error value, carried through unchanged.
#[verifier::external_type_specification]
#[verifier::external_body]
pub struct ExLibloadingError(LoaderError);

} // verus!
