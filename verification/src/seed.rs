//! Seeding a generator from the operating system's entropy source.
use vstd::prelude::*;

verus! {

/// The error type of the `getrandom` crate.
#[verifier::external_type_specification]
#[verifier::external_body]
pub struct ExGetrandomError(getrandom::Error);

/// Calls `getrandom::u64`, which asks the system's preferred random number
/// source for a `u64`. Nothing is stated of the value or of when an error
/// comes back: both depend on the operating system.
#[verifier::external_body]
pub(crate) fn os_random_u64() -> (r: Result<u64, getrandom::Error>) {
    getrandom::u64()
}

/// The operating system's entropy source could not provide a seed; `cause`
/// is the error that it reported.
#[derive(Clone, Copy, Debug)]
pub struct SeedError {
    pub cause: getrandom::Error,
}

} // verus!
