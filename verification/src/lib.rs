//! Brute-force recovery of the passphrase protecting a PKCS#12 credential
//! bundle: candidate enumeration over a bounded alphabet and length range,
//! partitioning of the search space across workers, a shared result cell with
//! a single success transition, and a prefilter substitution point for an
//! accelerated screening stage.

use vstd::prelude::*;

pub mod bruteforce;
pub mod container;
pub mod cuda;
pub mod enumerate;
pub mod hashing;
pub mod partition;
pub mod prefilter;
pub mod result_cell;

verus! {

/// Fatal errors detected while setting up a search, before any candidate is
/// probed. These abort the run; a failed decryption of one candidate never
/// does.
#[derive(Clone, Copy, Debug, PartialEq, Eq, Structural)]
pub enum SetupError {
    /// The character set contains no symbols.
    EmptyCharset,
    /// The character set repeats a symbol.
    DuplicateSymbol,
    /// The character set contains the NUL character, which the decryption
    /// primitive cannot accept in a passphrase.
    UnsupportedSymbol,
    /// The minimum length exceeds the maximum length.
    InvalidBounds,
    /// The number of candidates in the space overflows a 64-bit count.
    SpaceTooLarge,
    /// The container bytes could not be parsed as a PKCS#12 bundle.
    MalformedContainer,
}

} // verus!
