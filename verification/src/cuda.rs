//! The accelerated variant of the brute-force cracker: a drop-in substitute
//! for the CPU path. The candidate space, the partitioning and the retained
//! password are identical whichever variant runs; acceleration may only
//! screen candidates through the prefilter interface, never change the
//! outcome. The device plumbing itself lives outside the library.

use vstd::prelude::*;
use crate::bruteforce::{search_outcome_ok, setup_error, BruteforceCracker};
use crate::container::Container;
use crate::prefilter::Prefilter;
use crate::result_cell::CrackResult;
use crate::SetupError;

verus! {

/// Brute force cracker that prefers an accelerated path when one is
/// available, and otherwise behaves exactly like the CPU cracker.
pub struct CudaBruteforceCracker {
    pub inner: BruteforceCracker,
}

impl CudaBruteforceCracker {
    /// Creates a new acceleration-ready brute force cracker.
    pub fn new(min_len: u8, max_len: u8, charset: String) -> (r: Self)
        ensures
            r.inner.min_len == min_len,
            r.inner.max_len == max_len,
            r.inner.charset@ == charset@,
    {
        CudaBruteforceCracker { inner: BruteforceCracker::new(min_len, max_len, charset) }
    }

    /// Runs the search through the accelerated prefilter `pf` where one is
    /// available, and otherwise exactly as the CPU cracker would. The
    /// outcome is the same either way.
    pub fn crack_with<P: Prefilter>(
        &self,
        container: &Container,
        cell: &mut CrackResult,
        workers: u64,
        pf: &P,
    ) -> (r: Result<(), SetupError>)
        requires
            workers >= 1,
            !old(cell).found,
            old(cell).wf(),
        ensures
            r is Err <==> setup_error(self.inner.charset@, self.inner.min_len, self.inner.max_len)
                is Some,
            r matches Err(e) ==> setup_error(
                self.inner.charset@,
                self.inner.min_len,
                self.inner.max_len,
            ) == Some(e) && *final(cell) == *old(cell),
            r is Ok ==> search_outcome_ok(
                container.der_bytes(),
                self.inner.charset@,
                self.inner.min_len as nat,
                self.inner.max_len as nat + 1,
                *final(cell),
            ),
    {
        self.inner.crack_with(container, cell, workers, pf)
    }

    /// Runs the search with no accelerator present: the exact CPU path.
    pub fn crack(&self, container: &Container, cell: &mut CrackResult, workers: u64) -> (r: Result<
        (),
        SetupError,
    >)
        requires
            workers >= 1,
            !old(cell).found,
            old(cell).wf(),
        ensures
            r is Err <==> setup_error(self.inner.charset@, self.inner.min_len, self.inner.max_len)
                is Some,
            r matches Err(e) ==> setup_error(
                self.inner.charset@,
                self.inner.min_len,
                self.inner.max_len,
            ) == Some(e) && *final(cell) == *old(cell),
            r is Ok ==> search_outcome_ok(
                container.der_bytes(),
                self.inner.charset@,
                self.inner.min_len as nat,
                self.inner.max_len as nat + 1,
                *final(cell),
            ),
    {
        self.inner.crack(container, cell, workers)
    }
}

} // verus!
