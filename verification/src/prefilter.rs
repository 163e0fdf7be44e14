//! The accelerated-prefilter substitution point.
//!
//! A prefilter screens a batch of candidates cheaply before the expensive
//! decryption probe. Its one correctness obligation is to never cause a
//! false negative: it may mark a candidate as skippable only when that
//! candidate provably cannot open the container. The coordinator is written
//! once against this interface and behaves identically whichever
//! implementation is active; a prefilter is a throughput optimization only.

use vstd::prelude::*;
use crate::container::{decrypts, Container};

verus! {

pub trait Prefilter {
    /// Whether a capable accelerator is present. When it is not, the
    /// coordinator behaves exactly as if every candidate passed screening.
    fn available(&self) -> bool;

    /// Screens a batch: order-preserving, one verdict per candidate. `false`
    /// at position `k` promises that candidate `k` cannot decrypt the
    /// container and may be skipped; on any doubt the verdict must be
    /// `true`.
    fn screen(&self, container: &Container, batch: &Vec<Vec<char>>) -> (keep: Vec<bool>)
        ensures
            keep@.len() == batch@.len(),
            forall|k: int|
                0 <= k < batch@.len() && !keep@[k] ==> !decrypts(
                    container.der_bytes(),
                    batch@[k]@,
                ),
    ;
}

/// The default prefilter: no accelerator, nothing screened out.
pub struct NoPrefilter {}

impl Prefilter for NoPrefilter {
    fn available(&self) -> bool {
        false
    }

    fn screen(&self, container: &Container, batch: &Vec<Vec<char>>) -> (keep: Vec<bool>) {
        let mut keep: Vec<bool> = Vec::new();
        let mut k: usize = 0;
        while k < batch.len()
            invariant
                k <= batch@.len(),
                keep@.len() == k,
                forall|j: int| 0 <= j < k ==> keep@[j],
            decreases batch@.len() - k,
        {
            keep.push(true);
            k = k + 1;
        }
        keep
    }
}

} // verus!
