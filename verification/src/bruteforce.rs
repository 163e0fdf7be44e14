//! The search coordinator and its workers.
//!
//! The coordinator runs the state machine Idle → Partitioning → Running →
//! (Found | Exhausted | Failed): it sizes the space with the overflow check,
//! splits it into one contiguous partition per worker, and drives each
//! worker over its partition in increasing index order. Workers poll the
//! shared result cell before every probe and stop as soon as any worker has
//! reported success; with a fixed partition assignment the retained password
//! is the hit with the smallest global index, whatever the worker count and
//! whatever prefilter is active.

use vstd::prelude::*;
use crate::container::{decrypts, Container};
use crate::enumerate::{
    checked_space, distinct_symbols, global_cand, global_candidate,
    lemma_global_index_of_global_cand, space_size, valid_charset,
};
use crate::partition::{contiguous_cover, lemma_chain_end_bounded, partition_space};
use crate::prefilter::{NoPrefilter, Prefilter};
use crate::result_cell::CrackResult;
use crate::SetupError;

verus! {

/// Candidates are screened and probed in batches of this size when an
/// accelerated prefilter is active.
pub const SCREEN_BATCH: u64 = 64;

/// Whether the candidate at global index `g` of the space opens the
/// container encoded by `der`.
pub open spec fn hit(der: Seq<u8>, cs: Seq<char>, lo: nat, hi_ex: nat, g: nat) -> bool {
    decrypts(der, global_cand(cs, lo, hi_ex, g))
}

/// No candidate with a global index in `[a, b)` opens the container.
pub open spec fn no_hit_in(der: Seq<u8>, cs: Seq<char>, lo: nat, hi_ex: nat, a: nat, b: nat) -> bool {
    forall|g: nat| a <= g < b ==> !#[trigger] hit(der, cs, lo, hi_ex, g)
}

/// The charset contains the NUL character.
pub open spec fn has_nul(cs: Seq<char>) -> bool {
    exists|i: int| 0 <= i < cs.len() && cs[i] == '\0'
}

/// The fatal setup error of a parameter set, if any, checked in this order;
/// `None` means the search may run.
pub open spec fn setup_error(cs: Seq<char>, min_len: u8, max_len: u8) -> Option<SetupError> {
    if cs.len() == 0 {
        Some(SetupError::EmptyCharset)
    } else if !distinct_symbols(cs) {
        Some(SetupError::DuplicateSymbol)
    } else if has_nul(cs) {
        Some(SetupError::UnsupportedSymbol)
    } else if min_len > max_len {
        Some(SetupError::InvalidBounds)
    } else if space_size(cs.len(), min_len as nat, max_len as nat + 1) > u64::MAX {
        Some(SetupError::SpaceTooLarge)
    } else {
        None
    }
}

/// What the result cell says after a completed (non-failed) search of the
/// space of lengths `[lo, hi_ex)`: found exactly when some candidate opens
/// the container, and then the retained password is the hit with the
/// smallest global index; exhausted means every single candidate was ruled
/// out.
pub open spec fn search_outcome_ok(
    der: Seq<u8>,
    cs: Seq<char>,
    lo: nat,
    hi_ex: nat,
    cell: CrackResult,
) -> bool {
    let total = space_size(cs.len(), lo, hi_ex);
    &&& cell.wf()
    &&& (cell.found <==> exists|g: nat| g < total && #[trigger] hit(der, cs, lo, hi_ex, g))
    &&& (cell.found ==> exists|g: nat|
        g < total && #[trigger] hit(der, cs, lo, hi_ex, g) && no_hit_in(der, cs, lo, hi_ex, 0, g)
            && cell.password_view() == Some(global_cand(cs, lo, hi_ex, g)))
    &&& (!cell.found ==> cell.password is None && no_hit_in(der, cs, lo, hi_ex, 0, total))
}

/// A completed search outcome is a function of the container bytes and the
/// search parameters alone: two cells that both satisfy it agree. This is
/// what makes the final result independent of the worker count and of the
/// prefilter in use.
pub proof fn lemma_outcome_deterministic(
    der: Seq<u8>,
    cs: Seq<char>,
    lo: nat,
    hi_ex: nat,
    a: CrackResult,
    b: CrackResult,
)
    requires
        search_outcome_ok(der, cs, lo, hi_ex, a),
        search_outcome_ok(der, cs, lo, hi_ex, b),
    ensures
        a.found == b.found,
        a.password_view() == b.password_view(),
{
    if a.found {
        let ga = choose|g: nat|
            g < space_size(cs.len(), lo, hi_ex) && #[trigger] hit(der, cs, lo, hi_ex, g)
                && no_hit_in(der, cs, lo, hi_ex, 0, g) && a.password_view() == Some(
                global_cand(cs, lo, hi_ex, g),
            );
        let gb = choose|g: nat|
            g < space_size(cs.len(), lo, hi_ex) && #[trigger] hit(der, cs, lo, hi_ex, g)
                && no_hit_in(der, cs, lo, hi_ex, 0, g) && b.password_view() == Some(
                global_cand(cs, lo, hi_ex, g),
            );
        assert(ga == gb);
    }
}

/// Prefix coverage and a freshly scanned block merge into one covered
/// prefix.
proof fn lemma_no_hit_merge(der: Seq<u8>, cs: Seq<char>, lo: nat, hi_ex: nat, a: nat, m: nat, b: nat)
    requires
        a <= m <= b,
        no_hit_in(der, cs, lo, hi_ex, a, m),
        no_hit_in(der, cs, lo, hi_ex, m, b),
    ensures
        no_hit_in(der, cs, lo, hi_ex, a, b),
{
    assert forall|g: nat| a <= g < b implies !#[trigger] hit(der, cs, lo, hi_ex, g) by {
        if g < m {
            assert(!hit(der, cs, lo, hi_ex, g));
        } else {
            assert(!hit(der, cs, lo, hi_ex, g));
        }
    }
}

/// A brute-force password search over a charset and a length range.
pub struct BruteforceCracker {
    pub min_len: u8,
    pub max_len: u8,
    pub charset: Vec<char>,
}

/// Index space already covered once the first `k` partitions are scanned.
pub open spec fn covered_upto(parts: Seq<(u64, u64)>, k: int) -> nat {
    if k <= 0 {
        0
    } else {
        parts[k - 1].1 as nat
    }
}

impl BruteforceCracker {
    /// Creates a cracker for the given length bounds and charset. The
    /// parameters are validated when a search starts, not here.
    pub fn new(min_len: u8, max_len: u8, charset: String) -> (r: Self)
        ensures
            r.min_len == min_len,
            r.max_len == max_len,
            r.charset@ == charset@,
    {
        let s = charset.as_str();
        let n = s.unicode_len();
        let mut symbols: Vec<char> = Vec::new();
        let mut i: usize = 0;
        while i < n
            invariant
                i <= n,
                n == charset@.len(),
                s@ == charset@,
                symbols@ == charset@.take(i as int),
            decreases n - i,
        {
            let c = s.get_char(i);
            symbols.push(c);
            proof {
                assert(charset@.take(i as int + 1) =~= charset@.take(i as int).push(charset@[i as int]));
            }
            i = i + 1;
        }
        proof {
            assert(charset@.take(n as int) =~= charset@);
        }
        BruteforceCracker { min_len, max_len, charset: symbols }
    }

    /// Sizes the search space, validating the parameters first: the Idle →
    /// Partitioning transition, or the immediate transition to Failed.
    fn validate(&self) -> (r: Result<u64, SetupError>)
        ensures
            r is Err <==> setup_error(self.charset@, self.min_len, self.max_len) is Some,
            r matches Err(e) ==> setup_error(self.charset@, self.min_len, self.max_len) == Some(e),
            r matches Ok(total) ==> {
                &&& valid_charset(self.charset@)
                &&& self.min_len <= self.max_len
                &&& total == space_size(
                    self.charset@.len(),
                    self.min_len as nat,
                    self.max_len as nat + 1,
                )
            },
    {
        if self.charset.len() == 0 {
            return Err(SetupError::EmptyCharset);
        }
        if !charset_distinct(&self.charset) {
            return Err(SetupError::DuplicateSymbol);
        }
        if !charset_nul_free(&self.charset) {
            return Err(SetupError::UnsupportedSymbol);
        }
        if self.min_len > self.max_len {
            return Err(SetupError::InvalidBounds);
        }
        match checked_space(self.charset.len() as u64, self.min_len, self.max_len) {
            Some(total) => Ok(total),
            None => Err(SetupError::SpaceTooLarge),
        }
    }

    /// Runs the whole search against `container`, splitting the space over
    /// `workers` workers and screening batches through `pf` where an
    /// accelerator is available: Idle → Partitioning → Running, ending in
    /// Found (the cell holds the hit with the smallest global index),
    /// Exhausted (every candidate ruled out, the cell untouched), or Failed
    /// (a setup error, returned before anything is probed). The outcome is
    /// a function of the container bytes and the parameters alone: the
    /// worker count and the prefilter never change it.
    pub fn crack_with<P: Prefilter>(
        &self,
        container: &Container,
        cell: &mut CrackResult,
        workers: u64,
        pf: &P,
    ) -> (r: Result<(), SetupError>)
        requires
            workers >= 1,
            !old(cell).found,
            old(cell).wf(),
        ensures
            r is Err <==> setup_error(self.charset@, self.min_len, self.max_len) is Some,
            r matches Err(e) ==> setup_error(self.charset@, self.min_len, self.max_len) == Some(e)
                && *final(cell) == *old(cell),
            r is Ok ==> search_outcome_ok(
                container.der_bytes(),
                self.charset@,
                self.min_len as nat,
                self.max_len as nat + 1,
                *final(cell),
            ),
    {
        // Idle → Partitioning: size the space, rejecting bad parameters.
        let total = match self.validate() {
            Ok(t) => t,
            Err(e) => {
                return Err(e);
            },
        };
        let use_filter = pf.available();
        // Partitioning → Running: one contiguous range per worker.
        let parts = partition_space(total, workers);
        let ghost der = container.der_bytes();
        let ghost cs = self.charset@;
        let ghost lo = self.min_len as nat;
        let ghost hi_ex = self.max_len as nat + 1;
        let mut k: usize = 0;
        let mut done = false;
        while k < parts.len() && !done
            invariant
                valid_charset(cs),
                cs == self.charset@,
                self.min_len <= self.max_len,
                lo == self.min_len as nat,
                hi_ex == self.max_len as nat + 1,
                der == container.der_bytes(),
                total == space_size(cs.len(), lo, hi_ex),
                parts@.len() == workers,
                workers >= 1,
                contiguous_cover(parts@, total),
                k <= parts@.len(),
                old(cell).wf(),
                !old(cell).found,
                cell.wf(),
                done ==> cell.found,
                !cell.found ==> *cell == *old(cell) && no_hit_in(
                    der,
                    cs,
                    lo,
                    hi_ex,
                    0,
                    covered_upto(parts@, k as int),
                ),
                cell.found ==> exists|g: nat|
                    g < total && #[trigger] hit(der, cs, lo, hi_ex, g) && no_hit_in(
                        der,
                        cs,
                        lo,
                        hi_ex,
                        0,
                        g,
                    ) && cell.password_view() == Some(global_cand(cs, lo, hi_ex, g)),
            decreases parts@.len() - k + (if done {
                0int
            } else {
                1int
            }),
        {
            let p = parts[k];
            let s = p.0;
            let e = p.1;
            proof {
                lemma_chain_end_bounded(parts@, total, k as int);
                assert(s as nat == covered_upto(parts@, k as int));
            }
            let ghost cell_before = *cell;
            if use_filter {
                scan_range_screened(
                    container,
                    &self.charset,
                    self.min_len,
                    self.max_len,
                    s,
                    e,
                    cell,
                    pf,
                );
            } else {
                scan_range(container, &self.charset, self.min_len, self.max_len, s, e, cell);
            }
            proof {
                if !cell.found {
                    lemma_no_hit_merge(der, cs, lo, hi_ex, 0, s as nat, e as nat);
                    assert(covered_upto(parts@, k as int + 1) == e as nat);
                } else if !cell_before.found {
                    let g = choose|g: nat|
                        s <= g < e && #[trigger] hit(der, cs, lo, hi_ex, g) && no_hit_in(
                            der,
                            cs,
                            lo,
                            hi_ex,
                            s as nat,
                            g,
                        ) && cell.password_view() == Some(global_cand(cs, lo, hi_ex, g));
                    lemma_no_hit_merge(der, cs, lo, hi_ex, 0, s as nat, g);
                }
            }
            // Running → Found: halt the remaining workers as soon as the
            // cell reports success.
            if cell.is_found() {
                done = true;
            } else {
                k = k + 1;
            }
        }
        proof {
            if !cell.found {
                // Running → Exhausted: every partition was scanned in full.
                assert(k == parts@.len());
                assert(covered_upto(parts@, k as int) == total);
                assert forall|g: nat| !(g < total && #[trigger] hit(der, cs, lo, hi_ex, g)) by {
                    if g < total {
                        assert(!hit(der, cs, lo, hi_ex, g));
                    }
                }
            }
        }
        Ok(())
    }

    /// Runs the search without any prefilter: every candidate goes straight
    /// to the decryption probe. The outcome contract is identical to
    /// `crack_with`.
    pub fn crack(&self, container: &Container, cell: &mut CrackResult, workers: u64) -> (r: Result<
        (),
        SetupError,
    >)
        requires
            workers >= 1,
            !old(cell).found,
            old(cell).wf(),
        ensures
            r is Err <==> setup_error(self.charset@, self.min_len, self.max_len) is Some,
            r matches Err(e) ==> setup_error(self.charset@, self.min_len, self.max_len) == Some(e)
                && *final(cell) == *old(cell),
            r is Ok ==> search_outcome_ok(
                container.der_bytes(),
                self.charset@,
                self.min_len as nat,
                self.max_len as nat + 1,
                *final(cell),
            ),
    {
        let pf = NoPrefilter {  };
        self.crack_with(container, cell, workers, &pf)
    }
}

/// A candidate drawn from a valid charset never contains the NUL character,
/// so it is acceptable to the decryption probe.
proof fn lemma_candidate_nul_free(cs: Seq<char>, lo: nat, hi_ex: nat, g: nat)
    requires
        valid_charset(cs),
        lo <= hi_ex,
        g < space_size(cs.len(), lo, hi_ex),
    ensures
        forall|k: int|
            0 <= k < global_cand(cs, lo, hi_ex, g).len() ==> global_cand(cs, lo, hi_ex, g)[k]
                != '\0',
{
    lemma_global_index_of_global_cand(cs, lo, hi_ex, g);
    let s = global_cand(cs, lo, hi_ex, g);
    assert forall|k: int| 0 <= k < s.len() implies s[k] != '\0' by {
        assert(cs.contains(s[k]));
        let i = choose|i: int| 0 <= i < cs.len() && cs[i] == s[k];
        assert(cs[i] != '\0');
    }
}

/// One worker's loop over its partition `[start, end)` without screening:
/// poll the shared cell, derive the candidate from the index, probe it, and
/// report the first success. On return either the cell was already found
/// and is untouched, or every index of the partition up to the reported hit
/// has been ruled out.
fn scan_range(
    container: &Container,
    cs: &Vec<char>,
    lo: u8,
    hi: u8,
    start: u64,
    end: u64,
    cell: &mut CrackResult,
)
    requires
        valid_charset(cs@),
        lo <= hi,
        start <= end,
        end <= space_size(cs@.len(), lo as nat, hi as nat + 1),
        old(cell).wf(),
    ensures
        final(cell).wf(),
        old(cell).found ==> *final(cell) == *old(cell),
        (!old(cell).found && !final(cell).found) ==> *final(cell) == *old(cell) && no_hit_in(
            container.der_bytes(),
            cs@,
            lo as nat,
            hi as nat + 1,
            start as nat,
            end as nat,
        ),
        (!old(cell).found && final(cell).found) ==> exists|g: nat|
            start <= g < end && #[trigger] hit(container.der_bytes(), cs@, lo as nat, hi as nat + 1, g)
                && no_hit_in(container.der_bytes(), cs@, lo as nat, hi as nat + 1, start as nat, g)
                && final(cell).password_view() == Some(
                global_cand(cs@, lo as nat, hi as nat + 1, g),
            ),
{
    let ghost der = container.der_bytes();
    let ghost hi_ex = hi as nat + 1;
    if cell.is_found() {
        return ;
    }
    let mut g: u64 = start;
    while g < end
        invariant
            valid_charset(cs@),
            lo <= hi,
            hi_ex == hi as nat + 1,
            der == container.der_bytes(),
            start <= g <= end,
            end <= space_size(cs@.len(), lo as nat, hi_ex),
            !cell.found,
            cell.wf(),
            *cell == *old(cell),
            no_hit_in(der, cs@, lo as nat, hi_ex, start as nat, g as nat),
        decreases end - g,
    {
        // Cooperative cancellation: poll before every probe.
        if cell.is_found() {
            return ;
        }
        let candidate = global_candidate(cs, lo, hi, g);
        proof {
            lemma_candidate_nul_free(cs@, lo as nat, hi_ex, g as nat);
        }
        if container.probe(&candidate) {
            cell.try_report_success(candidate);
            proof {
                assert(hit(der, cs@, lo as nat, hi_ex, g as nat));
            }
            return ;
        }
        proof {
            assert(!hit(der, cs@, lo as nat, hi_ex, g as nat));
            assert forall|x: nat| start <= x < g + 1 implies !#[trigger] hit(
                der,
                cs@,
                lo as nat,
                hi_ex,
                x,
            ) by {}
        }
        g = g + 1;
    }
}

/// One worker's loop over its partition with an active prefilter: assemble
/// a batch of candidates, screen it, and probe only the candidates the
/// screen kept. A screened-out candidate is one the prefilter has proved
/// cannot open the container, so the outcome is the same as without
/// screening.
fn scan_range_screened<P: Prefilter>(
    container: &Container,
    cs: &Vec<char>,
    lo: u8,
    hi: u8,
    start: u64,
    end: u64,
    cell: &mut CrackResult,
    pf: &P,
)
    requires
        valid_charset(cs@),
        lo <= hi,
        start <= end,
        end <= space_size(cs@.len(), lo as nat, hi as nat + 1),
        old(cell).wf(),
    ensures
        final(cell).wf(),
        old(cell).found ==> *final(cell) == *old(cell),
        (!old(cell).found && !final(cell).found) ==> *final(cell) == *old(cell) && no_hit_in(
            container.der_bytes(),
            cs@,
            lo as nat,
            hi as nat + 1,
            start as nat,
            end as nat,
        ),
        (!old(cell).found && final(cell).found) ==> exists|g: nat|
            start <= g < end && #[trigger] hit(container.der_bytes(), cs@, lo as nat, hi as nat + 1, g)
                && no_hit_in(container.der_bytes(), cs@, lo as nat, hi as nat + 1, start as nat, g)
                && final(cell).password_view() == Some(
                global_cand(cs@, lo as nat, hi as nat + 1, g),
            ),
{
    let ghost der = container.der_bytes();
    let ghost hi_ex = hi as nat + 1;
    if cell.is_found() {
        return ;
    }
    let mut g: u64 = start;
    while g < end
        invariant
            valid_charset(cs@),
            lo <= hi,
            hi_ex == hi as nat + 1,
            der == container.der_bytes(),
            start <= g <= end,
            end <= space_size(cs@.len(), lo as nat, hi_ex),
            !cell.found,
            cell.wf(),
            *cell == *old(cell),
            no_hit_in(der, cs@, lo as nat, hi_ex, start as nat, g as nat),
        decreases end - g,
    {
        let batch_end: u64 = if end - g > SCREEN_BATCH {
            g + SCREEN_BATCH
        } else {
            end
        };
        let mut batch: Vec<Vec<char>> = Vec::new();
        let mut t: u64 = g;
        while t < batch_end
            invariant
                valid_charset(cs@),
                lo <= hi,
                hi_ex == hi as nat + 1,
                g <= t <= batch_end <= end,
                end <= space_size(cs@.len(), lo as nat, hi_ex),
                batch@.len() == t - g,
                forall|j: int|
                    0 <= j < t - g ==> batch@[j]@ == global_cand(
                        cs@,
                        lo as nat,
                        hi_ex,
                        (g + j) as nat,
                    ),
            decreases batch_end - t,
        {
            let cand = global_candidate(cs, lo, hi, t);
            batch.push(cand);
            t = t + 1;
        }
        let keep = pf.screen(container, &batch);
        let mut j: usize = 0;
        while j < batch.len()
            invariant
                valid_charset(cs@),
                lo <= hi,
                hi_ex == hi as nat + 1,
                der == container.der_bytes(),
                start <= g < batch_end <= end,
                end <= space_size(cs@.len(), lo as nat, hi_ex),
                j <= batch@.len(),
                batch@.len() == batch_end - g,
                keep@.len() == batch@.len(),
                forall|i: int|
                    0 <= i < batch@.len() ==> batch@[i]@ == global_cand(
                        cs@,
                        lo as nat,
                        hi_ex,
                        (g + i) as nat,
                    ),
                forall|i: int| 0 <= i < batch@.len() && !keep@[i] ==> !decrypts(der, batch@[i]@),
                !cell.found,
                cell.wf(),
                *cell == *old(cell),
                no_hit_in(der, cs@, lo as nat, hi_ex, start as nat, (g + j) as nat),
            decreases batch@.len() - j,
        {
            if keep[j] {
                // Cooperative cancellation: poll before every probe.
                if cell.is_found() {
                    return ;
                }
                let idx: u64 = g + j as u64;
                let candidate = global_candidate(cs, lo, hi, idx);
                proof {
                    lemma_candidate_nul_free(cs@, lo as nat, hi_ex, idx as nat);
                }
                if container.probe(&candidate) {
                    cell.try_report_success(candidate);
                    proof {
                        assert(hit(der, cs@, lo as nat, hi_ex, idx as nat));
                    }
                    return ;
                }
                proof {
                    assert(!hit(der, cs@, lo as nat, hi_ex, idx as nat));
                }
            } else {
                proof {
                    assert(!decrypts(der, batch@[j as int]@));
                    assert(!hit(der, cs@, lo as nat, hi_ex, (g + j) as nat));
                }
            }
            proof {
                assert forall|x: nat| start <= x < g + j + 1 implies !#[trigger] hit(
                    der,
                    cs@,
                    lo as nat,
                    hi_ex,
                    x,
                ) by {}
            }
            j = j + 1;
        }
        g = batch_end;
    }
}

/// Whether the charset repeats no symbol.
fn charset_distinct(cs: &Vec<char>) -> (r: bool)
    ensures
        r == distinct_symbols(cs@),
{
    let mut i: usize = 0;
    while i < cs.len()
        invariant
            i <= cs@.len(),
            forall|a: int, b: int| 0 <= a < b < i ==> cs@[a] != cs@[b],
        decreases cs@.len() - i,
    {
        let mut j: usize = 0;
        while j < i
            invariant
                j <= i < cs@.len(),
                forall|a: int, b: int| 0 <= a < b < i ==> cs@[a] != cs@[b],
                forall|a: int| 0 <= a < j ==> cs@[a] != cs@[i as int],
            decreases i - j,
        {
            if cs[j] == cs[i] {
                return false;
            }
            j = j + 1;
        }
        i = i + 1;
    }
    true
}

/// Whether the charset avoids the NUL character.
fn charset_nul_free(cs: &Vec<char>) -> (r: bool)
    ensures
        r == !has_nul(cs@),
{
    let mut i: usize = 0;
    while i < cs.len()
        invariant
            i <= cs@.len(),
            forall|a: int| 0 <= a < i ==> cs@[a] != '\0',
        decreases cs@.len() - i,
    {
        if cs[i] == '\0' {
            return false;
        }
        i = i + 1;
    }
    true
}

} // verus!
