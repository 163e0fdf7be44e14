//! The shared result state: a cell holding "found" status and the winning
//! password. It is created empty before a search starts, written at most
//! once by whichever worker first succeeds (later reports are no-ops), and
//! polled by every worker to stop promptly once any worker has won.
//!
//! Under the search's mutual-exclusion discipline every reporting call sees
//! the cell alone, so the call sequence of any interleaving is a sequence of
//! the transitions modeled here.

use vstd::prelude::*;

verus! {

/// The outcome cell of one search.
pub struct CrackResult {
    /// Whether any candidate has decrypted the container.
    pub found: bool,
    /// The winning password, present exactly when `found` is set.
    pub password: Option<Vec<char>>,
}

/// One success report applied to cell state `(found, password)`: the first
/// report flips the cell and retains its password; any later report leaves
/// the cell as it is.
pub open spec fn report_step(
    found: bool,
    password: Option<Seq<char>>,
    candidate: Seq<char>,
) -> (bool, Option<Seq<char>>) {
    if found {
        (found, password)
    } else {
        (true, Some(candidate))
    }
}

/// A whole sequence of success reports applied in order.
pub open spec fn report_all(
    found: bool,
    password: Option<Seq<char>>,
    reports: Seq<Seq<char>>,
) -> (bool, Option<Seq<char>>)
    decreases reports.len(),
{
    if reports.len() == 0 {
        (found, password)
    } else {
        let next = report_step(found, password, reports.first());
        report_all(next.0, next.1, reports.drop_first())
    }
}

impl CrackResult {
    /// The cell's invariant: a password is retained exactly when the cell is
    /// marked found.
    pub open spec fn wf(self) -> bool {
        self.found <==> self.password is Some
    }

    pub open spec fn password_view(self) -> Option<Seq<char>> {
        match self.password {
            Some(p) => Some(p@),
            None => None,
        }
    }

    /// The empty cell every search starts from.
    pub fn new() -> (r: Self)
        ensures
            !r.found,
            r.password is None,
            r.wf(),
    {
        CrackResult { found: false, password: None }
    }

    /// The cheap poll every worker makes before each probe.
    pub fn is_found(&self) -> (r: bool)
        ensures
            r == self.found,
    {
        self.found
    }

    /// Reports a successful candidate. Returns true only for the single call
    /// that transitions the cell from not-found to found; the cell then
    /// retains that call's password and never changes again.
    pub fn try_report_success(&mut self, password: Vec<char>) -> (r: bool)
        ensures
            r == !old(self).found,
            final(self).found,
            final(self).wf() == old(self).wf() || r,
            old(self).found ==> *final(self) == *old(self),
            !old(self).found ==> final(self).password == Some(password),
            (final(self).found, final(self).password_view()) == report_step(
                old(self).found,
                old(self).password_view(),
                password@,
            ),
    {
        if self.found {
            false
        } else {
            self.found = true;
            self.password = Some(password);
            true
        }
    }
}

/// Once the cell is found, any further sequence of reports leaves it
/// unchanged.
pub proof fn lemma_report_all_after_found(password: Option<Seq<char>>, reports: Seq<Seq<char>>)
    ensures
        report_all(true, password, reports) == (true, password),
    decreases reports.len(),
{
    if reports.len() > 0 {
        lemma_report_all_after_found(password, reports.drop_first());
    }
}

/// Idempotence of success reporting: however many callers report against an
/// empty cell, the first one wins, the cell ends up found, and it retains
/// exactly the first caller's password.
pub proof fn lemma_report_all_first_wins(reports: Seq<Seq<char>>)
    requires
        reports.len() >= 1,
    ensures
        report_all(false, None, reports) == (true, Some(reports.first())),
{
    lemma_report_all_after_found(Some(reports.first()), reports.drop_first());
}

/// Exactly one report in a sequence against an empty cell is granted (gets
/// the `true` return): the count of granted transitions is one.
pub open spec fn grants(found: bool, reports: Seq<Seq<char>>) -> nat
    decreases reports.len(),
{
    if reports.len() == 0 {
        0
    } else if found {
        grants(true, reports.drop_first())
    } else {
        1 + grants(true, reports.drop_first())
    }
}

proof fn lemma_grants_after_found(reports: Seq<Seq<char>>)
    ensures
        grants(true, reports) == 0,
    decreases reports.len(),
{
    if reports.len() > 0 {
        lemma_grants_after_found(reports.drop_first());
    }
}

/// However many concurrent callers race to report, exactly one of them is
/// granted the transition.
pub proof fn lemma_exactly_one_grant(reports: Seq<Seq<char>>)
    requires
        reports.len() >= 1,
    ensures
        grants(false, reports) == 1,
{
    lemma_grants_after_found(reports.drop_first());
}

} // verus!
