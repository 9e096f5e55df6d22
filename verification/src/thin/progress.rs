//! Progress reports: how far each rule has come at one place in the input.

use vstd::prelude::*;
use crate::result::Fault;
use crate::thin::{EarleySet, Rule};

verus! {

/// One line of a progress report.
#[derive(Debug, Clone, Copy, PartialEq, Eq)]
pub struct ProgressItem {
    /// The rule.
    pub rule: Rule,
    /// How many symbols of the rule have been recognized.
    pub pos: i32,
    /// Where the rule began.
    pub origin: EarleySet,
}

/// A progress report.
pub type ProgressReport = Vec<ProgressItem>;

/// The place of the first failure among the first `n` of `lines`.
pub open spec fn first_failure(lines: Seq<Result<ProgressItem, Fault>>, n: int) -> Option<int>
    decreases n,
{
    if n <= 0 || n > lines.len() {
        None
    } else {
        match first_failure(lines, n - 1) {
            Some(k) => Some(k),
            None => if lines[n - 1] is Err {
                Some(n - 1)
            } else {
                None
            },
        }
    }
}

/// The items of the first `n` of `lines`, failures left out.
pub open spec fn items_of(lines: Seq<Result<ProgressItem, Fault>>, n: int) -> Seq<ProgressItem>
    decreases n,
{
    if n <= 0 || n > lines.len() {
        Seq::empty()
    } else {
        match lines[n - 1] {
            Ok(item) => items_of(lines, n - 1).push(item),
            Err(_) => items_of(lines, n - 1),
        }
    }
}

/// Puts a progress report together from what the engine said of each line
/// and of the end of the report.  A failure at the end is the failure of the
/// report; else the first failure of a line is; else the report holds the
/// lines in order.
pub fn progress_report(lines: Vec<Result<ProgressItem, Fault>>, finish: Result<(), Fault>) -> (r:
    Result<ProgressReport, Fault>)
    ensures
        finish matches Err(e) ==> (r matches Err(f) && f == e),
        finish is Ok ==> match first_failure(lines@, lines@.len() as int) {
            Some(k) => r matches Err(f) && Err::<ProgressItem, Fault>(f) == lines@[k],
            None => r matches Ok(report) && report@ == items_of(lines@, lines@.len() as int),
        },
{
    let mut report: Vec<ProgressItem> = Vec::new();
    let mut i: usize = 0;
    while i < lines.len()
        invariant
            i <= lines@.len(),
            first_failure(lines@, i as int) is None,
            report@ == items_of(lines@, i as int),
        ensures
            i <= lines@.len(),
            first_failure(lines@, i as int) is None,
            i < lines@.len() ==> lines@[i as int] is Err,
            report@ == items_of(lines@, i as int),
        decreases lines@.len() - i,
    {
        match &lines[i] {
            Ok(item) => report.push(*item),
            Err(_) => {
                break ;
            },
        }
        i += 1;
    }
    match finish {
        Ok(()) => {},
        Err(e) => {
            return Err(e);
        },
    }
    res_of(lines, i, report)
}

/// The report, or the failure of line `i` where there is such a line.
fn res_of(lines: Vec<Result<ProgressItem, Fault>>, i: usize, report: ProgressReport) -> (r: Result<
    ProgressReport,
    Fault,
>)
    requires
        i <= lines@.len(),
        first_failure(lines@, i as int) is None,
        i < lines@.len() ==> lines@[i as int] is Err,
        report@ == items_of(lines@, i as int),
    ensures
        match first_failure(lines@, lines@.len() as int) {
            Some(k) => r matches Err(f) && Err::<ProgressItem, Fault>(f) == lines@[k],
            None => r matches Ok(rep) && rep@ == items_of(lines@, lines@.len() as int),
        },
{
    let mut lines = lines;
    if i < lines.len() {
        proof {
            lemma_first_failure_stays(lines@, i as int + 1, lines@.len() as int);
        }
        let line = lines.swap_remove(i);
        match line {
            Err(e) => Err(e),
            Ok(_) => Ok(report),
        }
    } else {
        Ok(report)
    }
}

/// Once a failure has been met, it stays the first.
pub proof fn lemma_first_failure_stays(lines: Seq<Result<ProgressItem, Fault>>, k: int, n: int)
    requires
        0 < k <= n <= lines.len(),
        first_failure(lines, k - 1) is None,
        lines[k - 1] is Err,
    ensures
        first_failure(lines, n) == Some(k - 1),
    decreases n - k,
{
    if k < n {
        lemma_first_failure_stays(lines, k, n - 1);
    }
}

} // verus!
