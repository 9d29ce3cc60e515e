//! What is reported of a run: the counts that sum it up, and the names under
//! which its results are written to a file.
use crate::probe::{PingResult, Status};
use vstd::prelude::*;
use vstd::string::StringExecFns;

verus! {

/// How many of the results are successes.
pub open spec fn count_successes(results: Seq<PingResult>) -> nat
    decreases results.len(),
{
    if results.len() == 0 {
        0
    } else {
        count_successes(results.drop_last()) + if results.last().status == Status::Success {
            1nat
        } else {
            0nat
        }
    }
}

/// How many of the results are failures.
pub open spec fn count_failures(results: Seq<PingResult>) -> nat
    decreases results.len(),
{
    if results.len() == 0 {
        0
    } else {
        count_failures(results.drop_last()) + if results.last().status == Status::Failure {
            1nat
        } else {
            0nat
        }
    }
}

/// Every result is a success or a failure, and never both.
pub proof fn lemma_counts_add_up(results: Seq<PingResult>)
    ensures
        count_successes(results) + count_failures(results) == results.len(),
    decreases results.len(),
{
    if results.len() > 0 {
        lemma_counts_add_up(results.drop_last());
    }
}

/// The counts of a run over `total` addresses.
#[derive(Clone, Copy, Debug, PartialEq, Eq, Structural)]
pub struct ScanSummary {
    /// How many addresses were to be probed.
    pub total: usize,
    /// How many of them answered.
    pub success_count: usize,
    /// How many did not: every address without a success, one whose probe
    /// gave no result among them.
    pub failure_count: usize,
}

/// Sums up the results of a run over `total` addresses. Successes and
/// failures together are the addresses of the list; where there is a result
/// for each address, the failures are the results that are failures.
pub fn summarize(results: &Vec<PingResult>, total: usize) -> (summary: ScanSummary)
    requires
        results@.len() <= total,
    ensures
        summary.total == total,
        summary.success_count == count_successes(results@),
        summary.success_count + summary.failure_count == total,
        results@.len() == total ==> summary.failure_count == count_failures(results@),
{
    let mut successes: usize = 0;
    let mut i: usize = 0;
    while i < results.len()
        invariant
            i <= results@.len(),
            results@.len() <= total,
            successes == count_successes(results@.take(i as int)),
            successes <= i,
        decreases results@.len() - i,
    {
        assert(results@.take(i as int + 1).drop_last() =~= results@.take(i as int));
        if results[i].is_success() {
            successes = successes + 1;
        }
        i += 1;
    }
    proof {
        assert(results@.take(results@.len() as int) =~= results@);
        lemma_counts_add_up(results@);
    }
    ScanSummary { total, success_count: successes, failure_count: total - successes }
}

/// The word that stands for a status in a report.
pub open spec fn status_text(status: Status) -> Seq<char> {
    match status {
        Status::Success => seq!['\u{6210}', '\u{529f}'],
        Status::Failure => seq!['\u{5931}', '\u{8d25}'],
    }
}

/// The directory that the reports of a command are written to.
pub open spec fn report_directory_text(command: Seq<char>) -> Seq<char> {
    seq!['o', 'u', 't', 'p', 'u', 't', '/'] + command
}

/// The name of a report file: the prefix, an underscore, the time at which
/// the report was written, and the extension of a spreadsheet.
pub open spec fn report_file_text(prefix: Seq<char>, timestamp: Seq<char>) -> Seq<char> {
    prefix + seq!['_'] + timestamp + seq!['.', 'x', 'l', 's', 'x']
}

/// The word that stands for a status in a report.
pub fn status_label(status: Status) -> (s: &'static str)
    ensures
        s@ == status_text(status),
{
    proof {
        reveal_strlit("\u{6210}\u{529f}");
        reveal_strlit("\u{5931}\u{8d25}");
    }
    let s: &'static str = match status {
        Status::Success => "\u{6210}\u{529f}",
        Status::Failure => "\u{5931}\u{8d25}",
    };
    assert(s@ =~= status_text(status));
    s
}

/// The directory that the reports of `command` are written to.
pub fn report_directory(command: &str) -> (path: String)
    ensures
        path@ == report_directory_text(command@),
{
    proof {
        reveal_strlit("output/");
    }
    let mut path = String::from_str("output/");
    path.append(command);
    assert(path@ =~= report_directory_text(command@));
    path
}

/// The name of the report file that is written at `timestamp`, a time in the
/// form `YYYYMMDD_HHMMSS`.
pub fn report_file_name(prefix: &str, timestamp: &str) -> (name: String)
    ensures
        name@ == report_file_text(prefix@, timestamp@),
{
    proof {
        reveal_strlit("_");
        reveal_strlit(".xlsx");
    }
    let mut name = String::from_str(prefix);
    name.append("_");
    name.append(timestamp);
    name.append(".xlsx");
    assert(name@ =~= report_file_text(prefix@, timestamp@));
    name
}

} // verus!
