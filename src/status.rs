use vstd::prelude::*;

use crate::text::{decimal, decimal_string, padded_decimal, padded_decimal_string};

verus! {

/// The name of the output file with the given index: `split_` followed by the
/// index in at least three digits, then `.txt`.
pub open spec fn file_name(index: nat) -> Seq<char> {
    "split_"@ + padded_decimal(index, 3) + ".txt"@
}

pub fn output_file_name(index: usize) -> (r: String)
    ensures
        r@ == file_name(index as nat),
{
    let mut r = String::from_str("split_");
    r.append(padded_decimal_string(index, 3).as_str());
    r.append(".txt");
    r
}

/// Why a split pass stopped; each carries a description of the failure.
pub enum SplitError {
    /// The input file could not be opened or read.
    InputUnavailable(String),
    /// The output directory or an output file could not be created.
    OutputUnavailable(String),
    /// Writing an output file failed.
    WriteFailed(String),
}

impl SplitError {
    pub open spec fn message_spec(&self) -> Seq<char> {
        match self {
            SplitError::InputUnavailable(d) => "input unavailable: "@ + d@,
            SplitError::OutputUnavailable(d) => "output unavailable: "@ + d@,
            SplitError::WriteFailed(d) => "write failed: "@ + d@,
        }
    }

    /// A human-readable description of the error.
    pub fn message(&self) -> (r: String)
        ensures
            r@ == self.message_spec(),
    {
        match self {
            SplitError::InputUnavailable(d) => {
                let mut r = String::from_str("input unavailable: ");
                r.append(d.as_str());
                r
            },
            SplitError::OutputUnavailable(d) => {
                let mut r = String::from_str("output unavailable: ");
                r.append(d.as_str());
                r
            },
            SplitError::WriteFailed(d) => {
                let mut r = String::from_str("write failed: ");
                r.append(d.as_str());
                r
            },
        }
    }
}

/// A status update of a split pass.
pub enum Status {
    /// The pass is about to process this input path.
    Starting(String),
    /// The output directory exists at this path.
    OutputResolved(String),
    /// This many lines have been processed.
    Processed(usize),
    /// The pass stopped on this error.
    Failed(SplitError),
    /// The pass created this many files in this directory.
    Completed(usize, String),
}

impl Status {
    /// The status line as it is appended to the progress log.
    pub open spec fn line_spec(&self) -> Seq<char> {
        match self {
            Status::Starting(p) => "starting split of "@ + p@,
            Status::OutputResolved(d) => "output directory resolved to "@ + d@,
            Status::Processed(n) => "processed "@ + decimal(*n as nat) + " lines"@,
            Status::Failed(e) => "error: "@ + e.message_spec(),
            Status::Completed(m, d) => "completed: "@ + decimal(*m as nat) + " files created in "@ + d@,
        }
    }

    pub fn line(&self) -> (r: String)
        ensures
            r@ == self.line_spec(),
    {
        match self {
            Status::Starting(p) => {
                let mut r = String::from_str("starting split of ");
                r.append(p.as_str());
                r
            },
            Status::OutputResolved(d) => {
                let mut r = String::from_str("output directory resolved to ");
                r.append(d.as_str());
                r
            },
            Status::Processed(n) => {
                let mut r = String::from_str("processed ");
                r.append(decimal_string(*n).as_str());
                r.append(" lines");
                r
            },
            Status::Failed(e) => {
                let mut r = String::from_str("error: ");
                r.append(e.message().as_str());
                r
            },
            Status::Completed(m, d) => {
                let mut r = String::from_str("completed: ");
                r.append(decimal_string(*m).as_str());
                r.append(" files created in ");
                r.append(d.as_str());
                r
            },
        }
    }
}

/// A log line that reports a completed pass.
pub open spec fn is_completion_line(s: Seq<char>) -> bool {
    s.len() >= 10 && s.take(10) == "completed:"@
}

/// Only the status of a completed pass reads as a completion line.
pub proof fn lemma_completion_line(s: &Status)
    ensures
        is_completion_line(s.line_spec()) <==> s is Completed,
{
    reveal_strlit("completed:");
    reveal_strlit("completed: ");
    reveal_strlit("starting split of ");
    reveal_strlit("output directory resolved to ");
    reveal_strlit("processed ");
    reveal_strlit("error: ");
    let l = s.line_spec();
    if is_completion_line(l) {
        assert(l.take(10)[0] == l[0]);
        assert(l[0] == 'c');
    }
    if s is Completed {
        assert(l.take(10) =~= "completed:"@);
    }
}

} // verus!
