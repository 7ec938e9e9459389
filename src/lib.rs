//! Splits a large text file into numbered files of at most a given number of
//! lines each, reporting progress as status lines.
//!
//! The library holds the decisions of a split pass; the caller reads the input,
//! writes the output files and shares the progress log with an observer.
use vstd::prelude::*;

pub mod config;
pub mod text;
pub mod splitter;
pub mod status;
pub mod run;

pub use config::{parse_lines_per_file, DEFAULT_LINES_PER_FILE};
pub use run::{SplitJob, SplitRun, SplitSummary, Stage};
pub use splitter::{LineStep, Splitter, PROGRESS_INTERVAL};
pub use status::{output_file_name, SplitError, Status};
pub use text::{clean_line, decimal_string, padded_decimal_string, trim_line_end, white_space};

verus! {

} // verus!
