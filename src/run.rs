use vstd::prelude::*;

use crate::config::{threshold_of, parse_lines_per_file, DEFAULT_LINES_PER_FILE};
use crate::splitter::{file_count, law_files_cover_lines_in_order, LineStep, Splitter, PROGRESS_INTERVAL};
use crate::text::decimal;
use crate::status::{is_completion_line, lemma_completion_line, SplitError, Status};

verus! {

/// The parameters of one split pass.
pub struct SplitJob {
    pub input_path: String,
    pub output_dir: String,
    /// The number of lines per output file.
    pub lines_per_file: usize,
}

impl SplitJob {
    /// A job whose threshold is read from user text, with the default for text
    /// that is not a positive integer.
    pub fn new(input_path: String, output_dir: String, lines_per_file: &str) -> (r: SplitJob)
        ensures
            r.input_path == input_path,
            r.output_dir == output_dir,
            r.lines_per_file == threshold_of(lines_per_file@),
    {
        SplitJob { input_path, output_dir, lines_per_file: parse_lines_per_file(lines_per_file) }
    }
}

/// What a successful pass did.
pub struct SplitSummary {
    /// The number of input lines processed.
    pub lines: usize,
    /// The number of output files created.
    pub files: usize,
}

/// Where a split pass stands.
#[derive(Clone, Copy, Debug, PartialEq, Eq, Structural)]
pub enum Stage {
    /// The output directory is not ready yet.
    Preparing,
    /// Input lines are being routed to output files.
    Splitting,
    Completed,
    Failed,
}

/// One split pass: the engine's decisions together with the progress log that
/// the pass appends to. The caller performs the file work and reports back.
pub struct SplitRun {
    output_dir: String,
    stage: Stage,
    splitter: Splitter,
    log: Vec<String>,
}

impl SplitRun {
    /// The status lines appended so far, oldest first.
    pub open spec fn log_spec(&self) -> Seq<Seq<char>> {
        self.log_strings().map_values(|s: String| s@)
    }

    pub closed spec fn log_strings(&self) -> Seq<String> {
        self.log@
    }

    pub closed spec fn stage_spec(&self) -> Stage {
        self.stage
    }

    pub closed spec fn splitter_spec(&self) -> Splitter {
        self.splitter
    }

    pub closed spec fn output_dir_spec(&self) -> Seq<char> {
        self.output_dir@
    }

    pub closed spec fn wf(&self) -> bool {
        &&& self.splitter.wf()
        &&& self.stage != Stage::Completed ==> forall|i: int|
            0 <= i < self.log@.len() ==> !is_completion_line(#[trigger] self.log@[i]@)
    }

    /// Starts a pass: announces the input path. A threshold of zero is taken
    /// as the default.
    pub fn start(job: SplitJob) -> (r: SplitRun)
        ensures
            r.wf(),
            r.stage_spec() == Stage::Preparing,
            r.log_spec() == seq![Status::Starting(job.input_path).line_spec()],
            r.output_dir_spec() == job.output_dir@,
            r.splitter_spec().lines().len() == 0,
            r.splitter_spec().threshold() == if job.lines_per_file == 0 {
                DEFAULT_LINES_PER_FILE as nat
            } else {
                job.lines_per_file as nat
            },
    {
        let t = if job.lines_per_file == 0 {
            DEFAULT_LINES_PER_FILE
        } else {
            job.lines_per_file
        };
        let status = Status::Starting(job.input_path);
        let line = status.line();
        proof {
            lemma_completion_line(&status);
        }
        let mut log = Vec::new();
        log.push(line);
        let r = SplitRun {
            output_dir: job.output_dir,
            stage: Stage::Preparing,
            splitter: Splitter::new(t),
            log,
        };
        assert(r.log_spec() =~= seq![status.line_spec()]);
        r
    }

    fn append(&mut self, status: &Status)
        requires
            old(self).wf(),
            !(status is Completed),
        ensures
            final(self).wf(),
            final(self).log_spec() == old(self).log_spec().push(status.line_spec()),
            final(self).stage == old(self).stage,
            final(self).splitter == old(self).splitter,
            final(self).output_dir == old(self).output_dir,
    {
        let line = status.line();
        proof {
            lemma_completion_line(status);
        }
        self.log.push(line);
        assert(self.log_spec() =~= old(self).log_spec().push(status.line_spec()));
    }

    /// The output directory exists: announces it, and routing lines may begin.
    pub fn output_ready(&mut self)
        requires
            old(self).wf(),
            old(self).stage_spec() == Stage::Preparing,
        ensures
            final(self).wf(),
            final(self).stage_spec() == Stage::Splitting,
            final(self).log_spec() == old(self).log_spec().push(
                "output directory resolved to "@ + old(self).output_dir_spec(),
            ),
            final(self).splitter_spec() == old(self).splitter_spec(),
            final(self).output_dir_spec() == old(self).output_dir_spec(),
    {
        let status = Status::OutputResolved(self.output_dir.clone());
        self.append(&status);
        self.stage = Stage::Splitting;
    }

    /// Routes one input line, appending a progress line when one is due.
    pub fn accept_line(&mut self, raw: &[u8]) -> (r: LineStep)
        requires
            old(self).wf(),
            old(self).stage_spec() == Stage::Splitting,
            old(self).splitter_spec().lines().len() < usize::MAX,
        ensures
            final(self).wf(),
            final(self).stage_spec() == Stage::Splitting,
            final(self).output_dir_spec() == old(self).output_dir_spec(),
            final(self).splitter_spec().threshold() == old(self).splitter_spec().threshold(),
            final(self).splitter_spec().lines() == old(self).splitter_spec().lines().push(raw@),
            r.open_next == (if old(self).splitter_spec().files().last().len() >= old(self).splitter_spec().threshold() {
                Some(old(self).splitter_spec().files().len() as usize)
            } else {
                None::<usize>
            }),
            r.file_index == final(self).splitter_spec().files().len() - 1,
            final(self).splitter_spec().files() == (if r.open_next is Some {
                old(self).splitter_spec().files().push(seq![crate::text::clean(raw@)])
            } else {
                old(self).splitter_spec().files().update(
                    old(self).splitter_spec().files().len() - 1,
                    old(self).splitter_spec().files().last().push(crate::text::clean(raw@)),
                )
            }),
            r.text@ == crate::text::clean(raw@).push('\n'),
            r.progress is Some ==> final(self).log_spec() == old(self).log_spec().push(
                Status::Processed(r.progress->0).line_spec(),
            ),
            r.progress is None ==> final(self).log_spec() == old(self).log_spec(),
            r.progress == (if old(self).splitter_spec().lines().len() % (PROGRESS_INTERVAL as nat) == 0 {
                Some(old(self).splitter_spec().lines().len() as usize)
            } else {
                None::<usize>
            }),
    {
        let step = self.splitter.accept_line(raw);
        if let Some(n) = step.progress {
            self.append(&Status::Processed(n));
        }
        step
    }

    /// The input is exhausted: announces how many files were created where.
    pub fn finish(&mut self) -> (r: SplitSummary)
        requires
            old(self).wf(),
            old(self).stage_spec() == Stage::Splitting,
        ensures
            final(self).wf(),
            final(self).stage_spec() == Stage::Completed,
            final(self).splitter_spec() == old(self).splitter_spec(),
            r.lines == old(self).splitter_spec().lines().len(),
            r.files == old(self).splitter_spec().files().len(),
            r.files == file_count(r.lines as nat, old(self).splitter_spec().threshold()),
            final(self).log_spec() == old(self).log_spec().push(
                "completed: "@ + decimal(r.files as nat) + " files created in "@ + old(self).output_dir_spec(),
            ),
    {
        let lines = self.splitter.lines_processed();
        let files = self.splitter.files_created();
        proof {
            self.splitter.lemma_threshold_positive();
            law_files_cover_lines_in_order(self.splitter.lines(), self.splitter.threshold());
        }
        let status = Status::Completed(files, self.output_dir.clone());
        let line = status.line();
        self.log.push(line);
        self.stage = Stage::Completed;
        assert(self.log_spec() =~= old(self).log_spec().push(status.line_spec()));
        SplitSummary { lines, files }
    }

    /// The pass stopped on an error: reports it and hands it back. A failed
    /// pass never holds a completion line.
    pub fn fail(&mut self, error: SplitError) -> (r: SplitError)
        requires
            old(self).wf(),
            old(self).stage_spec() == Stage::Preparing || old(self).stage_spec() == Stage::Splitting,
        ensures
            final(self).wf(),
            final(self).stage_spec() == Stage::Failed,
            r == error,
            final(self).log_spec() == old(self).log_spec().push(Status::Failed(error).line_spec()),
            forall|i: int|
                0 <= i < final(self).log_spec().len() ==> !is_completion_line(
                    #[trigger] final(self).log_spec()[i],
                ),
    {
        let mut line = String::from_str("error: ");
        line.append(error.message().as_str());
        proof {
            lemma_completion_line(&Status::Failed(error));
        }
        self.log.push(line);
        self.stage = Stage::Failed;
        assert(self.log_spec() =~= old(self).log_spec().push(Status::Failed(error).line_spec()));
        error
    }

    /// The status lines appended so far, oldest first.
    pub fn log(&self) -> (r: &Vec<String>)
        ensures
            r@ == self.log_strings(),
    {
        &self.log
    }

    pub fn stage(&self) -> (r: Stage)
        ensures
            r == self.stage_spec(),
    {
        self.stage
    }

    pub fn splitter(&self) -> (r: &Splitter)
        ensures
            *r == self.splitter_spec(),
    {
        &self.splitter
    }

    pub fn output_dir(&self) -> (r: &String)
        ensures
            r@ == self.output_dir_spec(),
    {
        &self.output_dir
    }
}

} // verus!
