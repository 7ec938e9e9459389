use text_splitter::{
    clean_line, decimal_string, output_file_name, padded_decimal_string, parse_lines_per_file,
    trim_line_end, white_space, SplitError, SplitJob, SplitRun, Splitter, Stage, Status,
    DEFAULT_LINES_PER_FILE,
};

fn run_lines(threshold: usize, count: usize) -> (Vec<usize>, usize) {
    let mut splitter = Splitter::new(threshold);
    let mut sizes: Vec<usize> = vec![0];
    for i in 0..count {
        let line = format!("line {}", i);
        let step = splitter.accept_line(line.as_bytes());
        if let Some(next) = step.open_next {
            assert_eq!(next, sizes.len());
            sizes.push(0);
        }
        assert_eq!(step.file_index, sizes.len() - 1);
        sizes[step.file_index] += 1;
    }
    (sizes, splitter.files_created())
}

#[test]
fn default_threshold_is_one_hundred_thousand() {
    assert_eq!(DEFAULT_LINES_PER_FILE, 100_000);
    assert_eq!(parse_lines_per_file(""), 100_000);
    assert_eq!(parse_lines_per_file("abc"), 100_000);
    assert_eq!(parse_lines_per_file("0"), 100_000);
    assert_eq!(parse_lines_per_file("-5"), 100_000);
    assert_eq!(parse_lines_per_file(" 12"), 100_000);
    assert_eq!(parse_lines_per_file("12x"), 100_000);
    assert_eq!(parse_lines_per_file("+"), 100_000);
    assert_eq!(parse_lines_per_file("18446744073709551616"), 100_000);
}

#[test]
fn valid_threshold_is_read() {
    assert_eq!(parse_lines_per_file("250"), 250);
    assert_eq!(parse_lines_per_file("+7"), 7);
    assert_eq!(parse_lines_per_file("0001"), 1);
    assert_eq!(parse_lines_per_file("18446744073709551615"), usize::MAX);
}

#[test]
fn job_reads_threshold_text() {
    let job = SplitJob::new("in.txt".to_string(), "out".to_string(), "oops");
    assert_eq!(job.lines_per_file, 100_000);
    let job = SplitJob::new("in.txt".to_string(), "out".to_string(), "42");
    assert_eq!(job.lines_per_file, 42);
    assert_eq!(job.input_path, "in.txt");
    assert_eq!(job.output_dir, "out");
}

#[test]
fn carriage_return_is_stripped() {
    assert_eq!(clean_line(b"abc\r"), "abc");
    assert_eq!(clean_line(b"abc"), "abc");
    assert_eq!(clean_line(b""), "");
}

#[test]
fn trailing_white_space_is_stripped() {
    assert_eq!(trim_line_end("a b \t\u{3000}\u{a0}"), "a b");
    assert_eq!(trim_line_end("  lead"), "  lead");
    assert_eq!(trim_line_end(" \r\n"), "");
    assert!(white_space('\r'));
    assert!(white_space('\u{2028}'));
    assert!(!white_space('x'));
    assert!(!white_space('\u{200b}'));
}

#[test]
fn invalid_utf8_is_replaced() {
    assert_eq!(clean_line(b"a\xffb  "), "a\u{FFFD}b");
    assert_eq!(clean_line("h\u{e9}llo".as_bytes()), "h\u{e9}llo");
}

#[test]
fn numbers_in_decimal() {
    assert_eq!(decimal_string(0), "0");
    assert_eq!(decimal_string(305), "305");
    assert_eq!(decimal_string(usize::MAX), usize::MAX.to_string());
    assert_eq!(padded_decimal_string(5, 3), "005");
    assert_eq!(padded_decimal_string(12345, 3), "12345");
}

#[test]
fn output_files_are_named_by_index() {
    assert_eq!(output_file_name(0), "split_000.txt");
    assert_eq!(output_file_name(7), "split_007.txt");
    assert_eq!(output_file_name(42), "split_042.txt");
    assert_eq!(output_file_name(999), "split_999.txt");
    assert_eq!(output_file_name(1234), "split_1234.txt");
}

#[test]
fn status_lines() {
    assert_eq!(Status::Starting("a.txt".to_string()).line(), "starting split of a.txt");
    assert_eq!(Status::OutputResolved("out".to_string()).line(), "output directory resolved to out");
    assert_eq!(Status::Processed(10000).line(), "processed 10000 lines");
    assert_eq!(Status::Completed(3, "out".to_string()).line(), "completed: 3 files created in out");
    assert_eq!(
        Status::Failed(SplitError::InputUnavailable("not found".to_string())).line(),
        "error: input unavailable: not found"
    );
}

#[test]
fn error_messages() {
    assert_eq!(SplitError::InputUnavailable("x".to_string()).message(), "input unavailable: x");
    assert_eq!(SplitError::OutputUnavailable("y".to_string()).message(), "output unavailable: y");
    assert_eq!(SplitError::WriteFailed("z".to_string()).message(), "write failed: z");
}

#[test]
fn rotation_happens_only_for_a_further_line() {
    let mut splitter = Splitter::new(2);
    let opened: Vec<Option<usize>> =
        ["a", "b", "c", "d", "e"].iter().map(|l| splitter.accept_line(l.as_bytes()).open_next).collect();
    assert_eq!(opened, vec![None, None, Some(1), None, Some(2)]);
    assert_eq!(splitter.files_created(), 3);
    assert_eq!(splitter.lines_processed(), 5);
    assert_eq!(splitter.lines_per_file(), 2);
}

#[test]
fn file_count_is_ceiling_of_lines_over_threshold() {
    assert_eq!(run_lines(2, 4), (vec![2, 2], 2));
    assert_eq!(run_lines(3, 7), (vec![3, 3, 1], 3));
    assert_eq!(run_lines(1, 3), (vec![1, 1, 1], 3));
    assert_eq!(run_lines(10, 10), (vec![10], 1));
}

#[test]
fn exactly_250001_lines_make_three_files() {
    // Three files; every file but the last is full, so the last holds the rest.
    assert_eq!(run_lines(100_000, 250_001), (vec![100_000, 100_000, 50_001], 3));
}

#[test]
fn one_line_past_two_full_files_makes_a_third() {
    assert_eq!(run_lines(100_000, 200_001), (vec![100_000, 100_000, 1], 3));
}

#[test]
fn empty_input_makes_one_empty_file() {
    let mut run = SplitRun::start(SplitJob::new("in.txt".to_string(), "out".to_string(), "100"));
    run.output_ready();
    let summary = run.finish();
    assert_eq!(summary.files, 1);
    assert_eq!(summary.lines, 0);
    assert_eq!(run.stage(), Stage::Completed);
    assert_eq!(run.log().last().unwrap(), "completed: 1 files created in out");
}

#[test]
fn missing_input_reports_input_unavailable() {
    let mut run = SplitRun::start(SplitJob::new("missing.txt".to_string(), "out".to_string(), "10"));
    run.output_ready();
    let err = run.fail(SplitError::InputUnavailable("No such file or directory".to_string()));
    assert!(matches!(err, SplitError::InputUnavailable(_)));
    assert_eq!(run.stage(), Stage::Failed);
    assert!(run.log().iter().all(|l| !l.starts_with("completed")));
    assert_eq!(run.log().last().unwrap(), "error: input unavailable: No such file or directory");
}

#[test]
fn run_logs_in_order() {
    let mut run = SplitRun::start(SplitJob::new("big.txt".to_string(), "parts".to_string(), "5000"));
    assert_eq!(run.stage(), Stage::Preparing);
    run.output_ready();
    for i in 0..10_001usize {
        let step = run.accept_line(format!("{}\r", i).as_bytes());
        assert_eq!(step.text, format!("{}\n", i));
        assert_eq!(step.progress, if i % 10_000 == 0 { Some(i) } else { None });
    }
    let summary = run.finish();
    assert_eq!(summary.lines, 10_001);
    assert_eq!(summary.files, 3);
    assert_eq!(
        run.log().clone(),
        vec![
            "starting split of big.txt".to_string(),
            "output directory resolved to parts".to_string(),
            "processed 0 lines".to_string(),
            "processed 10000 lines".to_string(),
            "completed: 3 files created in parts".to_string(),
        ]
    );
    assert_eq!(run.output_dir(), "parts");
    assert_eq!(run.splitter().lines_processed(), 10_001);
}

#[test]
fn zero_threshold_in_a_job_means_default() {
    let job = SplitJob { input_path: "a".to_string(), output_dir: "b".to_string(), lines_per_file: 0 };
    let run = SplitRun::start(job);
    assert_eq!(run.splitter().lines_per_file(), 100_000);
}

#[test]
fn two_runs_route_lines_identically() {
    let input: Vec<&[u8]> = vec![b"one\r", b"two  ", b"", b"\xfe", b"five", b"six"];
    let route = |t: usize| {
        let mut s = Splitter::new(t);
        input.iter().map(|l| { let r = s.accept_line(l); (r.file_index, r.text) }).collect::<Vec<_>>()
    };
    assert_eq!(route(4), route(4));
    assert_eq!(route(4)[4], (1, "five\n".to_string()));
    assert_eq!(route(4)[0], (0, "one\n".to_string()));
}
