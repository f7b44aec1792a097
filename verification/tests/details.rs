use rura::details_widget::{format_duration, format_file_size, format_thousands, DetailsWidget};
use rura::shell::pipeline_runner::{PipelineRun, Stdin, StepFailure, StepOutput};

/// The seconds branch computed with floating point, as `{:.1}` formats it.
fn float_seconds(ms: u64) -> String {
    format!("{:.1}s", ms as f64 / 1000.0)
}

/// The size text computed with floating point: the binary logarithm picks
/// the unit, and `{:.1}` formats the value.
fn float_file_size(bytes: u64) -> String {
    if bytes < 1024 {
        return format!("{} B", bytes);
    }
    let suffixes = ["B", "KiB", "MiB", "GiB"];
    let bytes_f = bytes as f64;
    let scale = ((bytes_f.log2() / 10.0).floor() as usize).min(suffixes.len() - 1);
    let value = bytes_f / 1024.0_f64.powi(scale as i32);
    format!("{:.1} {}", value, suffixes[scale])
}

#[test]
fn format_thousands_examples() {
    assert_eq!(format_thousands(0), "0");
    assert_eq!(format_thousands(999), "999");
    assert_eq!(format_thousands(1000), "1,000");
    assert_eq!(format_thousands(1234567), "1,234,567");
    assert_eq!(format_thousands(1000001), "1,000,001");
    assert_eq!(format_thousands(u128::MAX), "340,282,366,920,938,463,463,374,607,431,768,211,455");
}

#[test]
fn format_duration_examples() {
    assert_eq!(format_duration(0), "0ms");
    assert_eq!(format_duration(999), "999ms");
    assert_eq!(format_duration(1000), "1.0s");
    assert_eq!(format_duration(1500), "1.5s");
    assert_eq!(format_duration(20000), "20.0s");
    assert_eq!(format_duration(59999), "60.0s");
    assert_eq!(format_duration(60000), "1m 0s");
    assert_eq!(format_duration(125_500), "2m 5s");
    assert_eq!(format_duration(3_600_000), "1h 0m 0s");
    assert_eq!(format_duration(3_723_999), "1h 2m 3s");
    assert_eq!(format_duration(u64::MAX), "5124095576030h 25m 51s");
    assert_eq!(format_duration(1250), "1.2s");
    assert_eq!(format_duration(1750), "1.8s");
}

#[test]
fn format_duration_seconds_match_floating_point() {
    for ms in 1000..60000u64 {
        assert_eq!(format_duration(ms), float_seconds(ms), "ms = {ms}");
    }
}

#[test]
fn format_file_size_examples() {
    assert_eq!(format_file_size(0), "0 B");
    assert_eq!(format_file_size(1023), "1023 B");
    assert_eq!(format_file_size(1024), "1.0 KiB");
    assert_eq!(format_file_size(1536), "1.5 KiB");
    assert_eq!(format_file_size(1048576), "1.0 MiB");
    assert_eq!(format_file_size(1073741824), "1.0 GiB");
    assert_eq!(format_file_size(5 * 1073741824 * 1024), "5120.0 GiB");
}

#[test]
fn format_file_size_matches_floating_point() {
    let mut values: Vec<u64> = (0..70000u64).collect();
    for k in 10..64u32 {
        let p = 1u64 << k;
        for d in 0..300u64 {
            values.push(p.wrapping_add(d));
            values.push(p.wrapping_sub(d));
            values.push(p.wrapping_add(p / 2).wrapping_add(d));
        }
    }
    // sizes at an exact half of a tenth of a unit
    for k in 1..3000u64 {
        values.push(k * 1024 + 512 / 10 * 10 + 51);
        values.push(k * 1024 * 1024 + 52428);
        values.push(k * 1024 * 1024 * 1024 + 53687091 * 2);
        values.push(k * 128);
    }
    values.push(u64::MAX);
    values.push(u64::MAX - 1024);
    values.push((1u64 << 53) + 1);
    values.push((1u64 << 53) + 3);
    for b in values {
        assert_eq!(format_file_size(b), float_file_size(b), "bytes = {b}");
    }
}

#[test]
fn details_height_counts_rows() {
    let mut widget = DetailsWidget::default();
    assert_eq!(widget.height(), 2);
    widget.pipeline_run = PipelineRun {
        stdin: Stdin::new("stdin".as_bytes().to_vec()),
        steps: vec![
            StepOutput::new("cmd1".into(), "1234567890".as_bytes().to_vec(), 1_000_000, true),
            StepOutput::new("cmd2".into(), "x".as_bytes().to_vec(), 1_000_000, false),
        ],
        failure: Some(StepFailure::new("failed".into(), "failed".as_bytes().to_vec(), None, 10_000_000)),
    };
    assert_eq!(widget.height(), 5);
    widget.show_stdin = false;
    assert_eq!(widget.height(), 4);
}

fn row_texts(widget: &DetailsWidget) -> Vec<(String, String, String, String, bool)> {
    widget
        .rows()
        .into_iter()
        .map(|r| (r.command, r.time, r.lines, r.size, r.failed))
        .collect()
}

fn row(c: &str, t: &str, l: &str, s: &str, failed: bool) -> (String, String, String, String, bool) {
    (c.to_string(), t.to_string(), l.to_string(), s.to_string(), failed)
}

#[test]
fn empty_run() {
    let mut widget = DetailsWidget::default();
    widget.pipeline_run = PipelineRun { stdin: Stdin::default(), steps: vec![], failure: None };

    assert_eq!(row_texts(&widget), vec![row("<stdin>", "-", "0", "0 B", false)]);
    assert_eq!(widget.height(), 2);
}

#[test]
fn non_empty_run() {
    let mut widget = DetailsWidget::default();
    widget.pipeline_run = PipelineRun {
        stdin: Stdin::new("stdin".as_bytes().to_vec()),
        steps: vec![
            StepOutput::new("cmd1".into(), "1234567890".as_bytes().to_vec(), 1_000_000, true),
            StepOutput::new("cmd2".into(), "1234567890".as_bytes().to_vec(), 20_000_000_000, true),
            StepOutput::new("cmd3".into(), "x".as_bytes().to_vec(), 1_000_000_000, false),
        ],
        failure: Some(StepFailure::new("failed".into(), "failed".as_bytes().to_vec(), None, 10_000_000)),
    };

    assert_eq!(
        row_texts(&widget),
        vec![
            row("<stdin>", "-", "1", "5 B", false),
            row("cmd1", "1ms *", "1", "10 B", false),
            row("cmd2", "20.0s *", "1", "10 B", false),
            row("cmd3", "1.0s", "1", "1 B", false),
            row("failed", "10ms", "1", "6 B", true),
        ]
    );
    assert_eq!(widget.height(), 6);
}

#[test]
fn details_rows_without_stdin_and_large_counts() {
    let mut widget = DetailsWidget::default();
    widget.show_stdin = false;
    let mut big = vec![b'\n'; 1_234_567];
    big.push(b'x');
    widget.pipeline_run = PipelineRun {
        stdin: Stdin::default(),
        steps: vec![StepOutput::new("seq".into(), big, 3_723_999_999_999, false)],
        failure: None,
    };
    assert_eq!(row_texts(&widget), vec![row("seq", "1h 2m 3s", "1,234,567", "1.2 MiB", false)]);
}

#[test]
fn format_thousands_only_adds_separators() {
    for n in [0u128, 7, 999, 1000, 1001, 65_536, 1_234_567, 1_000_000_000, u128::MAX] {
        assert_eq!(format_thousands(n).replace(',', ""), n.to_string());
    }
}
