use fastq_view::cli::{check_input_exists, input_verdict};
use fastq_view::header::print_header;
use fastq_view::layout::Tone;
use fastq_view::pipeline::{exit_code, next_stage, Event, Run, Stage};
use fastq_view::quality::{is_low_quality, phred_sum};
use fastq_view::text::{decimal_text, pad_text};

#[test]
fn phred_sum_decodes_offset_33() {
    assert_eq!(phred_sum(b"IIII"), 160);
    assert_eq!(phred_sum(b"!"), 0);
    assert_eq!(phred_sum(b"!+5?"), 0 + 10 + 20 + 30);
    assert_eq!(phred_sum(b""), 0);
}

#[test]
fn average_is_sum_over_length() {
    let q = b"05:";
    let avg = phred_sum(q) as f32 / q.len() as f32;
    assert_eq!(avg, (15.0 + 20.0 + 25.0) / 3.0);
}

#[test]
fn threshold_is_strict() {
    assert!(!is_low_quality(b"5555"));
    assert!(is_low_quality(b"5554"));
    assert!(is_low_quality(b"0"));
    assert!(!is_low_quality(b":"));
}

#[test]
fn decimal_numerals() {
    assert_eq!(decimal_text(0), "0");
    assert_eq!(decimal_text(7), "7");
    assert_eq!(decimal_text(1234), "1234");
    assert_eq!(decimal_text(u64::MAX), "18446744073709551615");
}

#[test]
fn padding_never_cuts() {
    assert_eq!(pad_text("12".to_string(), 8), "12      ");
    assert_eq!(pad_text("123456789".to_string(), 8), "123456789");
    assert_eq!(pad_text(String::new(), 0), "");
}

#[test]
fn header_has_tees_over_gutter_borders() {
    let h = print_header("in.fq", 12);
    let want = format!(
        "{}in.fq\n\u{252C}{}\u{252C}{}",
        "\u{2500}".repeat(12),
        "\u{2500}".repeat(8),
        "\u{2500}".repeat(2)
    );
    assert_eq!(h, want);
}

#[test]
fn narrow_header() {
    assert_eq!(print_header("x", 0), "x\n");
    assert_eq!(print_header("x", 1), "\u{2500}x\n\u{252C}");
}

#[test]
fn missing_input_is_reported() {
    let p = "/no/such/dir/reads.fq";
    assert_eq!(check_input_exists(p), Err(format!("File does not exist: {}", p)));
    assert_eq!(input_verdict("a.fq", false), Err("File does not exist: a.fq".to_string()));
    assert_eq!(input_verdict("a.fq", true), Ok("a.fq".to_string()));
}

#[test]
fn existing_input_is_accepted() {
    assert_eq!(check_input_exists("/"), Ok("/".to_string()));
}

#[test]
fn missing_input_exits_with_one() {
    assert!(check_input_exists("/no/such/file.fastq").is_err());
    assert_eq!(exit_code(true, false), 1);
    assert_eq!(exit_code(false, true), 1);
    assert_eq!(exit_code(false, false), 0);
}

#[test]
fn stages_follow_the_run() {
    let mut s = Stage::Init;
    s = next_stage(s, Event::HeaderAppended);
    assert_eq!(s, Stage::HeaderWritten);
    s = next_stage(s, Event::RecordAppended);
    assert_eq!(s, Stage::Streaming);
    s = next_stage(s, Event::DisplayClosed);
    assert_eq!(s, Stage::Streaming);
    s = next_stage(s, Event::SourceEnded);
    assert_eq!(s, Stage::Draining);
    s = next_stage(s, Event::DisplayClosed);
    assert_eq!(s, Stage::Done);
    assert_eq!(next_stage(Stage::Done, Event::SourceFailed), Stage::Done);
    assert_eq!(next_stage(Stage::Streaming, Event::SourceFailed), Stage::Aborted);
    assert_eq!(next_stage(Stage::Init, Event::SourceFailed), Stage::Aborted);
    assert_eq!(next_stage(Stage::Aborted, Event::HeaderAppended), Stage::Aborted);
}

#[test]
fn run_hands_out_blocks_in_read_order() {
    let bar = "\u{2502}";
    let mut run = Run::new(20);
    let head = run.start("reads.fq");
    assert!(head.starts_with(&"\u{2500}".repeat(20)));
    let a = run.on_record("first", "ACGT", "0000", "15").unwrap();
    let b = run.on_record("second", "ACGTACGT", "::::::::", "25").unwrap();
    assert!(a.starts_with(&format!("{}1       {}", bar, bar)));
    assert!(b.starts_with(&format!("{}2       {}", bar, bar)));
    assert_eq!(run.reads, 2);
    assert_eq!(run.stage, Stage::Streaming);
}

#[test]
fn two_record_scenario() {
    let mut run = Run::new(4);
    run.start("two.fq");
    let a = run.on_record("lowq", "ACGTAC", "000000", "15").unwrap();
    let b = run.on_record("highq", "ACGTAC", "::::::", "25").unwrap();
    assert!(a.contains("lowq") && a.contains("15"));
    assert!(b.contains("highq") && b.contains("25"));
    assert!(a.contains("ACGT\n") && a.ends_with("AC\n"));
    assert!(b.contains("ACGT\n") && b.ends_with("AC\n"));
    let la = fastq_view::layout::format_record(1, "lowq", "ACGTAC", "000000", "15", 4).unwrap();
    let lb = fastq_view::layout::format_record(2, "highq", "ACGTAC", "::::::", "25", 4).unwrap();
    assert_eq!(la[0].spans[0].tone, Tone::Warning);
    assert_eq!(la[0].spans[8].tone, Tone::Warning);
    assert_eq!(lb[0].spans[0].tone, Tone::Healthy);
    assert_eq!(lb[0].spans[8].tone, Tone::Muted);
}

#[test]
fn malformed_record_aborts_the_run() {
    let mut run = Run::new(10);
    run.start("bad.fq");
    assert!(run.on_record("r", "ACGT", "II", "40").is_err());
    assert_eq!(run.stage, Stage::Aborted);
    assert_eq!(run.reads, 0);
}
