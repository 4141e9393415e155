use fastq_view::layout::{
    format_record, gutter_lines, gutter_text, print_wrapped_text, render_block, render_line,
    summary_spans, trim_leading, Line, RecordError, Span, Tone,
};

const BAR: &str = "\u{2502}";

fn blank_gutter() -> String {
    format!("{}        {}", BAR, BAR)
}

fn texts(lines: &[Line]) -> Vec<String> {
    lines.iter().map(|l| l.spans[0].text.clone()).collect()
}

#[test]
fn gutter_holds_index_left_aligned() {
    assert_eq!(gutter_text("1".to_string()), format!("{}1       {}", BAR, BAR));
    assert_eq!(gutter_text(String::new()), blank_gutter());
    assert_eq!(gutter_text("123456789".to_string()), format!("{}123456789{}", BAR, BAR));
}

#[test]
fn wraps_sequence_at_width() {
    let lines = print_wrapped_text("ACGTACGTAC", 4);
    assert_eq!(texts(&lines), vec!["ACGT", "ACGT", "AC"]);
    for l in &lines {
        assert_eq!(l.gutter, blank_gutter());
        assert_eq!(l.spans.len(), 1);
        assert_eq!(l.spans[0].tone, Tone::Plain);
    }
}

#[test]
fn wrapping_keeps_every_character() {
    let seq = "ACGTTGCAAGGCTTAACCGGTTAAN";
    for width in 1..30usize {
        let lines = print_wrapped_text(seq, width);
        assert_eq!(texts(&lines).concat(), seq);
        for t in texts(&lines) {
            assert!(t.len() <= width);
        }
    }
}

#[test]
fn sequence_shorter_than_width_is_one_line() {
    let lines = print_wrapped_text("ACG", 80);
    assert_eq!(texts(&lines), vec!["ACG"]);
}

#[test]
fn empty_sequence_has_no_lines() {
    assert!(print_wrapped_text("", 10).is_empty());
}

#[test]
fn wrapped_lines_lose_leading_whitespace() {
    let lines = gutter_lines(&vec!["  AC".to_string(), "GT".to_string(), String::new()]);
    assert_eq!(texts(&lines), vec!["AC", "GT"]);
}

#[test]
fn summary_has_five_fields_with_spaces() {
    let spans = summary_spans("read1", 12, "25", false);
    let got: Vec<(String, Tone)> = spans.iter().map(|s| (s.text.clone(), s.tone)).collect();
    let want = vec![
        ("read1", Tone::Healthy),
        (" ", Tone::Plain),
        ("Length:", Tone::Muted),
        (" ", Tone::Plain),
        ("12", Tone::Muted),
        (" ", Tone::Plain),
        ("| Q:", Tone::Muted),
        (" ", Tone::Plain),
        ("25", Tone::Muted),
    ];
    let want: Vec<(String, Tone)> = want.into_iter().map(|(t, s)| (t.to_string(), s)).collect();
    assert_eq!(got, want);
}

#[test]
fn poor_read_is_a_warning() {
    let b = format_record(3, "r", "ACGT", "0000", "15", 80).unwrap();
    assert_eq!(b[0].gutter, format!("{}3       {}", BAR, BAR));
    assert_eq!(b[0].spans[0].tone, Tone::Warning);
    assert_eq!(b[0].spans[8].tone, Tone::Warning);
    assert_eq!(b[0].spans[4].text, "4");
}

#[test]
fn average_of_exactly_twenty_is_healthy() {
    let b = format_record(1, "r", "ACGT", "5555", "20", 80).unwrap();
    assert_eq!(b[0].spans[0].tone, Tone::Healthy);
    assert_eq!(b[0].spans[8].tone, Tone::Muted);
}

#[test]
fn average_just_below_twenty_is_a_warning() {
    // 20 + 20 + 20 + 19 over four bytes: 19.75
    let b = format_record(1, "r", "ACGT", "5554", "19.75", 80).unwrap();
    assert_eq!(b[0].spans[0].tone, Tone::Warning);
}

#[test]
fn empty_quality_is_rejected() {
    assert_eq!(format_record(1, "r", "", "", "0", 80).err(), Some(RecordError::EmptyQuality));
}

#[test]
fn length_mismatch_is_rejected() {
    assert_eq!(format_record(1, "r", "ACGT", "III", "40", 80).err(), Some(RecordError::LengthMismatch));
}

#[test]
fn block_lines_share_gutter_width() {
    let b = format_record(42, "r", "ACGTACGTACGTACGT", "IIIIIIIIIIIIIIII", "40", 5).unwrap();
    assert_eq!(b.len(), 5);
    for l in &b {
        assert_eq!(l.gutter.chars().count(), 10);
    }
    assert_eq!(texts(&b[1..]), vec!["ACGTA", "CGTAC", "GTACG", "T"]);
}

#[test]
fn plain_line_renders_exactly() {
    let line = Line {
        gutter: "G".to_string(),
        spans: vec![
            Span { text: "ab".to_string(), tone: Tone::Plain },
            Span { text: "c".to_string(), tone: Tone::Plain },
        ],
    };
    assert_eq!(render_line(&line), "Gabc\n");
}

#[test]
fn coloured_span_keeps_its_text() {
    let line = Line {
        gutter: String::new(),
        spans: vec![Span { text: "read7".to_string(), tone: Tone::Warning }],
    };
    let out = render_line(&line);
    assert!(out.contains("read7"));
    assert!(out.ends_with('\n'));
}

#[test]
fn rendered_block_starts_with_index_gutter() {
    let b = format_record(9, "r", "ACGT", "IIII", "40", 2).unwrap();
    let out = render_block(&b);
    assert!(out.starts_with(&format!("{}9       {}", BAR, BAR)));
    assert_eq!(out.matches('\n').count(), 3);
    assert!(out.contains(&format!("{}AC\n", blank_gutter())));
    assert!(out.ends_with(&format!("{}GT\n", blank_gutter())));
}

#[test]
fn digits_wrap_like_letters() {
    let lines = print_wrapped_text("AC12GT34N", 4);
    assert_eq!(texts(&lines), vec!["AC12", "GT34", "N"]);
}

#[test]
fn punctuation_in_sequence_keeps_every_character() {
    let seq = "AC-GT*NN.AC-GT";
    for width in 1..20usize {
        let lines = print_wrapped_text(seq, width);
        assert_eq!(texts(&lines).concat(), seq);
    }
}

#[test]
fn line_count_is_ceiling_of_length_over_width() {
    for n in 1..40usize {
        let seq: String = "ACGT".chars().cycle().take(n).collect();
        for width in 1..12usize {
            let lines = print_wrapped_text(&seq, width);
            assert_eq!(lines.len(), (n + width - 1) / width);
            for (k, t) in texts(&lines).iter().enumerate() {
                assert_eq!(t.as_str(), &seq[k * width..std::cmp::min((k + 1) * width, n)]);
            }
        }
    }
}

fn frame(code: &str, text: &str, out: &str) -> bool {
    out == format!("\u{1b}[38;5;{}m{}\u{1b}[39m", code, text)
        || out == format!("\u{1b}[m{}\u{1b}[m", text)
        || out.is_empty()
}

#[test]
fn tones_get_their_own_colours() {
    for (tone, code) in [(Tone::Warning, "9"), (Tone::Healthy, "2"), (Tone::Muted, "8")] {
        let line = Line {
            gutter: String::new(),
            spans: vec![Span { text: "read7".to_string(), tone }],
        };
        let out = render_line(&line);
        let body = out.strip_suffix('\n').unwrap();
        assert!(frame(code, "read7", body), "{:?}", out);
    }
}

#[test]
fn punctuation_is_hard_wrapped() {
    let lines = print_wrapped_text("AC-GT*NN.AC/GT", 4);
    assert_eq!(texts(&lines), vec!["AC-G", "T*NN", ".AC/", "GT"]);
    let long = format!("A/{}", "B".repeat(99));
    let lines = print_wrapped_text(&long, 100);
    assert_eq!(texts(&lines), vec![long[..100].to_string(), "B".to_string()]);
}

#[test]
fn trim_leading_drops_unicode_whitespace() {
    assert_eq!(trim_leading(" \t\u{a0}\u{3000}AC GT "), "AC GT ");
    assert_eq!(trim_leading("ACGT"), "ACGT");
    assert_eq!(trim_leading("   "), "");
    assert_eq!(trim_leading(""), "");
}
