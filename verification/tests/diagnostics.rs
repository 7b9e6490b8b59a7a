use tracegrep::DiagnosticsSink;

fn text(sink: DiagnosticsSink<Vec<u8>>) -> String {
    String::from_utf8(sink.into_inner()).expect("utf-8")
}

#[test]
fn diagnostics_record_skip_writes_exact_warning_line() {
    let mut sink = DiagnosticsSink::new(Vec::new());
    sink.record_skip(3, "unparseable");
    assert_eq!(text(sink), "tracegrep: warning: line 3: unparseable\n");
}

#[test]
fn diagnostics_two_skips_reflect_in_summary_lines_tally() {
    let mut sink = DiagnosticsSink::new(Vec::new());
    sink.record_skip(10, "a");
    sink.record_skip(11, "b");
    sink.summary().expect("summary");
    assert_eq!(
        text(sink),
        "tracegrep: warning: line 10: a\n\
         tracegrep: warning: line 11: b\n\
         tracegrep: 2 lines skipped (use --strict to abort on first)\n"
    );
}

#[test]
fn diagnostics_record_error_writes_exact_error_line() {
    let mut sink = DiagnosticsSink::new(Vec::new());
    sink.record_error(7, "boom");
    assert_eq!(text(sink), "tracegrep: error: line 7: boom\n");
}

#[test]
fn diagnostics_summary_emits_error_tally_plural_and_singular() {
    let mut sink = DiagnosticsSink::new(Vec::new());
    sink.record_error(1, "e1");
    sink.record_error(2, "e2");
    sink.summary().expect("summary");
    assert_eq!(
        text(sink),
        "tracegrep: error: line 1: e1\ntracegrep: error: line 2: e2\ntracegrep: 2 errors\n"
    );

    let mut one = DiagnosticsSink::new(Vec::new());
    one.record_error(99, "only");
    one.summary().expect("summary");
    assert_eq!(text(one), "tracegrep: error: line 99: only\ntracegrep: 1 error\n");
}

#[test]
fn diagnostics_summary_formats_example_twelve_lines_skipped_line() {
    let mut sink = DiagnosticsSink::new(Vec::new());
    for n in 1..=12u64 {
        sink.record_skip(n, "bad line");
    }
    sink.summary().expect("summary");
    let out = text(sink);
    assert!(out.ends_with("tracegrep: 12 lines skipped (use --strict to abort on first)\n"));
}

#[test]
fn diagnostics_summary_writes_nothing_when_no_skips_or_errors() {
    let mut sink = DiagnosticsSink::new(Vec::new());
    sink.summary().expect("summary");
    assert_eq!(text(sink), "");
}

#[test]
fn diagnostics_summary_emits_skip_then_error_tally() {
    let mut sink = DiagnosticsSink::new(Vec::new());
    sink.record_skip(5, "s");
    sink.record_error(6, "e");
    sink.summary().expect("summary");
    assert_eq!(
        text(sink),
        "tracegrep: warning: line 5: s\n\
         tracegrep: error: line 6: e\n\
         tracegrep: 1 line skipped (use --strict to abort on first)\n\
         tracegrep: 1 error\n"
    );
}
