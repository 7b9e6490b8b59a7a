use tracegrep::cli::{
    batch_line, body_lines, check_follow, cli_input_hint, follow_parse_spec, parsed_fields,
    plan_output, projected_record, record_to_row, resolve_output, strict_parse, EffectiveOutput,
    InputHint, OutputFormat, OutputPlan,
};
use tracegrep::float::FloatRepr;
use tracegrep::follow::FollowParseSpec;
use tracegrep::parser::resilience::CliInputHint;
use tracegrep::query::parse;
use tracegrep::{DiagnosticsSink, Format, Record, Value};

fn read_float(t: &str) -> FloatRepr {
    let x: f64 = t.parse().expect("float text");
    FloatRepr::new(x.to_bits(), x.to_string())
}

#[test]
fn resolve_output_auto_depends_on_tty() {
    assert_eq!(resolve_output(OutputFormat::Auto, true), EffectiveOutput::Table);
    assert_eq!(resolve_output(OutputFormat::Auto, false), EffectiveOutput::Json);
    assert_eq!(resolve_output(OutputFormat::Count, true), EffectiveOutput::Count);
    assert_eq!(resolve_output(OutputFormat::Json, true), EffectiveOutput::Json);
}

#[test]
fn parsed_fields_trims_and_drops_empty_names() {
    let got = parsed_fields(Some(&" level, ,svc ,".to_string()));
    assert_eq!(got, Some(vec!["level".to_string(), "svc".to_string()]));
    assert_eq!(parsed_fields(Some(&" , ".to_string())), None);
    assert_eq!(parsed_fields(Some(&String::new())), None);
    assert_eq!(parsed_fields(None), None);
}

#[test]
fn projected_record_keeps_listed_fields_and_raw() {
    let mut r = Record::new("orig");
    r.insert("a".to_string(), Value::Int(1));
    r.insert("b".to_string(), Value::Int(2));
    let p = projected_record(&r, &vec!["b".to_string(), "zz".to_string()]);
    assert_eq!(p.get("b"), Some(&Value::Int(2)));
    assert_eq!(p.get("a"), None);
    assert_eq!(p.get("zz"), None);
    assert_eq!(p.raw(), "orig");
}

#[test]
fn record_to_row_colors_level_and_projects() {
    let mut r = Record::new("line");
    r.insert("level".to_string(), Value::Str("error".into()));
    r.insert("n".to_string(), Value::Bool(true));
    let full = record_to_row(&r, true, None);
    assert_eq!(full.get("level"), Some(&"\x1b[31merror\x1b[0m".to_string()));
    assert_eq!(full.get("n"), Some(&"true".to_string()));
    assert_eq!(full.get("_raw"), Some(&"line".to_string()));
    let proj = vec!["level".to_string(), "missing".to_string()];
    let part = record_to_row(&r, false, Some(&proj));
    assert_eq!(part.get("level"), Some(&"error".to_string()));
    assert_eq!(part.get("missing"), Some(&String::new()));
    assert_eq!(part.get("_raw"), None);
    let with_raw = vec!["_raw".to_string(), "level".to_string()];
    let part = record_to_row(&r, false, Some(&with_raw));
    assert_eq!(part.get("_raw"), Some(&"line".to_string()));
    assert_eq!(part.get("level"), Some(&"error".to_string()));
}

#[test]
fn body_lines_agree_with_str_lines() {
    for body in ["", "a", "a\n", "a\r\nb", "\n\n", "x\r", "a\n\nb\r\n", "é\r\r\n"] {
        let got = body_lines(body);
        let want: Vec<String> = body.lines().map(|l| l.to_string()).collect();
        assert_eq!(got, want, "body {body:?}");
    }
}

#[test]
fn batch_line_strict_aborts_and_lenient_skips() {
    let expr = parse("level = \"error\"", &read_float).expect("query");
    let mut diag = DiagnosticsSink::new(Vec::new());
    let hit = batch_line("{\"level\":\"error\"}", 1, &expr, CliInputHint::Json, true, &mut diag, &read_float)
        .expect("ok");
    assert!(hit.is_some());
    let miss = batch_line("{\"level\":\"info\"}", 2, &expr, CliInputHint::Json, true, &mut diag, &read_float)
        .expect("ok");
    assert!(miss.is_none());
    let blank = batch_line("   ", 3, &expr, CliInputHint::Json, true, &mut diag, &read_float).expect("ok");
    assert!(blank.is_none());
    let err = batch_line("{bad", 4, &expr, CliInputHint::Json, true, &mut diag, &read_float)
        .expect_err("strict");
    assert!(err.starts_with("line 4: parse: "), "{err}");
    assert_eq!(diag.skipped_count(), 0);
    let skipped = batch_line("k=\"x", 5, &expr, CliInputHint::Logfmt, false, &mut diag, &read_float)
        .expect("lenient");
    assert!(skipped.is_none());
    assert_eq!(diag.skipped_count(), 1);
    let out = String::from_utf8(diag.into_inner()).expect("utf-8");
    assert_eq!(out, "tracegrep: warning: line 5: parse: unclosed quoted value\n");
}

#[test]
fn plans_and_follow_checks() {
    assert_eq!(
        plan_output(OutputFormat::Json, true, Some(&vec!["level".to_string()]), false, false, false),
        OutputPlan::Json { jsonl: true, attach_raw: false }
    );
    assert_eq!(
        plan_output(OutputFormat::Json, false, Some(&vec!["level".to_string(), "_raw".to_string()]), false, false, false),
        OutputPlan::Json { jsonl: false, attach_raw: true }
    );
    assert_eq!(
        plan_output(OutputFormat::Json, false, None, false, false, false),
        OutputPlan::Json { jsonl: false, attach_raw: true }
    );
    assert_eq!(
        plan_output(OutputFormat::Auto, false, None, false, true, false),
        OutputPlan::Table { color: true }
    );
    assert_eq!(
        plan_output(OutputFormat::Table, false, None, false, true, true),
        OutputPlan::Table { color: false }
    );
    assert_eq!(
        plan_output(OutputFormat::Count, false, None, true, false, false),
        OutputPlan::Count { grouped: true }
    );
    assert!(strict_parse(true, false));
    assert!(!strict_parse(true, true));
    let count = OutputPlan::Count { grouped: false };
    assert_eq!(check_follow(2, false, count), Err("--follow requires exactly one file path (not stdin)".to_string()));
    assert_eq!(check_follow(1, true, count), Err("--follow does not support stdin; pass a file path".to_string()));
    assert_eq!(
        check_follow(1, false, OutputPlan::Count { grouped: true }),
        Err("--group-by is not supported with --follow".to_string())
    );
    assert_eq!(check_follow(1, false, count), Ok(()));
    assert_eq!(cli_input_hint(InputHint::Logfmt), CliInputHint::Logfmt);
    assert_eq!(follow_parse_spec(InputHint::Auto), FollowParseSpec::AutoPerLine);
    assert_eq!(follow_parse_spec(InputHint::Json), FollowParseSpec::Fixed(Format::JsonLines));
}
