//! Runs of the command line's pipeline, driven through the library the way
//! the program drives it: parse the query, walk the lines, format matches.

use tracegrep::cli::{
    batch_line, body_lines, cli_input_hint, parsed_fields, plan_output, projected_record,
    record_to_row, strict_parse, InputHint, OutputFormat, OutputPlan,
};
use tracegrep::float::FloatRepr;
use tracegrep::group::{bump_group_count, GroupCounts};
use tracegrep::query::parse;
use tracegrep::{CountFormatter, DiagnosticsSink, ExitCode, JsonFormatter, JsonLinesFormatter, TableFormatter};

fn read_float(t: &str) -> FloatRepr {
    let x: f64 = t.parse().expect("float text");
    FloatRepr::new(x.to_bits(), x.to_string())
}

#[derive(Default)]
struct Opts {
    format: Option<OutputFormat>,
    input: Option<InputHint>,
    no_strict: bool,
    jsonl: bool,
    field: Option<String>,
    group_by: Option<String>,
}

struct Run {
    stdout: String,
    stderr: String,
    code: i32,
}

fn run(query: &str, stdin: &str, o: Opts) -> Run {
    let expr = match parse(query, &read_float) {
        Ok(e) => e,
        Err(e) => return Run { stdout: String::new(), stderr: e.message(), code: ExitCode::Error.as_i32() },
    };
    let mut out: Vec<u8> = Vec::new();
    let mut diag = DiagnosticsSink::new(Vec::new());
    let strict = strict_parse(true, o.no_strict);
    let fields = parsed_fields(o.field.as_ref());
    let plan = plan_output(
        o.format.unwrap_or(OutputFormat::Auto),
        o.jsonl,
        fields.as_ref(),
        o.group_by.is_some(),
        false,
        false,
    );
    let hint = cli_input_hint(o.input.unwrap_or(InputHint::Auto));
    let mut matches = Vec::new();
    let mut failure = None;
    for (i, line) in body_lines(stdin).iter().enumerate() {
        match batch_line(line, (i + 1) as u64, &expr, hint, strict, &mut diag, &read_float) {
            Err(e) => {
                failure = Some(e);
                break;
            }
            Ok(Some(rec)) => matches.push(rec),
            Ok(None) => {}
        }
    }
    match plan {
        OutputPlan::Count { grouped: true } => {
            let gb = o.group_by.clone().expect("group-by");
            let mut tallies = GroupCounts::new();
            for r in &matches {
                bump_group_count(&mut tallies, r, &gb);
            }
            out.extend_from_slice(tallies.tally_text().as_bytes());
        }
        OutputPlan::Count { grouped: false } => {
            let mut f = CountFormatter::new(&mut out);
            for r in &matches {
                f.write(r).expect("write");
            }
            if failure.is_none() {
                f.flush().expect("flush");
            }
        }
        OutputPlan::Json { jsonl, attach_raw } => {
            let projected: Vec<_> = matches
                .iter()
                .map(|r| match &fields {
                    Some(cols) => projected_record(r, cols),
                    None => r.clone(),
                })
                .collect();
            if jsonl {
                let mut f = if attach_raw { JsonLinesFormatter::new(&mut out) } else { JsonLinesFormatter::without_raw_footer(&mut out) };
                for r in &projected {
                    f.write(r).expect("write");
                }
            } else {
                let mut f = if attach_raw { JsonFormatter::new(&mut out) } else { JsonFormatter::without_raw_footer(&mut out) };
                for r in &projected {
                    f.write(r).expect("write");
                }
            }
        }
        OutputPlan::Table { color } => {
            let mut t = TableFormatter::with_default_max_buffer(&mut out);
            for r in &matches {
                t.push_row(record_to_row(r, color, fields.as_ref())).expect("push");
            }
            t.flush().expect("flush");
        }
    }
    let code = match &failure {
        Some(_) => ExitCode::Error.as_i32(),
        None => {
            diag.summary().expect("summary");
            ExitCode::from(!matches.is_empty()).as_i32()
        }
    };
    let mut stderr = String::from_utf8(diag.into_inner()).expect("utf-8");
    if let Some(e) = failure {
        stderr.push_str(&e);
    }
    Run { stdout: String::from_utf8(out).expect("utf-8"), stderr, code }
}

#[test]
fn count_jsonl_stdin() {
    let r = run(
        "level = \"error\"",
        "{\"level\":\"error\"}\n{\"level\":\"info\"}\n",
        Opts { format: Some(OutputFormat::Count), ..Opts::default() },
    );
    assert_eq!(r.stdout, "1\n");
    assert_eq!(r.code, 0);
}

#[test]
fn json_explicit_prints_matching_line() {
    let r = run(
        "msg ~ \"timeout\"",
        "{\"level\":\"error\",\"msg\":\"timeout\"}\n{\"level\":\"info\",\"msg\":\"ok\"}\n",
        Opts { format: Some(OutputFormat::Json), ..Opts::default() },
    );
    assert!(r.stdout.contains("timeout") && r.stdout.contains("error"));
    assert_eq!(r.stdout.lines().count(), 1);
}

#[test]
fn table_mode_includes_columns() {
    let r = run(
        "level = \"error\"",
        "{\"level\":\"error\",\"msg\":\"boom\"}\n",
        Opts { format: Some(OutputFormat::Table), ..Opts::default() },
    );
    assert!(r.stdout.contains("level") && r.stdout.contains("error"));
}

#[test]
fn logfmt_input_hint_filters() {
    let r = run(
        "level = \"error\"",
        "level=error msg=timeout\nlevel=info msg=ok\n",
        Opts { format: Some(OutputFormat::Count), input: Some(InputHint::Logfmt), ..Opts::default() },
    );
    assert_eq!(r.stdout, "1\n");
}

#[test]
fn bad_query_exits_error_code() {
    let r = run("((((", "{\"a\":1}\n", Opts { format: Some(OutputFormat::Count), ..Opts::default() });
    assert_eq!(r.code, 2);
}

#[test]
fn strict_default_malformed_json_aborts_exit_two() {
    let r = run(
        "level = \"error\"",
        "{not-json\n{\"level\":\"error\"}\n",
        Opts { format: Some(OutputFormat::Count), input: Some(InputHint::Json), ..Opts::default() },
    );
    assert_eq!(r.code, 2);
    assert!(r.stderr.starts_with("line 1: parse: "), "{}", r.stderr);
}

#[test]
fn no_strict_skips_malformed_still_matches() {
    let r = run(
        "level = \"error\"",
        "{bad\n{\"level\":\"error\"}\n",
        Opts {
            format: Some(OutputFormat::Count),
            input: Some(InputHint::Json),
            no_strict: true,
            ..Opts::default()
        },
    );
    assert_eq!(r.stdout, "1\n");
    assert_eq!(r.code, 0);
    assert!(r.stderr.starts_with("tracegrep: warning: line 1: parse: "), "{}", r.stderr);
    assert!(r.stderr.ends_with("tracegrep: 1 line skipped (use --strict to abort on first)\n"));
}

#[test]
fn no_matches_exit_one() {
    let r = run(
        "level = \"bogus\"",
        "{\"level\":\"info\"}\n",
        Opts { format: Some(OutputFormat::Count), input: Some(InputHint::Json), ..Opts::default() },
    );
    assert_eq!(r.code, 1);
}

#[test]
fn group_by_counts_tab_lines() {
    let r = run(
        "level = \"error\"",
        "{\"level\":\"error\",\"host\":\"a\"}\n{\"level\":\"error\",\"host\":\"b\"}\n{\"level\":\"info\",\"host\":\"b\"}\n{\"level\":\"error\",\"host\":\"a\"}\n",
        Opts {
            format: Some(OutputFormat::Count),
            input: Some(InputHint::Json),
            group_by: Some("host".to_string()),
            ..Opts::default()
        },
    );
    assert_eq!(r.stdout.lines().collect::<Vec<_>>(), vec!["a\t2", "b\t1"]);
}

#[test]
fn field_projection_json_subsets_output() {
    let r = run(
        "msg ~ \"hi\"",
        "{\"level\":\"error\",\"msg\":\"hi\"}\n",
        Opts {
            format: Some(OutputFormat::Json),
            input: Some(InputHint::Json),
            field: Some("msg".to_string()),
            ..Opts::default()
        },
    );
    assert!(r.stdout.contains("\"msg\""));
    assert!(!r.stdout.contains("\"level\""));
    assert!(!r.stdout.contains("\"_raw\""));
}

#[test]
fn field_projection_listing_raw_keeps_raw_line() {
    let input = "{\"level\":\"error\",\"msg\":\"hi\"}\n";
    let r = run(
        "msg ~ \"hi\"",
        input,
        Opts {
            format: Some(OutputFormat::Json),
            input: Some(InputHint::Json),
            field: Some("level,_raw".to_string()),
            ..Opts::default()
        },
    );
    assert_eq!(r.stdout, "{\"_raw\":\"{\\\"level\\\":\\\"error\\\",\\\"msg\\\":\\\"hi\\\"}\",\"level\":\"error\"}\n");
    let t = run(
        "msg ~ \"hi\"",
        input,
        Opts {
            format: Some(OutputFormat::Table),
            input: Some(InputHint::Json),
            field: Some("_raw,level".to_string()),
            ..Opts::default()
        },
    );
    let lines: Vec<&str> = t.stdout.lines().collect();
    assert_eq!(lines[0], "_raw                         | level");
    assert_eq!(lines[2], "{\"level\":\"error\",\"msg\":\"hi\"} | error");
}

#[test]
fn jsonl_flag_writes_ndjson_stdout() {
    let r = run(
        "msg ~ \"timeout\"",
        "{\"msg\":\"timeout\"}\n{\"msg\":\"ok\"}\n",
        Opts {
            format: Some(OutputFormat::Json),
            input: Some(InputHint::Json),
            jsonl: true,
            ..Opts::default()
        },
    );
    assert_eq!(r.stdout, "{\"_raw\":\"{\\\"msg\\\":\\\"timeout\\\"}\",\"msg\":\"timeout\"}\n");
}

#[test]
fn readme_examples_produce_documented_output() {
    let r = run(
        "level = \"error\"",
        "{\"level\":\"info\",\"msg\":\"ok\"}\n{\"level\":\"error\",\"msg\":\"timeout connecting to upstream\"}\n",
        Opts { format: Some(OutputFormat::Json), ..Opts::default() },
    );
    assert_eq!(
        r.stdout,
        "{\"_raw\":\"{\\\"level\\\":\\\"error\\\",\\\"msg\\\":\\\"timeout connecting to upstream\\\"}\",\"level\":\"error\",\"msg\":\"timeout connecting to upstream\"}\n"
    );
    let l = run(
        "level = \"error\"",
        "level=info msg=ok cache=warm\nlevel=error msg=timeout service=payments\n",
        Opts { format: Some(OutputFormat::Json), input: Some(InputHint::Logfmt), ..Opts::default() },
    );
    assert_eq!(
        l.stdout,
        "{\"_raw\":\"level=error msg=timeout service=payments\",\"level\":\"error\",\"msg\":\"timeout\",\"service\":\"payments\"}\n"
    );
    let t = run(
        "level = \"error\"",
        "{\"level\":\"info\",\"msg\":\"ok\"}\n{\"level\":\"error\",\"msg\":\"timeout\"}",
        Opts { format: Some(OutputFormat::Table), ..Opts::default() },
    );
    assert_eq!(
        t.stdout,
        "_raw                              | level | msg    \n----------------------------------+-------+--------\n{\"level\":\"error\",\"msg\":\"timeout\"} | error | timeout\n"
    );
}
