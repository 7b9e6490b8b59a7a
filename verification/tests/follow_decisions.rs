use tracegrep::float::FloatRepr;
use tracegrep::follow::{
    capture_enabled, captured_banners, disable_banner_capture, follow_banner, follow_mode,
    push_banner, reset_and_enable_banner_capture, sniff_line_format, BannerCapture, EofAction,
    FollowCursor, FollowMode, FollowParseSpec,
};
use tracegrep::query::parse;
use tracegrep::{DiagnosticsSink, Format, Value};

fn read_float(t: &str) -> FloatRepr {
    let x: f64 = t.parse().expect("float text");
    FloatRepr::new(x.to_bits(), x.to_string())
}

#[test]
fn cursor_reopens_only_when_file_shrinks() {
    let mut c = FollowCursor::new(100);
    assert_eq!(c.on_eof(100), EofAction::Wait);
    assert_eq!(c.on_eof(150), EofAction::Wait);
    assert_eq!(c.on_eof(149), EofAction::Reopen);
    c.on_reopened(10);
    assert_eq!(c.on_eof(10), EofAction::Wait);
    assert_eq!(c.on_eof(9), EofAction::Reopen);
}

#[test]
fn cursor_numbers_lines_and_matches() {
    let expr = parse("seq = 1 or seq = 2", &read_float).expect("query");
    let mut diag = DiagnosticsSink::new(Vec::new());
    let mut c = FollowCursor::new(0);
    let spec = FollowParseSpec::Fixed(Format::JsonLines);
    let a = c.on_line("{\"seq\":1}\r\n", &expr, spec, true, &mut diag, &read_float).expect("ok");
    assert_eq!(a.expect("match").get("seq"), Some(&Value::Int(1)));
    let b = c.on_line("{\"seq\":3}\n", &expr, spec, true, &mut diag, &read_float).expect("ok");
    assert!(b.is_none());
    let e = c.on_line("oops\n", &expr, spec, true, &mut diag, &read_float).expect_err("strict");
    assert!(e.starts_with("line 3: parse: "), "{e}");
    assert_eq!(c.line_count(), 3);
    let auto = c.on_line("seq=2\n", &expr, FollowParseSpec::AutoPerLine, true, &mut diag, &read_float)
        .expect("ok");
    assert!(auto.is_some());
}

#[test]
fn banners_and_modes() {
    assert_eq!(follow_banner("/tmp/a.jsonl"), "==> /tmp/a.jsonl <==");
    assert_eq!(follow_mode(0), Err("follow_paths requires at least one path".to_string()));
    assert_eq!(follow_mode(1), Ok(FollowMode::Single));
    assert_eq!(follow_mode(3), Ok(FollowMode::Multiplexed));
    assert_eq!(sniff_line_format(None), Format::Plain);
    assert_eq!(sniff_line_format(Some("{\"a\":1}\n")), Format::JsonLines);
}

#[test]
fn banner_capture_records_only_while_enabled() {
    let mut c = BannerCapture::new();
    push_banner(&mut c, "ignored".to_string());
    assert!(captured_banners(&c).is_empty());
    reset_and_enable_banner_capture(&mut c);
    assert!(capture_enabled(&c));
    push_banner(&mut c, "==> a <==".to_string());
    push_banner(&mut c, "==> b <==".to_string());
    disable_banner_capture(&mut c);
    push_banner(&mut c, "late".to_string());
    assert_eq!(captured_banners(&c), vec!["==> a <==".to_string(), "==> b <==".to_string()]);
    reset_and_enable_banner_capture(&mut c);
    assert!(captured_banners(&c).is_empty());
}
