use browsectl::cli::CliError;
use browsectl::commands::{
    parse_click_args, parse_eval_args, parse_get_dom_args, parse_input_args, parse_launch_args,
    parse_mock_args, parse_navigate_args, parse_reap_args, parse_screenshot_args,
    parse_set_files_args, parse_stop_args, parse_wait_args, reap_args_overflow,
};

fn args(v: &[&str]) -> Vec<String> {
    v.iter().map(|s| s.to_string()).collect()
}

fn invalid(e: CliError) -> String {
    match e {
        CliError::InvalidArgs(m) => m,
        other => panic!("expected InvalidArgs, got {:?}", other),
    }
}

#[test]
fn click_reads_selector_and_port() {
    let a = parse_click_args(&args(&["--port", "9333", "--selector", "#go"])).unwrap();
    assert_eq!(a.connect.port, Some(9333));
    assert_eq!(a.connect.package, None);
    assert_eq!(a.selector, "#go");
}

#[test]
fn click_requires_a_selector() {
    let e = parse_click_args(&args(&["--port", "9333"])).err().unwrap();
    assert_eq!(invalid(e), "--selector is required");
}

#[test]
fn port_and_package_together_are_refused() {
    let e = parse_stop_args(&args(&["--port", "9222", "--package", "com.x"])).err().unwrap();
    assert_eq!(invalid(e), "--port and --package cannot be used together");
}

#[test]
fn unknown_options_are_named() {
    let e = parse_navigate_args(&args(&["--url", "a", "--bogus"])).err().unwrap();
    assert_eq!(invalid(e), "unknown option: --bogus");
}

#[test]
fn a_flag_without_its_value_is_refused() {
    let e = parse_eval_args(&args(&["--script"])).err().unwrap();
    assert_eq!(invalid(e), "--script requires a value");
}

#[test]
fn a_bad_port_is_refused() {
    let e = parse_get_dom_args(&args(&["--port", "99999"])).err().unwrap();
    assert_eq!(invalid(e), "invalid value for --port");
}

#[test]
fn the_last_of_repeated_flags_wins() {
    let a = parse_navigate_args(&args(&["--url", "a", "--url", "b"])).unwrap();
    assert_eq!(a.url, "b");
}

#[test]
fn eval_defaults_to_text_output() {
    let a = parse_eval_args(&args(&["--script", "document.title"])).unwrap();
    assert_eq!(a.script, "document.title");
    assert_eq!(a.output_format, "text");
    let b = parse_eval_args(&args(&["--script", "1", "--output", "json"])).unwrap();
    assert_eq!(b.output_format, "json");
}

#[test]
fn screenshot_defaults() {
    let a = parse_screenshot_args(&args(&[])).unwrap();
    assert_eq!(a.output, "screenshot.png");
    assert_eq!(a.format, "png");
    assert!(!a.full_page);
    let b = parse_screenshot_args(&args(&["--full-page", "--format", "jpeg", "--output", "p.jpg"]))
        .unwrap();
    assert!(b.full_page);
    assert_eq!(b.format, "jpeg");
    assert_eq!(b.output, "p.jpg");
}

#[test]
fn input_requires_selector_and_text() {
    let a = parse_input_args(&args(&["--selector", "#q", "--text", "hi"])).unwrap();
    assert_eq!((a.selector.as_str(), a.text.as_str()), ("#q", "hi"));
    let e = parse_input_args(&args(&["--selector", "#q"])).err().unwrap();
    assert_eq!(invalid(e), "--text is required");
}

#[test]
fn set_files_splits_the_list() {
    let a = parse_set_files_args(&args(&["--selector", "#f", "--files", "a.png, b.pdf"])).unwrap();
    assert_eq!(a.files, vec!["a.png".to_string(), "b.pdf".to_string()]);
    let e = parse_set_files_args(&args(&["--selector", "#f", "--files", ","])).err().unwrap();
    assert_eq!(invalid(e), "--files must contain at least one path");
}

#[test]
fn get_dom_output_is_optional() {
    let a = parse_get_dom_args(&args(&["--package", "com.x"])).unwrap();
    assert_eq!(a.output, None);
    assert_eq!(a.connect.package, Some("com.x".to_string()));
}

#[test]
fn mock_defaults_to_status_200_and_an_empty_body() {
    let a = parse_mock_args(&args(&["--url-pattern", "*api*"])).unwrap();
    assert_eq!(a.url_pattern, "*api*");
    assert_eq!(a.status, 200);
    assert_eq!(a.body, "");
    let e = parse_mock_args(&args(&["--status", "404"])).err().unwrap();
    assert_eq!(invalid(e), "--url-pattern is required");
}

#[test]
fn wait_defaults_to_thirty_seconds() {
    let a = parse_wait_args(&args(&["--navigation"])).unwrap();
    assert!(a.navigation);
    assert_eq!(a.timeout_secs, 30);
    assert_eq!(a.selector, None);
    let b = parse_wait_args(&args(&["--text", "Done", "--timeout", "5"])).unwrap();
    assert_eq!(b.text, Some("Done".to_string()));
    assert_eq!(b.timeout_secs, 5);
}

#[test]
fn launch_defaults() {
    let a = parse_launch_args(&args(&["--url", "https://example.com", "--headless"])).unwrap();
    assert_eq!(a.url, "https://example.com");
    assert_eq!((a.port, a.width, a.height, a.reap_stale), (9222, 1920, 1080, false));
    let e = parse_launch_args(&args(&["--port", "9300"])).err().unwrap();
    assert_eq!(invalid(e), "--url is required");
}

#[test]
fn reap_reads_dry_run_and_max_age() {
    let a = parse_reap_args(&args(&["--dry-run", "--max-age", "5m"])).unwrap();
    assert!(a.dry_run);
    assert_eq!(a.max_age_secs, Some(300));
    let e = parse_reap_args(&args(&["--max-age", "soon"])).err().unwrap();
    assert_eq!(invalid(e), "invalid --max-age value: 'soon' (expected e.g. 30, 30s, 5m, 1h)");
}

#[test]
fn reap_overflow_is_detected_before_parsing() {
    assert!(reap_args_overflow(&args(&["--max-age", "18446744073709551615h"])));
    assert!(!reap_args_overflow(&args(&["--bogus", "--max-age", "18446744073709551615h"])));
    assert!(!reap_args_overflow(&args(&["--dry-run", "--max-age", "1h"])));
}
