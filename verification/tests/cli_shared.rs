use browsectl::cli::{
    attach, duration_too_long, expect_value, parse_duration_secs, parse_file_list, parse_value,
    validate_connect_args, AttachTarget, CliError, DEFAULT_PORT,
};

fn args(v: &[&str]) -> Vec<String> {
    v.iter().map(|s| s.to_string()).collect()
}

fn invalid_args_message(e: CliError) -> String {
    match e {
        CliError::InvalidArgs(m) => m,
        other => panic!("expected InvalidArgs, got {:?}", other),
    }
}

#[test]
fn exit_codes_follow_the_error_kind() {
    assert_eq!(CliError::ExecutionFailed("x".to_string()).exit_code(), 1);
    assert_eq!(CliError::InvalidArgs("x".to_string()).exit_code(), 2);
    assert_eq!(CliError::Timeout("x".to_string()).exit_code(), 3);
    assert_eq!(CliError::ConnectionFailed("x".to_string()).exit_code(), 4);
}

#[test]
fn message_is_the_carried_text_for_every_kind() {
    assert_eq!(CliError::ExecutionFailed("boom".to_string()).message(), "boom");
    assert_eq!(CliError::InvalidArgs("bad flag".to_string()).message(), "bad flag");
    assert_eq!(CliError::Timeout("too slow".to_string()).message(), "too slow");
    assert_eq!(CliError::ConnectionFailed("no debugger".to_string()).message(), "no debugger");
}

#[test]
fn expect_value_returns_the_argument_at_the_index() {
    let a = args(&["--url", "https://example.com"]);
    assert_eq!(expect_value(&a, 1, "--url").unwrap(), "https://example.com");
}

#[test]
fn expect_value_names_the_flag_when_the_value_is_missing() {
    let a = args(&["--url"]);
    let e = expect_value(&a, 1, "--url").unwrap_err();
    assert_eq!(invalid_args_message(e), "--url requires a value");
}

#[test]
fn parse_value_reads_numbers_of_the_requested_width() {
    let a = args(&["--port", "9333", "--width", "+1920"]);
    let port: u16 = parse_value(&a, 1, "--port").unwrap();
    assert_eq!(port, 9333);
    let width: u32 = parse_value(&a, 3, "--width").unwrap();
    assert_eq!(width, 1920);
}

#[test]
fn parse_value_rejects_out_of_range_and_garbage() {
    let a = args(&["--port", "70000", "--port", "abc", "--port", " 80"]);
    for i in [1usize, 3, 5] {
        let r: Result<u16, CliError> = parse_value(&a, i, "--port");
        assert_eq!(invalid_args_message(r.unwrap_err()), "invalid value for --port");
    }
}

#[test]
fn parse_value_reports_a_missing_value() {
    let a = args(&["--port"]);
    let r: Result<u64, CliError> = parse_value(&a, 1, "--port");
    assert_eq!(invalid_args_message(r.unwrap_err()), "--port requires a value");
}

#[test]
fn validate_connect_args_rejects_port_and_package_together() {
    let e = validate_connect_args(Some(9222), &Some("com.example".to_string())).unwrap_err();
    assert_eq!(invalid_args_message(e), "--port and --package cannot be used together");
    assert_eq!(validate_connect_args(Some(9333), &None).unwrap(), 9333);
    assert!(validate_connect_args(None, &Some("com.example".to_string())).is_ok());
    assert_eq!(validate_connect_args(None, &None).unwrap(), 9222);
}

#[test]
fn attach_defaults_to_port_9222() {
    assert!(matches!(attach(None, None, false), Ok(AttachTarget::Port(9222))));
    assert_eq!(DEFAULT_PORT, 9222);
    assert!(matches!(attach(Some(9400), None, true), Ok(AttachTarget::Port(9400))));
}

#[test]
fn attach_to_a_package_needs_android_support() {
    match attach(None, Some("com.example.app"), true) {
        Ok(AttachTarget::Package(p)) => assert_eq!(p, "com.example.app"),
        _ => panic!("expected the package target"),
    }
    let e = match attach(Some(9222), Some("com.example.app"), false) {
        Err(e) => e,
        Ok(_) => panic!("expected an error without android support"),
    };
    assert_eq!(
        invalid_args_message(e),
        "--package requires building browse with `--features android`"
    );
}

#[test]
fn plain_and_suffixed_durations_read_back() {
    for n in [0u64, 7, 45, 3600, 86_400] {
        assert_eq!(parse_duration_secs(&n.to_string()).unwrap(), n);
        assert_eq!(parse_duration_secs(&format!("{}s", n)).unwrap(), n);
        assert_eq!(parse_duration_secs(&format!("{}m", n)).unwrap(), n * 60);
        assert_eq!(parse_duration_secs(&format!("{}h", n)).unwrap(), n * 3600);
    }
}

#[test]
fn duration_message_quotes_the_trimmed_value() {
    let e = parse_duration_secs("  5x  ").unwrap_err();
    assert_eq!(
        invalid_args_message(e),
        "invalid --max-age value: '5x' (expected e.g. 30, 30s, 5m, 1h)"
    );
}

#[test]
fn duration_too_long_spots_overflowing_hours() {
    assert!(duration_too_long("18446744073709551615h"));
    assert!(duration_too_long(" 5124095576030432h "));
    assert!(!duration_too_long("5124095576030431h"));
    assert!(!duration_too_long("18446744073709551615"));
    assert!(!duration_too_long("garbage"));
    assert_eq!(parse_duration_secs("5124095576030431h").unwrap(), 5124095576030431 * 3600);
}

#[test]
fn file_list_joined_with_commas_reads_back() {
    let paths = vec!["./a.png".to_string(), "C:\\docs\\b.pdf".to_string(), "c d.txt".to_string()];
    assert_eq!(parse_file_list(&paths.join(",")).unwrap(), paths);
}

#[test]
fn file_list_entries_are_clean() {
    let got = parse_file_list(" , a ,,\tb\t,").unwrap();
    assert_eq!(got, vec!["a".to_string(), "b".to_string()]);
    let e = parse_file_list(" \t ").unwrap_err();
    assert_eq!(invalid_args_message(e), "--files must contain at least one path");
}
