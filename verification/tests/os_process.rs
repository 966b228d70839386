use browsectl::process::{parse_pid_output, parse_ticks_output, tasklist_csv_has_pid};

#[test]
fn test_tasklist_csv_has_pid_finds_matching_row() {
    let output = "\"chrome.exe\",\"12345\",\"Console\",\"1\",\"50,000 K\"\r\n";
    assert!(tasklist_csv_has_pid(output, 12345));
}

#[test]
fn test_tasklist_csv_has_pid_returns_false_for_other_pid() {
    let output = "\"chrome.exe\",\"12345\",\"Console\",\"1\",\"50,000 K\"\r\n";
    assert!(!tasklist_csv_has_pid(output, 99999));
}

#[test]
fn test_tasklist_csv_has_pid_returns_false_when_no_tasks_found() {
    let output = "INFO: No tasks are running which match the specified criteria.\r\n";
    assert!(!tasklist_csv_has_pid(output, 12345));
}

#[test]
fn test_parse_ticks_output_extracts_value() {
    assert_eq!(
        parse_ticks_output("\r\n639198444010163984\r\n"),
        Some("639198444010163984".to_string())
    );
}

#[test]
fn test_parse_ticks_output_returns_none_when_blank() {
    assert_eq!(parse_ticks_output("\r\n"), None);
    assert_eq!(parse_ticks_output(""), None);
}

#[test]
fn test_parse_pid_output_extracts_value() {
    assert_eq!(parse_pid_output("\r\n4242\r\n"), Some(4242));
}

#[test]
fn test_parse_pid_output_returns_none_when_blank() {
    assert_eq!(parse_pid_output("\r\n"), None);
    assert_eq!(parse_pid_output(""), None);
}

#[test]
fn test_parse_pid_output_returns_none_for_non_numeric_garbage() {
    assert_eq!(parse_pid_output("not a pid"), None);
}
