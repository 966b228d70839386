use browsectl::cli::{parse_duration_secs, parse_file_list};

#[test]
fn test_parse_duration_secs_accepts_plain_integer() {
    assert_eq!(parse_duration_secs("45").unwrap(), 45);
}

#[test]
fn test_parse_duration_secs_accepts_seconds_suffix() {
    assert_eq!(parse_duration_secs("30s").unwrap(), 30);
}

#[test]
fn test_parse_duration_secs_accepts_minutes_suffix() {
    assert_eq!(parse_duration_secs("5m").unwrap(), 300);
}

#[test]
fn test_parse_duration_secs_accepts_hours_suffix() {
    assert_eq!(parse_duration_secs("1h").unwrap(), 3600);
}

#[test]
fn test_parse_duration_secs_rejects_garbage() {
    assert!(parse_duration_secs("banana").is_err());
}

#[test]
fn test_parse_duration_secs_rejects_suffix_with_no_number() {
    assert!(parse_duration_secs("h").is_err());
}

#[test]
fn test_parse_file_list_splits_on_comma() {
    assert_eq!(
        parse_file_list("a.png,b.pdf").unwrap(),
        vec!["a.png".to_string(), "b.pdf".to_string()]
    );
}

#[test]
fn test_parse_file_list_trims_whitespace_around_entries() {
    assert_eq!(
        parse_file_list(" a.png , b.pdf ").unwrap(),
        vec!["a.png".to_string(), "b.pdf".to_string()]
    );
}

#[test]
fn test_parse_file_list_accepts_a_single_path() {
    assert_eq!(parse_file_list("only.png").unwrap(), vec!["only.png".to_string()]);
}

#[test]
fn test_parse_file_list_rejects_empty_string() {
    assert!(parse_file_list("").is_err());
}

#[test]
fn test_parse_file_list_rejects_only_commas() {
    assert!(parse_file_list(",,").is_err());
}
