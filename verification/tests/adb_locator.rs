use browsectl::adb::{extract_pid, parse_forward_port, parse_webview_sockets, ps_process_name_matches};

#[test]
fn test_parse_webview_sockets_finds_matching_entries() {
    let proc_net_unix = "\
Num       RefCount Protocol Flags    Type St Inode Path
0000000000000000: 00000002 00000000 00010000 0001 01 12345 /dev/socket/zygote
0000000000000000: 00000003 00000000 00000000 0001 01 22222 @webview_devtools_remote_5678
0000000000000000: 00000002 00000000 00010000 0001 01 33333 @webview_devtools_remote_9012
";
    let sockets = parse_webview_sockets(proc_net_unix);
    assert_eq!(
        sockets,
        vec!["webview_devtools_remote_5678", "webview_devtools_remote_9012"]
    );
}

#[test]
fn test_parse_webview_sockets_returns_empty_when_none_present() {
    let proc_net_unix = "\
Num       RefCount Protocol Flags    Type St Inode Path
0000000000000000: 00000002 00000000 00010000 0001 01 12345 /dev/socket/zygote
";
    assert!(parse_webview_sockets(proc_net_unix).is_empty());
}

#[test]
fn test_extract_pid_reads_trailing_number() {
    assert_eq!(extract_pid("webview_devtools_remote_5678"), Some("5678"));
}

#[test]
fn test_extract_pid_returns_none_when_trailing_segment_is_not_numeric() {
    assert_eq!(extract_pid("webview_devtools_remote_"), None);
    assert_eq!(extract_pid("not_a_pid_abc"), None);
}

#[test]
fn test_ps_process_name_matches_exact_package_name() {
    let ps = "\
USER     PID   PPID  VSZ    RSS   WCHAN  ADDR S NAME
u0_a123  5678  456   123456 65432 0      0    S com.example.app
";
    assert!(ps_process_name_matches(ps, "5678", "com.example.app"));
}

#[test]
fn test_ps_process_name_matches_named_sub_process() {
    let ps = "\
USER     PID   PPID  VSZ    RSS   WCHAN  ADDR S NAME
u0_a123  9012  456   123456 65432 0      0    S com.example.app:webview_service
";
    assert!(ps_process_name_matches(ps, "9012", "com.example.app"));
}

#[test]
fn test_ps_process_name_matches_returns_false_for_other_package() {
    let ps = "\
USER     PID   PPID  VSZ    RSS   WCHAN  ADDR S NAME
u0_a999  4242  456   123456 65432 0      0    S com.other.app
";
    assert!(!ps_process_name_matches(ps, "4242", "com.example.app"));
}

#[test]
fn test_ps_process_name_matches_returns_false_for_unknown_pid() {
    let ps = "\
USER     PID   PPID  VSZ    RSS   WCHAN  ADDR S NAME
u0_a123  5678  456   123456 65432 0      0    S com.example.app
";
    assert!(!ps_process_name_matches(ps, "9999", "com.example.app"));
}

#[test]
fn test_parse_forward_port_reads_valid_port() {
    assert_eq!(parse_forward_port("41235\n"), Ok(41235));
}

#[test]
fn test_parse_forward_port_fails_on_garbage_output() {
    assert!(parse_forward_port("error: no devices/emulators found\n").is_err());
}
