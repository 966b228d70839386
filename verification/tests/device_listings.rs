use browsectl::adb::{
    extract_pid, forward_args, parse_forward_port, pick_webview_socket, remove_forward_args,
    require_sockets,
};
use browsectl::process::{parse_pid_output, tasklist_csv_has_pid};

const PS: &str = "\
USER           PID  PPID     VSZ    RSS WCHAN            ADDR S NAME
u0_a123       5678   600 1234567  89012 0                   0 S com.example.other
u0_a124       9012   600 1234567  89012 0                   0 S com.example.app:remote
u0_a125       3456   600 1234567  89012 0                   0 S com.example.app
";

fn sockets(v: &[&str]) -> Vec<String> {
    v.iter().map(|s| s.to_string()).collect()
}

#[test]
fn a_socket_names_the_pid_that_opened_it() {
    for pid in [0u32, 7, 5678, u32::MAX] {
        let name = format!("webview_devtools_remote_{}", pid);
        assert_eq!(extract_pid(&name), Some(pid.to_string().as_str()));
    }
    assert_eq!(extract_pid("12_34"), Some("34"));
    assert_eq!(extract_pid("1234"), Some("1234"));
}

#[test]
fn the_first_socket_of_the_package_is_picked() {
    let s = sockets(&[
        "webview_devtools_remote_5678",
        "webview_devtools_remote_9012",
        "webview_devtools_remote_3456",
    ]);
    assert_eq!(pick_webview_socket(&s, PS, "com.example.app").unwrap(), "webview_devtools_remote_9012");
    assert_eq!(pick_webview_socket(&s, PS, "com.example.other").unwrap(), "webview_devtools_remote_5678");
}

#[test]
fn no_socket_of_the_package_counts_the_others() {
    let s = sockets(&["webview_devtools_remote_5678", "webview_devtools_remote_x"]);
    assert_eq!(
        pick_webview_socket(&s, PS, "com.example.app").unwrap_err(),
        "no active WebView debug socket found for package 'com.example.app' (2 other socket(s) found on the device)"
    );
}

#[test]
fn an_empty_socket_list_is_an_error() {
    assert_eq!(
        require_sockets(&Vec::new()).unwrap_err(),
        "no WebView debug sockets found on the device — is WebView.setWebContentsDebuggingEnabled(true) active for any app?"
    );
    assert!(require_sockets(&sockets(&["webview_devtools_remote_1"])).is_ok());
}

#[test]
fn adb_forward_arguments() {
    assert_eq!(
        forward_args("webview_devtools_remote_42"),
        vec!["forward", "tcp:0", "localabstract:webview_devtools_remote_42"]
    );
    assert_eq!(remove_forward_args(45123), vec!["forward", "--remove", "tcp:45123"]);
}

#[test]
fn forward_port_out_of_range_is_an_error() {
    assert_eq!(parse_forward_port(" 65535\r\n").unwrap(), 65535);
    assert_eq!(
        parse_forward_port("65536\n").unwrap_err(),
        "could not parse port from adb forward output: '65536'"
    );
}

#[test]
fn a_printed_pid_reads_back() {
    for pid in [0u32, 1, 4242, u32::MAX] {
        assert_eq!(parse_pid_output(&format!("{}\n", pid)), Some(pid));
        assert_eq!(parse_pid_output(&format!("  {}\r\n", pid)), Some(pid));
    }
    assert_eq!(parse_pid_output("4294967296\n"), None);
    assert_eq!(parse_pid_output("-1"), None);
}

#[test]
fn tasklist_rows_name_their_pid_only() {
    let row = "\"chrome.exe\",\"1234\",\"Console\",\"1\",\"123,456 K\"\r\n";
    assert!(tasklist_csv_has_pid(row, 1234));
    assert!(!tasklist_csv_has_pid(row, 123));
    assert!(!tasklist_csv_has_pid(row, 12345));
    let two = "\"a.exe\",\"1\",\"Console\"\n\"b.exe\",\"2\",\"Console\"\n";
    assert!(tasklist_csv_has_pid(two, 2));
}

use browsectl::process::{parent_pid_query, start_ticks_query, tasklist_filter};
use browsectl::session::launch_caller;

#[test]
fn process_queries_name_the_pid() {
    assert_eq!(tasklist_filter(4242), "PID eq 4242");
    assert_eq!(
        parent_pid_query(4242),
        "(Get-CimInstance Win32_Process -Filter 'ProcessId=4242').ParentProcessId"
    );
    assert_eq!(start_ticks_query(7), "(Get-Process -Id 7).StartTime.Ticks");
}

#[test]
fn the_recorded_caller_is_the_parent_when_known() {
    assert_eq!(launch_caller(Some(100), 200), 100);
    assert_eq!(launch_caller(None, 200), 200);
}
