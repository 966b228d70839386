use browsectl::browser::{
    adb_candidates, browser_candidates, debugger_list_url, http_failure_msg, launch_args,
    no_adb_error, no_browser_error, page_ws_url, path_override, searches_path,
    ws_url_from_target_list, CdpClientBuilder, PageTarget, Platform, PlatformBrowserLocator,
    PortCounter,
};

#[test]
fn browser_candidates_per_platform() {
    let linux = browser_candidates(Platform::Other);
    assert_eq!(linux[0], "google-chrome-stable");
    assert_eq!(linux.len(), 6);
    let win = browser_candidates(Platform::Windows);
    assert_eq!(win[0], "C:\\Program Files\\Google\\Chrome\\Application\\chrome.exe");
    let mac = browser_candidates(Platform::MacOs);
    assert_eq!(mac[3], "/Applications/Chromium.app/Contents/MacOS/Chromium");
    assert!(!searches_path(Platform::Windows));
    assert!(searches_path(Platform::MacOs) && searches_path(Platform::Other));
}

#[test]
fn override_paths_must_exist() {
    assert_eq!(path_override("CHROME_PATH", "/opt/chrome", true).unwrap(), "/opt/chrome");
    assert_eq!(
        path_override("ADB_PATH", "/nope/adb", false).unwrap_err(),
        "ADB_PATH is set to '/nope/adb' but that path does not exist"
    );
}

#[test]
fn not_found_messages() {
    assert_eq!(
        no_browser_error(),
        "No Chromium-based browser found. Install Chrome/Edge/Brave or set CHROME_PATH."
    );
    assert_eq!(no_adb_error(), "adb not found. Install Android SDK platform-tools or set ADB_PATH.");
}

#[test]
fn adb_candidates_per_platform() {
    assert_eq!(
        adb_candidates(Platform::Other, None, Some("/home/u")),
        vec![
            "/home/u/Android/Sdk/platform-tools/adb".to_string(),
            "/usr/lib/android-sdk/platform-tools/adb".to_string(),
        ]
    );
    assert_eq!(
        adb_candidates(Platform::Other, None, None),
        vec!["/usr/lib/android-sdk/platform-tools/adb".to_string()]
    );
    assert_eq!(
        adb_candidates(Platform::Windows, Some("C:\\Users\\u\\AppData\\Local"), Some("/h")),
        vec!["C:\\Users\\u\\AppData\\Local\\Android\\Sdk\\platform-tools\\adb.exe".to_string()]
    );
    assert_eq!(
        adb_candidates(Platform::MacOs, None, Some("/Users/u")),
        vec!["/Users/u/Library/Android/sdk/platform-tools/adb".to_string()]
    );
    assert!(adb_candidates(Platform::Windows, None, Some("/h")).is_empty());
}

#[test]
fn launch_arguments_put_the_port_and_the_url() {
    let a = launch_args(9301, "data:text/html,<p>x</p>");
    assert_eq!(a.len(), 10);
    assert_eq!(a[0], "--headless=new");
    assert_eq!(a[1], "--remote-debugging-port=9301");
    assert_eq!(a[9], "data:text/html,<p>x</p>");
}

#[test]
fn debugger_urls_and_http_failures() {
    assert_eq!(debugger_list_url(9222), "http://localhost:9222/json");
    assert_eq!(
        http_failure_msg("http://localhost:1/json", 7),
        "HTTP GET http://localhost:1/json failed (exit 7)"
    );
    assert_eq!(http_failure_msg("u", -1), "HTTP GET u failed (exit -1)");
    assert_eq!(http_failure_msg("u", i32::MIN), "HTTP GET u failed (exit -2147483648)");
}

#[test]
fn the_first_page_target_gives_the_url() {
    let body = r#"[
        {"type":"service_worker","webSocketDebuggerUrl":"ws://localhost:9222/devtools/sw/1"},
        {"type":"page","webSocketDebuggerUrl":"ws://localhost:9222/devtools/page/ABC"},
        {"type":"page","webSocketDebuggerUrl":"ws://localhost:9222/devtools/page/DEF"}
    ]"#;
    assert_eq!(ws_url_from_target_list(body).unwrap(), "ws://localhost:9222/devtools/page/ABC");
}

#[test]
fn no_page_target_and_unreadable_bodies_are_errors() {
    assert_eq!(
        ws_url_from_target_list(r#"[{"type":"iframe","webSocketDebuggerUrl":"ws://x"}]"#)
            .unwrap_err(),
        "no page target found in Chromium /json response"
    );
    assert_eq!(
        ws_url_from_target_list(r#"[{"type":"page"}]"#).unwrap_err(),
        "no page target found in Chromium /json response"
    );
    let e = ws_url_from_target_list("<html>not json</html>").unwrap_err();
    assert!(e.starts_with("failed to parse /json response: "), "{e}");
    let e = ws_url_from_target_list(r#"{"type":"page"}"#).unwrap_err();
    assert!(e.starts_with("failed to parse /json response: "), "{e}");
}

#[test]
fn page_ws_url_looks_at_the_first_page_only() {
    let targets = vec![
        PageTarget { kind: Some("other".to_string()), ws_url: Some("ws://a".to_string()) },
        PageTarget { kind: Some("page".to_string()), ws_url: None },
        PageTarget { kind: Some("page".to_string()), ws_url: Some("ws://c".to_string()) },
    ];
    assert!(page_ws_url(&targets).is_err());
    let later = vec![PageTarget { kind: Some("page".to_string()), ws_url: Some("ws://c".to_string()) }];
    assert_eq!(page_ws_url(&later).unwrap(), "ws://c");
}

#[test]
fn builder_keeps_its_options() {
    let (url, bin, port) = CdpClientBuilder::new("about:blank")
        .chrome_bin("/nonexistent/chrome")
        .port(9399)
        .into_parts();
    assert_eq!(url, "about:blank");
    assert_eq!(bin, Some("/nonexistent/chrome".to_string()));
    assert_eq!(port, Some(9399));
    let (_, bin, port) = CdpClientBuilder::new("x").into_parts();
    assert_eq!((bin, port), (None, None));
}

#[test]
fn locator_wraps_the_path() {
    assert_eq!(PlatformBrowserLocator::new("/usr/bin/chromium").path, "/usr/bin/chromium");
}

#[test]
fn port_counter_wraps_like_an_atomic() {
    let mut c = PortCounter::new(u16::MAX);
    assert_eq!(c.fetch_add(1), u16::MAX);
    assert_eq!(c.load(), 0);
    assert_eq!(c.fetch_sub(1), 0);
    assert_eq!(c.load(), u16::MAX);
    let mut d = PortCounter::new(9300);
    d.fetch_add(5);
    d.fetch_sub(5);
    assert_eq!(d.load(), 9300);
}

use browsectl::browser::{locate_adb, locate_browser};

#[test]
fn chrome_path_is_used_alone_and_never_falls_back() {
    let probes = vec![(true, false)];
    assert_eq!(
        locate_browser(Platform::Other, Some(("/opt/chrome", true)), &probes).unwrap(),
        "/opt/chrome"
    );
    assert_eq!(
        locate_browser(Platform::Other, Some(("/nope", false)), &probes).unwrap_err(),
        "CHROME_PATH is set to '/nope' but that path does not exist"
    );
}

#[test]
fn the_first_found_candidate_is_chosen() {
    let probes = vec![(false, false), (false, true), (true, false)];
    assert_eq!(locate_browser(Platform::Other, None, &probes).unwrap(), "google-chrome");
    // Windows never consults the PATH.
    assert_eq!(
        locate_browser(Platform::Windows, None, &probes).unwrap(),
        "C:\\Program Files\\Microsoft\\Edge\\Application\\msedge.exe"
    );
    assert_eq!(
        locate_browser(Platform::MacOs, None, &vec![(false, false)]).unwrap_err(),
        "No Chromium-based browser found. Install Chrome/Edge/Brave or set CHROME_PATH."
    );
}

#[test]
fn adb_is_found_by_override_sdk_location_or_path() {
    assert_eq!(
        locate_adb(Platform::Other, None, Some("/h"), Some(("/x/adb", false)), &vec![true], true)
            .unwrap_err(),
        "ADB_PATH is set to '/x/adb' but that path does not exist"
    );
    assert_eq!(
        locate_adb(Platform::Other, None, Some("/h"), None, &vec![false, true], true).unwrap(),
        "/usr/lib/android-sdk/platform-tools/adb"
    );
    assert_eq!(
        locate_adb(Platform::Other, None, Some("/h"), None, &vec![false, false], true).unwrap(),
        "adb"
    );
    assert_eq!(
        locate_adb(Platform::Other, None, None, None, &vec![false], false).unwrap_err(),
        "adb not found. Install Android SDK platform-tools or set ADB_PATH."
    );
}
