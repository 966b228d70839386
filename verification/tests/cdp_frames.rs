use browsectl::cdp::{
    close_outcome, command_text, decode_screenshot, element_object_id, evaluation_result,
    missing_file_msg, mock_body_base64, on_event_frame, on_response_frame, paused_request,
    require_file_paths, Evaluation, Frame, Step,
};
use browsectl::cli::CliError;

fn text(s: &str) -> Frame {
    Frame::Text(s.to_string())
}

#[test]
fn command_text_is_compact_json() {
    assert_eq!(
        command_text(7, "Page.navigate", r#"{"url":"https://example.com"}"#).unwrap(),
        r#"{"id":7,"method":"Page.navigate","params":{"url":"https://example.com"}}"#
    );
    assert_eq!(
        command_text(1, "We\"ird", "{}").unwrap(),
        r#"{"id":1,"method":"We\"ird","params":{}}"#
    );
}

#[test]
fn the_matching_response_finishes_with_its_result() {
    match on_response_frame(3, "Runtime.evaluate", text(r#"{"id":3,"result":{"v":1}}"#)) {
        Step::Finish(Ok(v)) => assert_eq!(v["v"], 1),
        _ => panic!("expected the result"),
    }
}

#[test]
fn other_responses_and_events_are_skipped() {
    assert!(matches!(on_response_frame(3, "m", text(r#"{"id":2,"result":{}}"#)), Step::Wait));
    assert!(matches!(
        on_response_frame(3, "m", text(r#"{"method":"Page.loadEventFired","params":{}}"#)),
        Step::Wait
    ));
    assert!(matches!(on_response_frame(3, "m", Frame::Other), Step::Wait));
}

#[test]
fn an_error_response_names_the_method() {
    match on_response_frame(4, "DOM.getDocument", text(r#"{"id":4,"error":{"code":-32000}}"#)) {
        Step::Finish(Err(m)) => assert_eq!(m, r#"CDP error from 'DOM.getDocument': {"code":-32000}"#),
        _ => panic!("expected an error"),
    }
}

#[test]
fn pings_are_answered_with_the_same_data() {
    match on_response_frame(1, "m", Frame::Ping(vec![1, 2, 3])) {
        Step::Pong(d) => assert_eq!(d, vec![1, 2, 3]),
        _ => panic!("expected a pong"),
    }
    assert!(matches!(on_event_frame("e", Frame::Ping(vec![])), Step::Pong(_)));
}

#[test]
fn a_closed_connection_or_garbage_ends_the_wait() {
    match on_response_frame(1, "m", Frame::Close) {
        Step::Finish(Err(m)) => assert_eq!(m, "CDP connection closed unexpectedly"),
        _ => panic!("expected an error"),
    }
    match on_response_frame(1, "m", text("not json")) {
        Step::Finish(Err(m)) => assert!(m.starts_with("CDP response parse error: "), "{m}"),
        _ => panic!("expected an error"),
    }
    match on_event_frame("e", text("{")) {
        Step::Finish(Err(m)) => assert!(m.starts_with("CDP event parse error: "), "{m}"),
        _ => panic!("expected an error"),
    }
}

#[test]
fn the_awaited_event_finishes_with_its_params() {
    let frame = text(r#"{"method":"Fetch.requestPaused","params":{"requestId":"r1"}}"#);
    match on_event_frame("Fetch.requestPaused", frame) {
        Step::Finish(Ok(p)) => assert_eq!(p["requestId"], "r1"),
        _ => panic!("expected the params"),
    }
    assert!(matches!(
        on_event_frame("Fetch.requestPaused", text(r#"{"id":5,"result":{}}"#)),
        Step::Wait
    ));
}

fn eval(kind: &str) -> Evaluation {
    Evaluation {
        exception: None,
        kind: Some(kind.to_string()),
        subtype: None,
        value_str: None,
        value_json: "null".to_string(),
        description: None,
    }
}

#[test]
fn evaluation_texts() {
    assert_eq!(evaluation_result(eval("undefined")).unwrap(), "");
    let mut s = eval("string");
    s.value_str = Some("Example Domain".to_string());
    assert_eq!(evaluation_result(s).unwrap(), "Example Domain");
    let mut n = eval("number");
    n.value_json = "42".to_string();
    assert_eq!(evaluation_result(n).unwrap(), "42");
    let mut b = eval("boolean");
    b.value_json = "true".to_string();
    assert_eq!(evaluation_result(b).unwrap(), "true");
    let mut null = eval("object");
    null.subtype = Some("null".to_string());
    null.description = Some("ignored".to_string());
    assert_eq!(evaluation_result(null).unwrap(), "");
    let mut obj = eval("object");
    obj.description = Some("HTMLDivElement".to_string());
    assert_eq!(evaluation_result(obj).unwrap(), "HTMLDivElement");
    let mut thrown = eval("object");
    thrown.exception = Some(r#"{"text":"Uncaught"}"#.to_string());
    assert_eq!(evaluation_result(thrown).unwrap_err(), r#"JS exception: {"text":"Uncaught"}"#);
}

#[test]
fn set_files_preconditions() {
    assert_eq!(require_file_paths(&[]).unwrap_err(), "set_files requires at least one file path");
    assert!(require_file_paths(&["a".to_string()]).is_ok());
    assert_eq!(missing_file_msg("./nope.png"), "file not found: './nope.png'");
    assert_eq!(element_object_id(None, Some("obj-1".to_string()), "#f").unwrap(), "obj-1");
    assert_eq!(element_object_id(None, None, "#f").unwrap_err(), "element not found: #f");
    assert_eq!(
        element_object_id(Some("boom".to_string()), Some("obj-1".to_string()), "#f").unwrap_err(),
        "JS exception resolving selector: boom"
    );
}

#[test]
fn stop_treats_a_closed_connection_as_success() {
    assert!(close_outcome(Ok(())).is_ok());
    assert!(close_outcome(Err("CDP connection closed unexpectedly".to_string())).is_ok());
    match close_outcome(Err("CDP error from 'Browser.close': {}".to_string())) {
        Err(CliError::ExecutionFailed(m)) => assert_eq!(m, "CDP error from 'Browser.close': {}"),
        _ => panic!("expected ExecutionFailed"),
    }
}

#[test]
fn base64_payloads() {
    assert_eq!(mock_body_base64("hello"), "aGVsbG8=");
    assert_eq!(mock_body_base64(""), "");
    assert_eq!(mock_body_base64(r#"{"ok":true}"#), "eyJvayI6dHJ1ZX0=");
    assert_eq!(decode_screenshot("aGVsbG8=").unwrap(), b"hello".to_vec());
    match decode_screenshot("not base64!") {
        Err(CliError::ExecutionFailed(m)) => {
            assert!(m.starts_with("failed to decode screenshot data: "), "{m}")
        }
        _ => panic!("expected ExecutionFailed"),
    }
}

#[test]
fn paused_requests_need_an_id() {
    let (id, url) = paused_request(Some("r1".to_string()), None).unwrap();
    assert_eq!((id.as_str(), url.as_str()), ("r1", "<unknown>"));
    let (_, url) = paused_request(Some("r2".to_string()), Some("https://a/b".to_string())).unwrap();
    assert_eq!(url, "https://a/b");
    match paused_request(None, Some("https://a".to_string())) {
        Err(CliError::ExecutionFailed(m)) => {
            assert_eq!(m, "Fetch.requestPaused event missing requestId")
        }
        _ => panic!("expected ExecutionFailed"),
    }
}

use browsectl::cdp::{
    empty_params, evaluate_params, fetch_enable_params, file_input_params, fulfill_params,
    insert_text_params, navigate_params, screenshot_bytes, screenshot_params, viewport_params,
    whole_document_params, DEFAULT_VIEWPORT_HEIGHT,
};

#[test]
fn command_parameters_match_what_serde_json_writes() {
    let cases: Vec<(String, &str)> = vec![
        (
            evaluate_params("document.title", true).unwrap(),
            r#"{ "expression": "document.title", "returnByValue": true, "awaitPromise": true }"#,
        ),
        (
            evaluate_params("'a\"b'", false).unwrap(),
            r#"{ "expression": "'a\"b'", "returnByValue": false, "awaitPromise": true }"#,
        ),
        (
            navigate_params("https://example.com/?q=\"x\"").unwrap(),
            r#"{ "url": "https://example.com/?q=\"x\"" }"#,
        ),
        (insert_text_params("héllo\n").unwrap(), r#"{ "text": "héllo\n" }"#),
        (empty_params(), "{}"),
        (whole_document_params(), r#"{ "depth": -1, "pierce": true }"#),
        (
            viewport_params(1920, 1080),
            r#"{ "width": 1920, "height": 1080, "deviceScaleFactor": 1, "mobile": false }"#,
        ),
        (
            viewport_params(800, DEFAULT_VIEWPORT_HEIGHT),
            r#"{ "width": 800, "height": 768, "deviceScaleFactor": 1, "mobile": false }"#,
        ),
        (
            screenshot_params("png", true).unwrap(),
            r#"{ "format": "png", "captureBeyondViewport": true }"#,
        ),
        (
            fetch_enable_params("*api.example.com*").unwrap(),
            r#"{ "patterns": [{ "urlPattern": "*api.example.com*" }] }"#,
        ),
        (
            fulfill_params("interception-1", 404, "eyJvayI6dHJ1ZX0=").unwrap(),
            r#"{
                "requestId": "interception-1",
                "responseCode": 404,
                "body": "eyJvayI6dHJ1ZX0=",
                "responseHeaders": [{ "name": "Access-Control-Allow-Origin", "value": "*" }]
            }"#,
        ),
        (
            file_input_params(&["/tmp/a.png".to_string(), "C:\\b.pdf".to_string()], "obj-9").unwrap(),
            r#"{ "files": ["/tmp/a.png", "C:\\b.pdf"], "objectId": "obj-9" }"#,
        ),
        (file_input_params(&[], "obj-1").unwrap(), r#"{ "files": [], "objectId": "obj-1" }"#),
    ];
    for (text, expected) in cases {
        let value: serde_json::Value = serde_json::from_str(expected).unwrap();
        assert_eq!(text, value.to_string());
    }
}

#[test]
fn screenshot_response_needs_its_data() {
    match screenshot_bytes(None) {
        Err(CliError::ExecutionFailed(m)) => assert_eq!(m, "screenshot response missing 'data' field"),
        _ => panic!("expected ExecutionFailed"),
    }
    assert_eq!(screenshot_bytes(Some("iVBORw==")).unwrap(), vec![0x89, 0x50, 0x4e, 0x47]);
}

use browsectl::cdp::{event_step, response_step, Reply};

fn reply(id: Option<u64>, method: Option<&str>, error: Option<&str>) -> Reply {
    Reply {
        id,
        method: method.map(String::from),
        error: error.map(String::from),
        result: serde_json::Value::from("the result"),
        params: serde_json::Value::from(7),
    }
}

#[test]
fn response_step_hands_back_the_result_of_the_matching_reply() {
    match response_step(9, "Page.navigate", reply(Some(9), None, None)) {
        Step::Finish(Ok(v)) => assert_eq!(v, serde_json::Value::from("the result")),
        _ => panic!("expected the result"),
    }
    match response_step(9, "Page.navigate", reply(Some(9), None, Some("{\"code\":1}"))) {
        Step::Finish(Err(m)) => assert_eq!(m, "CDP error from 'Page.navigate': {\"code\":1}"),
        _ => panic!("expected an error"),
    }
    assert!(matches!(response_step(9, "m", reply(Some(8), None, Some("x"))), Step::Wait));
    assert!(matches!(response_step(9, "m", reply(None, Some("m"), None)), Step::Wait));
}

#[test]
fn event_step_hands_back_the_params_of_the_awaited_event() {
    match event_step("Fetch.requestPaused", reply(None, Some("Fetch.requestPaused"), None)) {
        Step::Finish(Ok(v)) => assert_eq!(v, serde_json::Value::from(7)),
        _ => panic!("expected the params"),
    }
    assert!(matches!(event_step("Fetch.requestPaused", reply(Some(1), None, None)), Step::Wait));
    assert!(matches!(event_step("A", reply(None, Some("B"), None)), Step::Wait));
}

#[test]
fn the_awaited_event_and_reply_carry_their_own_members() {
    let frame = text(r#"{"id":4,"result":{"r":1},"params":{"p":2}}"#);
    match on_response_frame(4, "m", frame) {
        Step::Finish(Ok(v)) => assert_eq!(v["r"], 1),
        _ => panic!("expected the result"),
    }
    let event = text(r#"{"method":"E","result":{"r":1},"params":{"p":2}}"#);
    match on_event_frame("E", event) {
        Step::Finish(Ok(v)) => assert_eq!(v["p"], 2),
        _ => panic!("expected the params"),
    }
}
