use browsectl::cli::CliError;
use browsectl::js::{
    deep_query_selector_js, focus_element_js, json_string, page_ready_js, resolve_element_script,
    wait_condition_js,
};

#[test]
fn json_string_quotes_control_characters() {
    assert_eq!(json_string("a\nb\t\u{1}").unwrap(), "\"a\\nb\\t\\u0001\"");
    assert_eq!(json_string("").unwrap(), "\"\"");
    assert_eq!(json_string("é✓").unwrap(), "\"é✓\"");
}

#[test]
fn quoted_text_reads_back_through_a_json_parser() {
    for s in ["plain", "a\"b", "back\\slash", "tab\tnew\nline", "\u{0}\u{1f}", "</script>"] {
        let lit = json_string(s).unwrap();
        let back: String = serde_json::from_str(&lit).unwrap();
        assert_eq!(back, s);
    }
}

#[test]
fn wait_for_a_selector_pierces_shadow_roots() {
    let js = wait_condition_js(&Some("#done".to_string()), &Some("ignored".to_string()), true).unwrap();
    assert!(js.starts_with("(function() { function __browsectl_deepQuerySelector("));
    assert!(js.contains(deep_query_selector_js()));
    assert!(js.ends_with(" return __browsectl_deepQuerySelector(document, \"#done\") !== null; })()"));
}

#[test]
fn wait_for_text_and_for_navigation() {
    assert_eq!(
        wait_condition_js(&None, &Some("It's \"done\"".to_string()), false).unwrap(),
        "document.body !== null && document.body.innerText.includes(\"It's \\\"done\\\"\")"
    );
    assert_eq!(
        wait_condition_js(&None, &None, true).unwrap(),
        "document.readyState === 'complete'"
    );
    match wait_condition_js(&None, &None, false) {
        Err(CliError::InvalidArgs(m)) => {
            assert_eq!(m, "--selector, --text, or --navigation is required")
        }
        _ => panic!("expected InvalidArgs"),
    }
}

#[test]
fn focus_and_resolve_scripts_embed_the_selector_literal() {
    let focus = focus_element_js("input[name='q']").unwrap();
    assert!(focus.ends_with(
        " var el = __browsectl_deepQuerySelector(document, \"input[name='q']\"); if (!el) return 'no'; el.focus(); return 'yes'; })()"
    ));
    let resolve = resolve_element_script("#file").unwrap();
    assert!(resolve.ends_with(" return __browsectl_deepQuerySelector(document, \"#file\"); })()"));
}

#[test]
fn page_ready_script() {
    assert_eq!(
        page_ready_js(),
        "document.readyState === 'complete' && document.body !== null && document.body.childElementCount > 0 ? 'ready' : 'not'"
    );
}

use browsectl::js::{focus_outcome, page_is_ready};
use browsectl::report::{eval_output, json_result_object, wait_poll, yaml_result_line};

#[test]
fn focus_needs_the_answer_yes() {
    assert!(focus_outcome("yes", "#q").is_ok());
    match focus_outcome("no", "#q") {
        Err(CliError::ExecutionFailed(m)) => assert_eq!(m, "element not found: #q"),
        _ => panic!("expected ExecutionFailed"),
    }
}

#[test]
fn page_is_ready_only_on_ready() {
    assert!(page_is_ready(&Ok("ready".to_string())));
    assert!(!page_is_ready(&Ok("not".to_string())));
    assert!(!page_is_ready(&Err("ready".to_string())));
}

#[test]
fn eval_output_formats() {
    assert_eq!(eval_output("text", "Example Domain"), "Example Domain");
    assert_eq!(eval_output("json", "42"), r#"{"result":42}"#);
    assert_eq!(eval_output("json", "Example Domain"), r#"{"result":"Example Domain"}"#);
    assert_eq!(eval_output("json", r#"{"b": 1, "a": [true, null]}"#), r#"{"result":{"a":[true,null],"b":1}}"#);
    assert_eq!(eval_output("yaml", "say \"hi\"\n"), r#"result: "say \"hi\"\n""#);
    assert_eq!(eval_output("xml", "<a/>"), "<a/>");
    assert_eq!(json_result_object("[1]"), r#"{"result":[1]}"#);
    assert_eq!(yaml_result_line("\"x\""), "result: \"x\"");
}

#[test]
fn wait_polls_until_true_or_the_deadline() {
    assert!(matches!(wait_poll("true", true, 30), Some(Ok(()))));
    assert!(wait_poll("false", false, 30).is_none());
    assert!(wait_poll("True", false, 30).is_none());
    match wait_poll("false", true, 30) {
        Some(Err(CliError::Timeout(m))) => assert_eq!(m, "condition not met within 30s"),
        _ => panic!("expected a timeout"),
    }
}

#[test]
fn scripts_always_embed_the_text() {
    assert!(json_string("\u{7f}\"").is_ok());
    assert!(focus_element_js("\"").is_ok());
    assert!(wait_condition_js(&Some("\\".to_string()), &None, false).is_ok());
}

use browsectl::js::{bounding_rect_found, bounding_rect_js};

#[test]
fn bounding_rect_script_and_answer() {
    let js = bounding_rect_js("#go").unwrap();
    assert!(js.contains("__browsectl_deepQuerySelector(document, \"#go\"); if (!el) return '';"));
    assert!(js.ends_with("return JSON.stringify([r.x, r.y, r.width, r.height]); })()"));
    assert!(bounding_rect_found("[1,2,3,4]", "#go").is_ok());
    assert_eq!(bounding_rect_found("", "#go").unwrap_err(), "element not found: #go");
}
