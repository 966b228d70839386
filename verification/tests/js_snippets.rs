use browsectl::js::{deep_query_selector_js, js_string_literal};

#[test]
fn test_js_string_literal_wraps_plain_string_in_double_quotes() {
    assert_eq!(js_string_literal("hello").unwrap(), "\"hello\"");
}

#[test]
fn test_js_string_literal_escapes_embedded_single_quote() {
    let encoded = js_string_literal("input[value='x']").unwrap();
    assert_eq!(encoded, "\"input[value='x']\"");
}

#[test]
fn test_js_string_literal_escapes_embedded_double_quote() {
    let encoded = js_string_literal(r#"a"b"#).unwrap();
    assert_eq!(encoded, r#""a\"b""#);
}

#[test]
fn test_js_string_literal_escapes_backslash() {
    let encoded = js_string_literal(r"a\b").unwrap();
    assert_eq!(encoded, r#""a\\b""#);
}

#[test]
fn test_js_string_literal_neutralizes_script_close_and_html_comment_sequences() {
    let encoded = js_string_literal("</script><script>evil()</script>").unwrap();
    assert!(encoded.starts_with('"') && encoded.ends_with('"'));
    assert_eq!(
        serde_json::from_str::<String>(&encoded).unwrap(),
        "</script><script>evil()</script>"
    );
}

#[test]
fn test_deep_query_selector_js_declares_the_expected_function_name() {
    let js = deep_query_selector_js();
    assert!(js.contains("function __browsectl_deepQuerySelector(root, selector)"));
}

#[test]
fn test_deep_query_selector_js_recurses_into_shadow_roots() {
    let js = deep_query_selector_js();
    assert!(js.contains("shadowRoot"), "must actually descend into shadow roots, not just document");
    assert!(js.contains("root.querySelector(selector)"), "must try a direct match before recursing");
}
