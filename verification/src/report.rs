//! What `eval` prints for a result in each output format, and how `wait`
//! decides between another poll, success and a timeout.
use vstd::prelude::*;

use crate::cli::{CliError, CliErrorView};
use crate::js::json_quoted;
use crate::text::{decimal, owned, push_decimal, push_str, str_eq};

verus! {

/// The compact text `serde_json` writes back for the JSON value that `text`
/// parses to; `None` when `text` is not JSON.
pub uninterp spec fn json_compact(text: Seq<char>) -> Option<Seq<char>>;

/// Re-encode `text` as compact JSON when it is JSON, else encode it as a
/// JSON string.
///
/// Trusted: `serde_json::from_str::<Value>` and the `Display` of the
/// parsed `Value`, named `json_compact` of the text; on a parse error,
/// the `Display` of `Value::String`, which `serde_json` writes with the
/// same escapes as any string (`json_quoted`).
#[verifier::external_body]
fn json_or_string(text: &str) -> (r: String)
    ensures
        match json_compact(text@) {
            Some(t) => r@ == t,
            None => r@ == json_quoted(text@),
        },
{
    match serde_json::from_str::<serde_json::Value>(text) {
        Ok(v) => v.to_string(),
        Err(_) => serde_json::Value::String(text.to_string()).to_string(),
    }
}

/// The `Debug` text of a string: quoted, with Rust's escapes.
pub uninterp spec fn debug_text(s: Seq<char>) -> Seq<char>;

/// Rust's `Debug` form of `s`.
///
/// Trusted: `format!("{:?}", s)` of a `str`; the text is named
/// `debug_text` of `s`.
#[verifier::external_body]
fn debug_quoted(s: &str) -> (r: String)
    ensures
        r@ == debug_text(s@),
{
    format!("{:?}", s)
}

/// The JSON line of `eval --output json`: an object whose `result` is the
/// JSON text `value`.
pub fn json_result_object(value: &str) -> (r: String)
    ensures
        r@ == "{\"result\":"@ + value@ + "}"@,
{
    let mut t = owned("{\"result\":");
    push_str(&mut t, value);
    push_str(&mut t, "}");
    t
}

/// The line of `eval --output yaml` for a result whose `Debug` text is
/// `debug`.
pub fn yaml_result_line(debug: &str) -> (r: String)
    ensures
        r@ == "result: "@ + debug@,
{
    let mut t = owned("result: ");
    push_str(&mut t, debug);
    t
}

/// What `eval` prints for `result` in `format`: with `json`, an object
/// whose `result` is the result read as JSON (or, when it is not JSON, as
/// a string); with `yaml`, a `result:` line with the quoted result; with
/// anything else, the result itself.
pub open spec fn eval_output_text(format: Seq<char>, result: Seq<char>) -> Seq<char> {
    if format == "json"@ {
        "{\"result\":"@ + match json_compact(result) {
            Some(t) => t,
            None => json_quoted(result),
        } + "}"@
    } else if format == "yaml"@ {
        "result: "@ + debug_text(result)
    } else {
        result
    }
}

/// The text `eval` prints for `result` in the output `format`.
pub fn eval_output(format: &str, result: &str) -> (r: String)
    ensures
        r@ == eval_output_text(format@, result@),
{
    if str_eq(format, "json") {
        json_result_object(json_or_string(result).as_str())
    } else if str_eq(format, "yaml") {
        yaml_result_line(debug_quoted(result).as_str())
    } else {
        owned(result)
    }
}

/// The error of a `wait` whose condition did not hold in time.
pub open spec fn wait_timeout_msg(timeout_secs: nat) -> Seq<char> {
    "condition not met within "@ + decimal(timeout_secs) + "s"@
}

/// One poll of `wait`: the condition script answered `found`, and the
/// deadline has (`past_deadline`) or has not passed. The condition holds
/// when the answer is exactly `true`; else, past the deadline, the wait
/// times out; else it polls again (`None`).
pub fn wait_poll(found: &str, past_deadline: bool, timeout_secs: u64) -> (r: Option<
    Result<(), CliError>,
>)
    ensures
        found@ == "true"@ ==> r == Some(Ok::<(), CliError>(())),
        found@ != "true"@ && past_deadline ==> (r matches Some(Err(e)) && e@
            == CliErrorView::Timeout(wait_timeout_msg(timeout_secs as nat))),
        found@ != "true"@ && !past_deadline ==> r is None,
{
    if str_eq(found, "true") {
        return Some(Ok(()));
    }
    if past_deadline {
        let mut m = owned("condition not met within ");
        push_decimal(&mut m, timeout_secs);
        push_str(&mut m, "s");
        return Some(Err(CliError::Timeout(m)));
    }
    None
}

} // verus!
