//! The DevTools protocol conversation: framing a command, deciding what
//! each incoming WebSocket frame means for a pending command or an awaited
//! event, and turning `Runtime.evaluate` results into text.
use vstd::prelude::*;
use vstd::string::StringSliceAdditionalSpecFns;

use crate::cli::{CliError, CliErrorView};
use crate::js::{json_encode, json_error_text, json_quoted};
use crate::text::{
    starts_with, chars_of, contains, decimal, owned, push_decimal, push_str, range_contains,
};

verus! {

/// Validates an instance, returning a typed error on failure.
pub trait Validator {
    /// The error type produced when validation fails.
    type Error;

    /// Validate this instance.
    fn validate(&self) -> Result<(), Self::Error>;
}

// ---------------------------------------------------------------------------
// Commands
// ---------------------------------------------------------------------------

/// The text of the command `method` with id `id` and parameters whose
/// compact JSON is `params` (keys in the order `serde_json` writes them).
pub open spec fn command_text_spec(id: nat, method: Seq<char>, params: Seq<char>) -> Seq<char> {
    "{\"id\":"@ + decimal(id) + ",\"method\":"@ + json_quoted(method) + ",\"params\":"@ + params
        + "}"@
}

/// The WebSocket text of a CDP command: `{"id":..,"method":..,"params":..}`.
pub fn command_text(id: u64, method: &str, params: &str) -> (r: Result<String, String>)
    ensures
        r matches Ok(t) && t@ == command_text_spec(id as nat, method@, params@),
{
    let m = match json_encode(method) {
        Ok(m) => m,
        Err(e) => {
            return Err(json_error_text(&e));
        },
    };
    let mut t = owned("{\"id\":");
    push_decimal(&mut t, id);
    push_str(&mut t, ",\"method\":");
    push_str(&mut t, m.as_str());
    push_str(&mut t, ",\"params\":");
    push_str(&mut t, params);
    push_str(&mut t, "}");
    Ok(t)
}

// ---------------------------------------------------------------------------
// Command parameters (compact JSON, keys in the sorted order serde_json's
// default map writes them)
// ---------------------------------------------------------------------------

/// `s` as a JSON string, or the encoder's message.
fn quoted(s: &str) -> (r: Result<String, String>)
    ensures
        r matches Ok(t) && t@ == json_quoted(s@),
{
    match json_encode(s) {
        Ok(t) => Ok(t),
        Err(e) => Err(json_error_text(&e)),
    }
}

/// The JSON text of a boolean.
pub open spec fn bool_text(b: bool) -> Seq<char> {
    if b {
        "true"@
    } else {
        "false"@
    }
}

fn push_bool(out: &mut String, b: bool)
    ensures
        final(out)@ == old(out)@ + bool_text(b),
{
    if b {
        push_str(out, "true");
    } else {
        push_str(out, "false");
    }
}

/// The parameters of `Runtime.evaluate` for `js`, awaiting a promise it
/// yields and, with `by_value`, returning the result by value.
pub open spec fn evaluate_params_text(js: Seq<char>, by_value: bool) -> Seq<char> {
    "{\"awaitPromise\":true,\"expression\":"@ + json_quoted(js) + ",\"returnByValue\":"@
        + bool_text(by_value) + "}"@
}

/// The parameters of `Runtime.evaluate` for `js`.
pub fn evaluate_params(js: &str, by_value: bool) -> (r: Result<String, String>)
    ensures
        r matches Ok(t) && t@ == evaluate_params_text(js@, by_value),
{
    let q = quoted(js)?;
    let mut t = owned("{\"awaitPromise\":true,\"expression\":");
    push_str(&mut t, q.as_str());
    push_str(&mut t, ",\"returnByValue\":");
    push_bool(&mut t, by_value);
    push_str(&mut t, "}");
    Ok(t)
}

/// The parameters of `Page.navigate` to `url`.
pub open spec fn navigate_params_text(url: Seq<char>) -> Seq<char> {
    "{\"url\":"@ + json_quoted(url) + "}"@
}

/// The parameters of `Input.insertText` typing `text`.
pub open spec fn insert_text_params_text(text: Seq<char>) -> Seq<char> {
    "{\"text\":"@ + json_quoted(text) + "}"@
}

/// The parameters of `Page.navigate` to `url`.
pub fn navigate_params(url: &str) -> (r: Result<String, String>)
    ensures
        r matches Ok(t) && t@ == navigate_params_text(url@),
{
    let q = quoted(url)?;
    let mut t = owned("{\"url\":");
    push_str(&mut t, q.as_str());
    push_str(&mut t, "}");
    Ok(t)
}

/// The parameters of `Input.insertText` typing `text`.
pub fn insert_text_params(text: &str) -> (r: Result<String, String>)
    ensures
        r matches Ok(t) && t@ == insert_text_params_text(text@),
{
    let q = quoted(text)?;
    let mut t = owned("{\"text\":");
    push_str(&mut t, q.as_str());
    push_str(&mut t, "}");
    Ok(t)
}

/// The parameters of a command that takes none (`Browser.close`).
pub fn empty_params() -> (r: String)
    ensures
        r@ == "{}"@,
{
    owned("{}")
}

/// The parameters of `DOM.getDocument` for the whole tree, piercing
/// shadow roots and iframes.
pub fn whole_document_params() -> (r: String)
    ensures
        r@ == "{\"depth\":-1,\"pierce\":true}"@,
{
    owned("{\"depth\":-1,\"pierce\":true}")
}

/// The parameters of `Emulation.setDeviceMetricsOverride` for a desktop
/// viewport of `width` by `height` at scale 1.
pub open spec fn viewport_params_text(width: nat, height: nat) -> Seq<char> {
    "{\"deviceScaleFactor\":1,\"height\":"@ + decimal(height) + ",\"mobile\":false,\"width\":"@
        + decimal(width) + "}"@
}

/// The parameters that size the viewport to `width` by `height`.
pub fn viewport_params(width: u32, height: u32) -> (r: String)
    ensures
        r@ == viewport_params_text(width as nat, height as nat),
{
    let mut t = owned("{\"deviceScaleFactor\":1,\"height\":");
    push_decimal(&mut t, height as u64);
    push_str(&mut t, ",\"mobile\":false,\"width\":");
    push_decimal(&mut t, width as u64);
    push_str(&mut t, "}");
    t
}

/// The height `set_viewport_width` keeps.
pub const DEFAULT_VIEWPORT_HEIGHT: u32 = 768;

/// The parameters of `Page.captureScreenshot` in `format`, of the whole
/// page with `full_page`.
pub open spec fn screenshot_params_text(format: Seq<char>, full_page: bool) -> Seq<char> {
    "{\"captureBeyondViewport\":"@ + bool_text(full_page) + ",\"format\":"@ + json_quoted(format)
        + "}"@
}

/// The parameters of a screenshot in `format`.
pub fn screenshot_params(format: &str, full_page: bool) -> (r: Result<String, String>)
    ensures
        r matches Ok(t) && t@ == screenshot_params_text(format@, full_page),
{
    let q = quoted(format)?;
    let mut t = owned("{\"captureBeyondViewport\":");
    push_bool(&mut t, full_page);
    push_str(&mut t, ",\"format\":");
    push_str(&mut t, q.as_str());
    push_str(&mut t, "}");
    Ok(t)
}

/// The key that opens the screenshot parameters.
pub open spec fn capture_key() -> Seq<char> {
    "{\"captureBeyondViewport\":"@
}

/// A screenshot captures beyond the viewport exactly for a full-page
/// screenshot: the parameters open with `captureBeyondViewport` set to
/// `true` when `full_page` and to `false` otherwise, so the two requests
/// for one format differ.
pub proof fn lemma_screenshot_captures_beyond_viewport_only_for_full_page(
    format: Seq<char>,
    full_page: bool,
)
    ensures
        starts_with(screenshot_params_text(format, full_page), capture_key() + "true"@) <==> full_page,
        starts_with(screenshot_params_text(format, full_page), capture_key() + "false"@) <==> !full_page,
        screenshot_params_text(format, true) != screenshot_params_text(format, false),
{
    reveal_strlit("{\"captureBeyondViewport\":");
    reveal_strlit("true");
    reveal_strlit("false");
    let key = capture_key();
    let t = screenshot_params_text(format, full_page);
    let yes = key + "true"@;
    let no = key + "false"@;
    let n = key.len() as int;
    assert(t[n] == if full_page { 't' } else { 'f' });
    assert(yes[n] == 't' && no[n] == 'f');
    if full_page {
        assert(t.subrange(0, yes.len() as int) =~= yes);
        assert(t.subrange(0, no.len() as int)[n] != no[n]);
    } else {
        assert(t.subrange(0, no.len() as int) =~= no);
        assert(t.subrange(0, yes.len() as int)[n] != yes[n]);
    }
    let a = screenshot_params_text(format, true);
    let b = screenshot_params_text(format, false);
    assert(a[n] != b[n]);
}

/// The parameters of `Fetch.enable` pausing only requests whose URL
/// matches `pattern`.
pub open spec fn fetch_enable_params_text(pattern: Seq<char>) -> Seq<char> {
    "{\"patterns\":[{\"urlPattern\":"@ + json_quoted(pattern) + "}]}"@
}

/// The parameters that intercept requests matching `pattern`.
pub fn fetch_enable_params(pattern: &str) -> (r: Result<String, String>)
    ensures
        r matches Ok(t) && t@ == fetch_enable_params_text(pattern@),
{
    let q = quoted(pattern)?;
    let mut t = owned("{\"patterns\":[{\"urlPattern\":");
    push_str(&mut t, q.as_str());
    push_str(&mut t, "}]}");
    Ok(t)
}

/// The parameters of `Fetch.fulfillRequest` answering `request_id` with
/// `status` and the Base64 body `body_b64`, with a permissive CORS header
/// so that a cross-origin fetch accepts the fake response.
pub open spec fn fulfill_params_text(request_id: Seq<char>, status: nat, body_b64: Seq<char>) -> Seq<
    char,
> {
    "{\"body\":"@ + json_quoted(body_b64) + ",\"requestId\":"@ + json_quoted(request_id)
        + ",\"responseCode\":"@ + decimal(status)
        + ",\"responseHeaders\":[{\"name\":\"Access-Control-Allow-Origin\",\"value\":\"*\"}]}"@
}

/// The parameters that fulfil a paused request with the fake response.
pub fn fulfill_params(request_id: &str, status: u16, body_b64: &str) -> (r: Result<String, String>)
    ensures
        r matches Ok(t) && t@ == fulfill_params_text(request_id@, status as nat, body_b64@),
{
    let b = quoted(body_b64)?;
    let i = quoted(request_id)?;
    let mut t = owned("{\"body\":");
    push_str(&mut t, b.as_str());
    push_str(&mut t, ",\"requestId\":");
    push_str(&mut t, i.as_str());
    push_str(&mut t, ",\"responseCode\":");
    push_decimal(&mut t, status as u64);
    push_str(
        &mut t,
        ",\"responseHeaders\":[{\"name\":\"Access-Control-Allow-Origin\",\"value\":\"*\"}]}",
    );
    Ok(t)
}

/// The JSON array of the strings `v`.
pub open spec fn json_string_array(v: Seq<Seq<char>>) -> Seq<char>
    decreases v.len(),
{
    if v.len() == 0 {
        "[]"@
    } else {
        json_items(v) + "]"@
    }
}

/// `[` and the quoted strings of `v`, separated by commas.
pub open spec fn json_items(v: Seq<Seq<char>>) -> Seq<char>
    decreases v.len(),
{
    if v.len() == 0 {
        "["@
    } else if v.len() == 1 {
        "["@ + json_quoted(v[0])
    } else {
        json_items(v.drop_last()) + ","@ + json_quoted(v.last())
    }
}

/// The parameters of `DOM.setFileInputFiles` setting `files` on the input
/// whose remote object id is `object_id`.
pub open spec fn file_input_params_text(files: Seq<Seq<char>>, object_id: Seq<char>) -> Seq<char> {
    "{\"files\":"@ + json_string_array(files) + ",\"objectId\":"@ + json_quoted(object_id) + "}"@
}

/// The parameters that set `files` on the input `object_id`.
pub fn file_input_params(files: &[String], object_id: &str) -> (r: Result<String, String>)
    ensures
        r matches Ok(t) && t@ == file_input_params_text(
            files@.map_values(|f: String| f@),
            object_id@,
        ),
{
    let ghost fs = files@.map_values(|f: String| f@);
    let mut t = owned("{\"files\":");
    let ghost start = t@;
    if files.len() == 0 {
        push_str(&mut t, "[]");
    } else {
        push_str(&mut t, "[");
        let mut k: usize = 0;
        while k < files.len()
            invariant
                fs == files@.map_values(|f: String| f@),
                0 <= k <= files.len(),
                files.len() > 0,
                t@ == start + json_items(fs.take(k as int)),
            decreases files.len() - k,
        {
            let q = quoted(files[k].as_str())?;
            if k > 0 {
                push_str(&mut t, ",");
            }
            push_str(&mut t, q.as_str());
            proof {
                let taken = fs.take(k + 1);
                assert(taken.drop_last() =~= fs.take(k as int));
                assert(taken.last() == files@[k as int]@);
                if k == 0 {
                    assert(taken[0] == files@[0]@);
                }
            }
            k += 1;
        }
        assert(fs.take(k as int) =~= fs);
        push_str(&mut t, "]");
    }
    let o = quoted(object_id)?;
    push_str(&mut t, ",\"objectId\":");
    push_str(&mut t, o.as_str());
    push_str(&mut t, "}");
    Ok(t)
}

// ---------------------------------------------------------------------------
// Incoming frames
// ---------------------------------------------------------------------------

/// A frame read from the DevTools WebSocket.
pub enum Frame {
    Text(String),
    Ping(Vec<u8>),
    Close,
    /// Binary, pong and raw frames, which the protocol does not use.
    Other,
}

/// What a text frame holds, as far as the conversation goes.
pub struct Reply {
    /// The `id` it answers, when it is a response.
    pub id: Option<u64>,
    /// The `method`, when it is an event.
    pub method: Option<String>,
    /// The JSON text of its `error`, when it has one.
    pub error: Option<String>,
    /// Its `result` (`null` when absent).
    pub result: serde_json::Value,
    /// Its `params` (`null` when absent).
    pub params: serde_json::Value,
}

#[verifier::external_type_specification]
#[verifier::external_body]
pub struct ExJsonValue(serde_json::Value);

pub open spec fn opt_string(o: Option<String>) -> Option<Seq<char>> {
    match o {
        Some(s) => Some(s@),
        None => None,
    }
}

pub open spec fn opt_nat(o: Option<u64>) -> Option<nat> {
    match o {
        Some(n) => Some(n as nat),
        None => None,
    }
}

/// What `serde_json` reads from a frame's text: its `id` (when an
/// unsigned integer), `method` (when a string), the JSON text of its
/// `error` (when present), and its `result` and `params` members (`null`
/// when absent); `None` when the text is not JSON.
pub uninterp spec fn json_reply(text: Seq<char>) -> Option<
    (Option<nat>, Option<Seq<char>>, Option<Seq<char>>, serde_json::Value, serde_json::Value),
>;

/// Read a frame's text.
///
/// Trusted: `serde_json::from_str::<Value>`, then `as_u64` of `id`,
/// `as_str` of `method`, the JSON text of `error` and clones of `result`
/// and `params`. The fields read are named `json_reply` of the text.
#[verifier::external_body]
fn decode_reply(text: &str) -> (r: Result<Reply, serde_json::Error>)
    ensures
        r matches Ok(x) ==> json_reply(text@) == Some(
            (opt_nat(x.id), opt_string(x.method), opt_string(x.error), x.result, x.params),
        ),
        r is Err ==> json_reply(text@) is None,
{
    let val: serde_json::Value = serde_json::from_str(text)?;
    Ok(Reply {
        id: val["id"].as_u64(),
        method: val["method"].as_str().map(String::from),
        error: val.get("error").map(|e| e.to_string()),
        result: val["result"].clone(),
        params: val["params"].clone(),
    })
}

/// What to do with a frame while a command or an event is awaited.
pub enum Step {
    /// Stop waiting, with this outcome.
    Finish(Result<serde_json::Value, String>),
    /// Answer a ping with a pong carrying the same data, and keep waiting.
    Pong(Vec<u8>),
    /// Discard the frame and keep waiting.
    Wait,
}

/// The error when the browser closes the connection.
pub open spec fn closed_msg() -> Seq<char> {
    "CDP connection closed unexpectedly"@
}

/// How a frame bears on a wait.
pub enum Outcome {
    /// It is what was awaited, and ends the wait with this value.
    Done(serde_json::Value),
    /// It ends the wait with this error.
    Failed(Seq<char>),
    /// Its text is not JSON, which ends the wait with an error.
    Unreadable,
    /// The wait goes on.
    Pending,
}

/// How a frame decides a pending command `id` (of `method`).
pub open spec fn response_outcome(id: nat, method: Seq<char>, frame: Frame) -> Outcome {
    match frame {
        Frame::Text(t) => match json_reply(t@) {
            None => Outcome::Unreadable,
            Some((rid, _, err, result, _)) => if rid == Some(id) {
                match err {
                    Some(e) => Outcome::Failed(cdp_error_msg(method, e)),
                    None => Outcome::Done(result),
                }
            } else {
                Outcome::Pending
            },
        },
        Frame::Ping(_) => Outcome::Pending,
        Frame::Close => Outcome::Failed(closed_msg()),
        Frame::Other => Outcome::Pending,
    }
}

/// The prefix of the error for a frame whose text is not JSON.
pub open spec fn response_parse_prefix() -> Seq<char> {
    "CDP response parse error: "@
}

pub open spec fn has_prefix(s: Seq<char>, p: Seq<char>) -> bool {
    s.len() >= p.len() && s.subrange(0, p.len() as int) == p
}

/// The error for an error response to `method` whose `error` is the JSON
/// text `error`.
pub open spec fn cdp_error_msg(method: Seq<char>, error: Seq<char>) -> Seq<char> {
    "CDP error from '"@ + method + "': "@ + error
}

/// What a decoded reply means while the response to command `id` (sent as
/// `method`) is awaited: the response ends the wait with its `result`, or
/// with an error when it carries one; any other reply is discarded.
pub fn response_step(id: u64, method: &str, reply: Reply) -> (r: Step)
    ensures
        reply.id == Some(id) ==> match reply.error {
            Some(e) => r matches Step::Finish(Err(m)) && m@ == cdp_error_msg(method@, e@),
            None => r matches Step::Finish(Ok(v)) && v == reply.result,
        },
        reply.id != Some(id) ==> r is Wait,
{
    if reply.id == Some(id) {
        match reply.error {
            Some(err) => {
                let mut m = owned("CDP error from '");
                push_str(&mut m, method);
                push_str(&mut m, "': ");
                push_str(&mut m, err.as_str());
                Step::Finish(Err(m))
            },
            None => Step::Finish(Ok(reply.result)),
        }
    } else {
        Step::Wait
    }
}

/// What a frame means while the response to command `id` (sent as
/// `method`) is awaited: a frame that is not JSON, an error response or a
/// closed connection ends the wait with an error; the response ends it
/// with its `result` member; a ping is answered; anything else (responses to
/// other commands, events) is discarded.
pub fn on_response_frame(id: u64, method: &str, frame: Frame) -> (r: Step)
    ensures
        match response_outcome(id as nat, method@, frame) {
            Outcome::Done(v) => r matches Step::Finish(Ok(x)) && x == v,
            Outcome::Failed(m) => r matches Step::Finish(Err(x)) && x@ == m,
            Outcome::Unreadable => r matches Step::Finish(Err(x)) && has_prefix(x@, response_parse_prefix()),
            Outcome::Pending => match frame {
                Frame::Ping(d) => r matches Step::Pong(p) && p@ == d@,
                _ => r is Wait,
            },
        },
{
    match frame {
        Frame::Text(t) => match decode_reply(t.as_str()) {
            Err(e) => {
                let mut m = owned("CDP response parse error: ");
                let ghost p = m@;
                push_str(&mut m, json_error_text(&e).as_str());
                assert(m@.subrange(0, p.len() as int) =~= p);
                Step::Finish(Err(m))
            },
            Ok(reply) => response_step(id, method, reply),
        },
        Frame::Ping(d) => Step::Pong(d),
        Frame::Close => Step::Finish(Err(owned("CDP connection closed unexpectedly"))),
        Frame::Other => Step::Wait,
    }
}

/// How a frame decides a wait for event `method`.
pub open spec fn event_outcome(method: Seq<char>, frame: Frame) -> Outcome {
    match frame {
        Frame::Text(t) => match json_reply(t@) {
            None => Outcome::Unreadable,
            Some((_, m, _, _, params)) => if m == Some(method) {
                Outcome::Done(params)
            } else {
                Outcome::Pending
            },
        },
        Frame::Ping(_) => Outcome::Pending,
        Frame::Close => Outcome::Failed(closed_msg()),
        Frame::Other => Outcome::Pending,
    }
}

/// The prefix of the error for an event frame whose text is not JSON.
pub open spec fn event_parse_prefix() -> Seq<char> {
    "CDP event parse error: "@
}

/// What a decoded reply means while event `method` is awaited: that event
/// ends the wait with its `params`; anything else is discarded.
pub fn event_step(method: &str, reply: Reply) -> (r: Step)
    ensures
        opt_string(reply.method) == Some(method@) ==> (r matches Step::Finish(Ok(v)) && v
            == reply.params),
        opt_string(reply.method) != Some(method@) ==> r is Wait,
{
    let hit = match &reply.method {
        Some(m) => crate::text::str_eq(m.as_str(), method),
        None => false,
    };
    if hit {
        Step::Finish(Ok(reply.params))
    } else {
        Step::Wait
    }
}

/// What a frame means while event `method` is awaited: that event ends the
/// wait with its `params`; a frame that is not JSON or a closed connection
/// ends it with an error; a ping is answered; anything else (responses to
/// in-flight commands, other events) is discarded.
pub fn on_event_frame(method: &str, frame: Frame) -> (r: Step)
    ensures
        match event_outcome(method@, frame) {
            Outcome::Done(v) => r matches Step::Finish(Ok(x)) && x == v,
            Outcome::Failed(m) => r matches Step::Finish(Err(x)) && x@ == m,
            Outcome::Unreadable => r matches Step::Finish(Err(x)) && has_prefix(x@, event_parse_prefix()),
            Outcome::Pending => match frame {
                Frame::Ping(d) => r matches Step::Pong(p) && p@ == d@,
                _ => r is Wait,
            },
        },
{
    match frame {
        Frame::Text(t) => match decode_reply(t.as_str()) {
            Err(e) => {
                let mut m = owned("CDP event parse error: ");
                let ghost p = m@;
                push_str(&mut m, json_error_text(&e).as_str());
                assert(m@.subrange(0, p.len() as int) =~= p);
                Step::Finish(Err(m))
            },
            Ok(reply) => event_step(method, reply),
        },
        Frame::Ping(d) => Step::Pong(d),
        Frame::Close => Step::Finish(Err(owned("CDP connection closed unexpectedly"))),
        Frame::Other => Step::Wait,
    }
}

// ---------------------------------------------------------------------------
// Runtime.evaluate results
// ---------------------------------------------------------------------------

/// The parts of a `Runtime.evaluate` response that decide its text.
pub struct Evaluation {
    /// The JSON text of `exceptionDetails`, when the script threw.
    pub exception: Option<String>,
    /// `result.type`.
    pub kind: Option<String>,
    /// `result.subtype`.
    pub subtype: Option<String>,
    /// `result.value`, when it is a string.
    pub value_str: Option<String>,
    /// The JSON text of `result.value`.
    pub value_json: String,
    /// `result.description`, when it is a string.
    pub description: Option<String>,
}

/// The text of an evaluation: empty for `undefined` and `null`; the string
/// itself for a string; the JSON text for a number or a boolean; else the
/// object's description (empty when it has none). A thrown exception is an
/// error.
pub open spec fn evaluation_text(e: Evaluation) -> Result<Seq<char>, Seq<char>> {
    match e.exception {
        Some(x) => Err("JS exception: "@ + x@),
        None => {
            let kind = opt_string(e.kind);
            if kind == Some("undefined"@) {
                Ok(Seq::empty())
            } else if kind == Some("string"@) {
                Ok(
                    match e.value_str {
                        Some(s) => s@,
                        None => Seq::empty(),
                    },
                )
            } else if kind == Some("number"@) || kind == Some("boolean"@) {
                Ok(e.value_json@)
            } else if kind == Some("object"@) && opt_string(e.subtype) == Some("null"@) {
                Ok(Seq::empty())
            } else {
                Ok(
                    match e.description {
                        Some(d) => d@,
                        None => Seq::empty(),
                    },
                )
            }
        },
    }
}

fn is_text(o: &Option<String>, t: &str) -> (r: bool)
    ensures
        r == (opt_string(*o) == Some(t@)),
{
    match o {
        Some(s) => crate::text::str_eq(s.as_str(), t),
        None => false,
    }
}

/// The text an evaluation yields, or the error for a thrown exception.
pub fn evaluation_result(e: Evaluation) -> (r: Result<String, String>)
    ensures
        match evaluation_text(e) {
            Ok(t) => r matches Ok(s) && s@ == t,
            Err(m) => r matches Err(x) && x@ == m,
        },
{
    if let Some(x) = &e.exception {
        let mut m = owned("JS exception: ");
        push_str(&mut m, x.as_str());
        return Err(m);
    }
    if is_text(&e.kind, "undefined") {
        Ok(String::new())
    } else if is_text(&e.kind, "string") {
        Ok(
            match e.value_str {
                Some(s) => s,
                None => String::new(),
            },
        )
    } else if is_text(&e.kind, "number") || is_text(&e.kind, "boolean") {
        Ok(e.value_json)
    } else if is_text(&e.kind, "object") && is_text(&e.subtype, "null") {
        Ok(String::new())
    } else {
        Ok(
            match e.description {
                Some(d) => d,
                None => String::new(),
            },
        )
    }
}

// ---------------------------------------------------------------------------
// Setting files on an input
// ---------------------------------------------------------------------------

/// The error for `set_files` without any path.
pub open spec fn no_files_msg() -> Seq<char> {
    "set_files requires at least one file path"@
}

/// Refuse to set an empty list of files.
pub fn require_file_paths(file_paths: &[String]) -> (r: Result<(), String>)
    ensures
        file_paths@.len() == 0 ==> (r matches Err(m) && m@ == no_files_msg()),
        file_paths@.len() > 0 ==> r is Ok,
{
    if file_paths.len() == 0 {
        return Err(owned("set_files requires at least one file path"));
    }
    Ok(())
}

/// The error for a path that does not exist.
pub fn missing_file_msg(raw: &str) -> (m: String)
    ensures
        m@ == "file not found: '"@ + raw@ + "'"@,
{
    let mut m = owned("file not found: '");
    push_str(&mut m, raw);
    push_str(&mut m, "'");
    m
}

/// The remote object id of the element the selector resolved to: an
/// exception while resolving, or no object (no such element), is an error.
pub fn element_object_id(exception: Option<String>, object_id: Option<String>, selector: &str) -> (r:
    Result<String, String>)
    ensures
        match (exception, object_id) {
            (Some(x), _) => r matches Err(m) && m@ == "JS exception resolving selector: "@ + x@,
            (None, Some(o)) => r matches Ok(s) && s@ == o@,
            (None, None) => r matches Err(m) && m@ == "element not found: "@ + selector@,
        },
{
    if let Some(x) = exception {
        let mut m = owned("JS exception resolving selector: ");
        push_str(&mut m, x.as_str());
        return Err(m);
    }
    match object_id {
        Some(o) => Ok(o),
        None => {
            let mut m = owned("element not found: ");
            push_str(&mut m, selector);
            Err(m)
        },
    }
}

// ---------------------------------------------------------------------------
// stop
// ---------------------------------------------------------------------------

/// The outcome of `stop` given what `Browser.close` returned: a connection
/// the browser closed before acknowledging is the expected success; any
/// other error means the browser could not be stopped.
pub fn close_outcome(sent: Result<(), String>) -> (r: Result<(), CliError>)
    ensures
        match sent {
            Ok(()) => r is Ok,
            Err(e) => if contains(e@, "connection closed"@) {
                r is Ok
            } else {
                r matches Err(x) && x@ == CliErrorView::ExecutionFailed(e@)
            },
        },
{
    match sent {
        Ok(()) => Ok(()),
        Err(e) => {
            let v = chars_of(e.as_str());
            let pat = chars_of("connection closed");
            assert(v@.subrange(0, v.len() as int) =~= v@);
            if range_contains(&v, 0, v.len(), &pat) {
                Ok(())
            } else {
                Err(CliError::ExecutionFailed(e))
            }
        },
    }
}

// ---------------------------------------------------------------------------
// Base64 payloads
// ---------------------------------------------------------------------------

#[verifier::external_type_specification]
#[verifier::external_body]
pub struct ExDecodeError(data_encoding::DecodeError);

/// The standard padded Base64 text of `bytes`.
pub uninterp spec fn base64_of(bytes: Seq<u8>) -> Seq<char>;

/// The bytes a standard padded Base64 text decodes to, or `None` when it
/// is not one.
pub uninterp spec fn base64_bytes(text: Seq<u8>) -> Option<Seq<u8>>;

/// Base64-encode `bytes`.
///
/// Trusted: `data_encoding::BASE64.encode`; the text is named
/// `base64_of` of the bytes. The encoder asserts that the input is at most
/// `usize::MAX / 512` bytes long.
#[verifier::external_body]
fn base64_encode(bytes: &[u8]) -> (r: String)
    requires
        bytes@.len() <= usize::MAX / 512,
    ensures
        r@ == base64_of(bytes@),
{
    data_encoding::BASE64.encode(bytes)
}

/// Decode Base64 `text`.
///
/// Trusted: `data_encoding::BASE64.decode`; the bytes are named
/// `base64_bytes` of the text, and an error comes exactly when that is
/// `None`. The decoder asserts that the input is at most `usize::MAX / 8`
/// bytes long.
#[verifier::external_body]
fn base64_decode(text: &[u8]) -> (r: Result<Vec<u8>, data_encoding::DecodeError>)
    requires
        text@.len() <= usize::MAX / 8,
    ensures
        r matches Ok(b) ==> base64_bytes(text@) == Some(b@),
        r is Err ==> base64_bytes(text@) is None,
{
    data_encoding::BASE64.decode(text)
}

/// The message of a Base64 decoding error.
///
/// Trusted: the `Display` of `data_encoding::DecodeError`; nothing is
/// claimed of the text.
#[verifier::external_body]
fn decode_error_text(e: &data_encoding::DecodeError) -> String {
    e.to_string()
}

/// The Base64 body a mocked response carries for `body`.
pub fn mock_body_base64(body: &str) -> (r: String)
    requires
        body.spec_bytes().len() <= usize::MAX / 512,
    ensures
        r@ == base64_of(body.spec_bytes()),
{
    base64_encode(body.as_bytes())
}

/// The prefix of the error for screenshot data that is not Base64.
pub open spec fn bad_screenshot_prefix() -> Seq<char> {
    "failed to decode screenshot data: "@
}

/// The image bytes of a screenshot's Base64 `data`.
pub fn decode_screenshot(data: &str) -> (r: Result<Vec<u8>, CliError>)
    requires
        data.spec_bytes().len() <= usize::MAX / 8,
    ensures
        match base64_bytes(data.spec_bytes()) {
            Some(b) => r matches Ok(x) && x@ == b,
            None => r matches Err(e) && e@ is ExecutionFailed && has_prefix(
                e@->ExecutionFailed_0,
                bad_screenshot_prefix(),
            ),
        },
{
    match base64_decode(data.as_bytes()) {
        Ok(b) => Ok(b),
        Err(e) => {
            let mut m = owned("failed to decode screenshot data: ");
            let ghost p = m@;
            push_str(&mut m, decode_error_text(&e).as_str());
            assert(m@.subrange(0, p.len() as int) =~= p);
            Err(CliError::ExecutionFailed(m))
        },
    }
}

/// The error for a screenshot response without its `data`.
pub open spec fn missing_screenshot_msg() -> Seq<char> {
    "screenshot response missing 'data' field"@
}

/// The image bytes of a screenshot response whose `data` field, when it is
/// a string, is `data`.
pub fn screenshot_bytes(data: Option<&str>) -> (r: Result<Vec<u8>, CliError>)
    requires
        data matches Some(d) ==> d.spec_bytes().len() <= usize::MAX / 8,
    ensures
        match data {
            None => r matches Err(e) && e@ == CliErrorView::ExecutionFailed(missing_screenshot_msg()),
            Some(d) => match base64_bytes(d.spec_bytes()) {
                Some(b) => r matches Ok(x) && x@ == b,
                None => r matches Err(e) && e@ is ExecutionFailed && has_prefix(
                    e@->ExecutionFailed_0,
                    bad_screenshot_prefix(),
                ),
            },
        },
{
    match data {
        None => Err(CliError::ExecutionFailed(owned("screenshot response missing 'data' field"))),
        Some(d) => decode_screenshot(d),
    }
}

// ---------------------------------------------------------------------------
// mock
// ---------------------------------------------------------------------------

/// The error for a paused request event without its id.
pub open spec fn missing_request_id_msg() -> Seq<char> {
    "Fetch.requestPaused event missing requestId"@
}

/// The id and URL of a paused request: an event without `requestId` is an
/// error; a missing URL reads `<unknown>`.
pub fn paused_request(request_id: Option<String>, url: Option<String>) -> (r: Result<
    (String, String),
    CliError,
>)
    ensures
        match request_id {
            Some(id) => r matches Ok((i, u)) && i@ == id@ && u@ == match url {
                Some(x) => x@,
                None => "<unknown>"@,
            },
            None => r matches Err(e) && e@ == CliErrorView::ExecutionFailed(missing_request_id_msg()),
        },
{
    match request_id {
        Some(id) => {
            let u = match url {
                Some(x) => x,
                None => owned("<unknown>"),
            };
            Ok((id, u))
        },
        None => Err(CliError::ExecutionFailed(owned("Fetch.requestPaused event missing requestId"))),
    }
}

} // verus!
