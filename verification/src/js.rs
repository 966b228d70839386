//! The JavaScript snippets the client evaluates in the page, and safe
//! embedding of caller-supplied text in them as JSON string literals.
use vstd::prelude::*;

use crate::cli::{CliError, CliErrorView};
use crate::text::{owned, push_str};

verus! {

/// The JSON escape of one character, as `serde_json` writes it: `"` and
/// `\` and the control characters below U+0020 are escaped (the usual short
/// forms where JSON has one, else `\u00XX` with lowercase hex digits);
/// everything else is written as is.
pub open spec fn json_escape_char(c: char) -> Seq<char> {
    if c == '"' {
        seq!['\\', '"']
    } else if c == '\\' {
        seq!['\\', '\\']
    } else if c == '\u{8}' {
        seq!['\\', 'b']
    } else if c == '\t' {
        seq!['\\', 't']
    } else if c == '\n' {
        seq!['\\', 'n']
    } else if c == '\u{c}' {
        seq!['\\', 'f']
    } else if c == '\r' {
        seq!['\\', 'r']
    } else if (c as int) < 0x20 {
        seq!['\\', 'u', '0', '0', hex_digit((c as int) / 16), hex_digit((c as int) % 16)]
    } else {
        seq![c]
    }
}

pub open spec fn hex_digit(d: int) -> char {
    if d < 10 {
        (d + '0' as int) as char
    } else {
        (d - 10 + 'a' as int) as char
    }
}

/// The escapes of the characters of `s`, in order.
pub open spec fn json_escape(s: Seq<char>) -> Seq<char>
    decreases s.len(),
{
    if s.len() == 0 {
        Seq::empty()
    } else {
        json_escape(s.drop_last()) + json_escape_char(s.last())
    }
}

/// The JSON string literal of `s`: its escape between double quotes.
pub open spec fn json_quoted(s: Seq<char>) -> Seq<char> {
    seq!['"'] + json_escape(s) + seq!['"']
}

#[verifier::external_type_specification]
#[verifier::external_body]
pub struct ExJsonError(serde_json::Error);

/// Encode `s` as a JSON string.
///
/// Trusted: `serde_json::to_string` on a `str`. Its source writes `"`,
/// then each character escaped as `json_escape_char` states, then `"`,
/// into a `Vec<u8>`; the only error it passes on is one of that writer,
/// and writing to a `Vec<u8>` never fails, so it always succeeds.
#[verifier::external_body]
pub(crate) fn json_encode(s: &str) -> (r: Result<String, serde_json::Error>)
    ensures
        r is Ok,
        r matches Ok(t) ==> t@ == json_quoted(s@),
{
    serde_json::to_string(s)
}

/// The message of a `serde_json` error.
///
/// Trusted: the `Display` of `serde_json::Error`; nothing is claimed of
/// the text.
#[verifier::external_body]
pub(crate) fn json_error_text(e: &serde_json::Error) -> String {
    e.to_string()
}

/// Encode `s` as a JS string literal, safe to interpolate into a generated
/// JS snippet (e.g. a CSS selector coming from a CLI argument). A raw
/// `'...'` wrapper breaks on a literal `'` in `s`, or is a JS injection
/// vector if `s` ever comes from untrusted input.
pub fn js_string_literal(s: &str) -> (r: Result<String, String>)
    ensures
        r matches Ok(t) && t@ == json_quoted(s@),
{
    match json_encode(s) {
        Ok(t) => Ok(t),
        Err(e) => {
            let mut m = owned("failed to encode JS string literal: ");
            let ghost p = m@;
            push_str(&mut m, json_error_text(&e).as_str());
            assert(m@.subrange(0, p.len() as int) =~= p);
            Err(m)
        },
    }
}

/// JSON-encode a string so it can be safely embedded as a JS string
/// literal (an encoder error would be reported as `InvalidArgs`; encoding
/// a text never fails).
pub fn json_string(s: &str) -> (r: Result<String, CliError>)
    ensures
        r matches Ok(t) && t@ == json_quoted(s@),
{
    match json_encode(s) {
        Ok(t) => Ok(t),
        Err(e) => Err(CliError::InvalidArgs(json_error_text(&e))),
    }
}

/// The text of [`deep_query_selector_js`].
pub open spec fn deep_query_selector_src() -> Seq<char> {
    "function __browsectl_deepQuerySelector(root, selector) {
        var direct = root.querySelector(selector);
        if (direct) return direct;
        var hosts = root.querySelectorAll('*');
        for (var i = 0; i < hosts.length; i++) {
            if (hosts[i].shadowRoot) {
                var found = __browsectl_deepQuerySelector(hosts[i].shadowRoot, selector);
                if (found) return found;
            }
        }
        return null;
    }"@
}

/// A JS function declaration: `document.querySelector`, but recursively
/// descends into every *open* shadow root along the way. Closed shadow
/// roots remain unreachable.
///
/// Meant to be embedded inside a larger `(function() { ... })()` snippet,
/// then called as `__browsectl_deepQuerySelector(document, selector)`.
/// Safe to embed multiple times per snippet or across separate `evaluate`
/// calls — it is scoped to whatever function it is pasted into, not the
/// page's global scope.
pub fn deep_query_selector_js() -> (js: &'static str)
    ensures
        js@ == deep_query_selector_src(),
{
    "function __browsectl_deepQuerySelector(root, selector) {
        var direct = root.querySelector(selector);
        if (direct) return direct;
        var hosts = root.querySelectorAll('*');
        for (var i = 0; i < hosts.length; i++) {
            if (hosts[i].shadowRoot) {
                var found = __browsectl_deepQuerySelector(hosts[i].shadowRoot, selector);
                if (found) return found;
            }
        }
        return null;
    }"
}

/// The script `wait` polls until it yields `true`, for a selector.
pub open spec fn selector_present_js(literal: Seq<char>) -> Seq<char> {
    "(function() { "@ + deep_query_selector_src() + " return __browsectl_deepQuerySelector(document, "@
        + literal + ") !== null; })()"@
}

/// The script `wait` polls until it yields `true`, for a text.
pub open spec fn text_present_js(literal: Seq<char>) -> Seq<char> {
    "document.body !== null && document.body.innerText.includes("@ + literal + ")"@
}

/// The script `wait` polls until it yields `true`, for `--navigation`.
pub open spec fn navigation_done_js() -> Seq<char> {
    "document.readyState === 'complete'"@
}

/// The message for `wait` without a condition.
pub open spec fn no_condition_msg() -> Seq<char> {
    "--selector, --text, or --navigation is required"@
}

/// The script `wait` polls: the element `selector` exists (piercing open
/// shadow roots); else the page's text contains `text`; else, with
/// `navigation`, the document has finished loading. Without any condition
/// the arguments are invalid.
pub fn wait_condition_js(selector: &Option<String>, text: &Option<String>, navigation: bool) -> (r:
    Result<String, CliError>)
    ensures
        match (selector, text) {
            (Some(s), _) => r matches Ok(js) && js@ == selector_present_js(json_quoted(s@)),
            (None, Some(t)) => r matches Ok(js) && js@ == text_present_js(json_quoted(t@)),
            (None, None) => if navigation {
                r matches Ok(js) && js@ == navigation_done_js()
            } else {
                r matches Err(e) && e@ == CliErrorView::InvalidArgs(no_condition_msg())
            },
        },
{
    if let Some(sel) = selector {
        let literal = json_string(sel.as_str())?;
        let mut js = owned("(function() { ");
        push_str(&mut js, deep_query_selector_js());
        push_str(&mut js, " return __browsectl_deepQuerySelector(document, ");
        push_str(&mut js, literal.as_str());
        push_str(&mut js, ") !== null; })()");
        Ok(js)
    } else if let Some(txt) = text {
        let literal = json_string(txt.as_str())?;
        let mut js = owned("document.body !== null && document.body.innerText.includes(");
        push_str(&mut js, literal.as_str());
        push_str(&mut js, ")");
        Ok(js)
    } else if navigation {
        Ok(owned("document.readyState === 'complete'"))
    } else {
        Err(CliError::InvalidArgs(owned("--selector, --text, or --navigation is required")))
    }
}

/// The script `input` runs to focus the element `literal` names: it
/// yields `'yes'` once focused, `'no'` when there is no such element.
pub open spec fn focus_js(literal: Seq<char>) -> Seq<char> {
    "(function() { "@ + deep_query_selector_src() + " var el = __browsectl_deepQuerySelector(document, "@
        + literal + "); if (!el) return 'no'; el.focus(); return 'yes'; })()"@
}

/// The script that focuses the element `selector` (piercing open shadow
/// roots) before text is typed into it.
pub fn focus_element_js(selector: &str) -> (r: Result<String, CliError>)
    ensures
        r matches Ok(js) && js@ == focus_js(json_quoted(selector@)),
{
    let literal = json_string(selector)?;
    let mut js = owned("(function() { ");
    push_str(&mut js, deep_query_selector_js());
    push_str(&mut js, " var el = __browsectl_deepQuerySelector(document, ");
    push_str(&mut js, literal.as_str());
    push_str(&mut js, "); if (!el) return 'no'; el.focus(); return 'yes'; })()");
    Ok(js)
}

/// The message for a selector that matches no element.
pub open spec fn element_not_found_msg(selector: Seq<char>) -> Seq<char> {
    "element not found: "@ + selector
}

/// What the focus script's answer `focused` means for `input`: the element
/// was focused only when the answer is `yes`.
pub fn focus_outcome(focused: &str, selector: &str) -> (r: Result<(), CliError>)
    ensures
        focused@ == "yes"@ ==> r is Ok,
        focused@ != "yes"@ ==> (r matches Err(e) && e@ == CliErrorView::ExecutionFailed(
            element_not_found_msg(selector@),
        )),
{
    if crate::text::str_eq(focused, "yes") {
        Ok(())
    } else {
        let mut m = owned("element not found: ");
        push_str(&mut m, selector);
        Err(CliError::ExecutionFailed(m))
    }
}

/// The script that resolves the element `literal` names to a remote object.
pub open spec fn resolve_element_js(literal: Seq<char>) -> Seq<char> {
    "(function() { "@ + deep_query_selector_src() + " return __browsectl_deepQuerySelector(document, "@
        + literal + "); })()"@
}

/// The script `set_files` evaluates to find its `<input type="file">`.
pub fn resolve_element_script(selector: &str) -> (r: Result<String, String>)
    ensures
        r matches Ok(js) && js@ == resolve_element_js(json_quoted(selector@)),
{
    let literal = js_string_literal(selector)?;
    let mut js = owned("(function() { ");
    push_str(&mut js, deep_query_selector_js());
    push_str(&mut js, " return __browsectl_deepQuerySelector(document, ");
    push_str(&mut js, literal.as_str());
    push_str(&mut js, "); })()");
    Ok(js)
}

/// The script that measures the element `literal` names: the JSON array
/// `[x, y, width, height]` of its bounding box, or the empty string when
/// there is no such element.
pub open spec fn bounding_rect_src(literal: Seq<char>) -> Seq<char> {
    "(function() { "@ + deep_query_selector_src()
        + " var el = __browsectl_deepQuerySelector(document, "@ + literal
        + "); if (!el) return ''; var r = el.getBoundingClientRect(); return JSON.stringify([r.x, r.y, r.width, r.height]); })()"@
}

/// The script that measures the element `selector` matches (piercing open
/// shadow roots).
pub fn bounding_rect_js(selector: &str) -> (r: Result<String, String>)
    ensures
        r matches Ok(js) && js@ == bounding_rect_src(json_quoted(selector@)),
{
    let literal = js_string_literal(selector)?;
    let mut js = owned("(function() { ");
    push_str(&mut js, deep_query_selector_js());
    push_str(&mut js, " var el = __browsectl_deepQuerySelector(document, ");
    push_str(&mut js, literal.as_str());
    push_str(
        &mut js,
        "); if (!el) return ''; var r = el.getBoundingClientRect(); return JSON.stringify([r.x, r.y, r.width, r.height]); })()",
    );
    Ok(js)
}

/// What the measuring script's answer means: an empty answer is the
/// message that no element matches `selector`; any other is the box.
pub fn bounding_rect_found(answer: &str, selector: &str) -> (r: Result<(), String>)
    ensures
        answer@.len() > 0 ==> r is Ok,
        answer@.len() == 0 ==> (r matches Err(m) && m@ == element_not_found_msg(selector@)),
{
    if crate::text::chars_of(answer).len() > 0 {
        Ok(())
    } else {
        let mut m = owned("element not found: ");
        push_str(&mut m, selector);
        Err(m)
    }
}

/// Whether an answer to the page-ready script says the page has loaded:
/// only the answer `ready` does; an error or any other answer means
/// polling on.
pub fn page_is_ready(answer: &Result<String, String>) -> (r: bool)
    ensures
        r == (answer matches Ok(s) && s@ == "ready"@),
{
    match answer {
        Ok(s) => crate::text::str_eq(s.as_str(), "ready"),
        Err(_) => false,
    }
}

/// The script `wait_for_load` polls: `'ready'` once the document is
/// complete and its body has content.
pub fn page_ready_js() -> (js: &'static str)
    ensures
        js@ == "document.readyState === 'complete' && document.body !== null && document.body.childElementCount > 0 ? 'ready' : 'not'"@,
{
    "document.readyState === 'complete' && document.body !== null && document.body.childElementCount > 0 ? 'ready' : 'not'"
}

/// The character a two-character JSON escape `\x` stands for.
pub open spec fn short_escape(x: char) -> Option<char> {
    if x == '"' {
        Some('"')
    } else if x == '\\' {
        Some('\\')
    } else if x == '/' {
        Some('/')
    } else if x == 'b' {
        Some('\u{8}')
    } else if x == 'f' {
        Some('\u{c}')
    } else if x == 'n' {
        Some('\n')
    } else if x == 'r' {
        Some('\r')
    } else if x == 't' {
        Some('\t')
    } else {
        None
    }
}

/// The value of a hexadecimal digit.
pub open spec fn hex_value(c: char) -> Option<int> {
    if '0' <= c && c <= '9' {
        Some(c as int - '0' as int)
    } else if 'a' <= c && c <= 'f' {
        Some(c as int - 'a' as int + 10)
    } else if 'A' <= c && c <= 'F' {
        Some(c as int - 'A' as int + 10)
    } else {
        None
    }
}

/// The value of the four hexadecimal digits of a `\uXXXX` escape that
/// starts `t`, when they are digits and name a character outside the
/// surrogate range.
pub open spec fn unicode_escape(t: Seq<char>) -> Option<char> {
    if t.len() >= 6 && t[1] == 'u' && hex_value(t[2]) is Some && hex_value(t[3]) is Some
        && hex_value(t[4]) is Some && hex_value(t[5]) is Some {
        let v = hex_value(t[2]).unwrap() * 4096 + hex_value(t[3]).unwrap() * 256 + hex_value(
            t[4],
        ).unwrap() * 16 + hex_value(t[5]).unwrap();
        if v < 0xD800 || 0xE000 <= v {
            Some(v as char)
        } else {
            None
        }
    } else {
        None
    }
}

/// The text that the inside of a JSON string literal stands for, as a JSON
/// (or JavaScript) parser reads it: escapes are replaced by what they
/// stand for; an unescaped `"`, a control character or a malformed escape
/// makes it unreadable. (Surrogate pairs are not read here.)
pub open spec fn json_unescape(t: Seq<char>) -> Option<Seq<char>>
    decreases t.len(),
{
    if t.len() == 0 {
        Some(Seq::empty())
    } else if t[0] == '\\' {
        if t.len() >= 2 && short_escape(t[1]) is Some {
            match json_unescape(t.subrange(2, t.len() as int)) {
                Some(rest) => Some(seq![short_escape(t[1]).unwrap()] + rest),
                None => None,
            }
        } else if unicode_escape(t) is Some {
            match json_unescape(t.subrange(6, t.len() as int)) {
                Some(rest) => Some(seq![unicode_escape(t).unwrap()] + rest),
                None => None,
            }
        } else {
            None
        }
    } else if t[0] == '"' || (t[0] as int) < 0x20 {
        None
    } else {
        match json_unescape(t.drop_first()) {
            Some(rest) => Some(seq![t[0]] + rest),
            None => None,
        }
    }
}

/// The text a JSON string literal stands for: the reading of what stands
/// between its opening and closing quote.
pub open spec fn json_unquote(t: Seq<char>) -> Option<Seq<char>> {
    if t.len() >= 2 && t[0] == '"' && t.last() == '"' {
        json_unescape(t.subrange(1, t.len() - 1))
    } else {
        None
    }
}

proof fn lemma_escape_concat(a: Seq<char>, b: Seq<char>)
    ensures
        json_escape(a + b) == json_escape(a) + json_escape(b),
    decreases b.len(),
{
    if b.len() == 0 {
        assert(a + b =~= a);
        assert(json_escape(a) + json_escape(b) =~= json_escape(a));
    } else {
        assert((a + b).drop_last() =~= a + b.drop_last());
        assert((a + b).last() == b.last());
        lemma_escape_concat(a, b.drop_last());
        assert(json_escape(a) + json_escape(b.drop_last()) + json_escape_char(b.last())
            =~= json_escape(a) + (json_escape(b.drop_last()) + json_escape_char(b.last())));
    }
}

proof fn lemma_hex_digit(d: int)
    requires
        0 <= d < 16,
    ensures
        hex_value(hex_digit(d)) == Some(d),
{
}

proof fn lemma_unescape_char(c: char, e: Seq<char>)
    ensures
        json_unescape(json_escape_char(c) + e) == match json_unescape(e) {
            Some(rest) => Some(seq![c] + rest),
            None => None::<Seq<char>>,
        },
{
    let t = json_escape_char(c) + e;
    if c == '"' || c == '\\' || c == '\u{8}' || c == '\t' || c == '\n' || c == '\u{c}' || c == '\r' {
        assert(t.subrange(2, t.len() as int) =~= e);
    } else if (c as int) < 0x20 {
        lemma_hex_digit((c as int) / 16);
        lemma_hex_digit((c as int) % 16);
        assert(t.subrange(6, t.len() as int) =~= e);
        assert(hex_value(t[2]) == Some(0int));
        assert(unicode_escape(t) == Some(c));
    } else {
        assert(t.drop_first() =~= e);
    }
}

/// Reading back what [`js_string_literal`] writes gives the text again: a
/// caller's text embedded as a literal stays that text, whatever quotes,
/// backslashes or control characters it holds.
pub proof fn lemma_json_quoted_reads_back(s: Seq<char>)
    ensures
        json_unquote(json_quoted(s)) == Some(s),
    decreases s.len(),
{
    let q = json_quoted(s);
    assert(q.subrange(1, q.len() - 1) =~= json_escape(s));
    lemma_unescape_all(s);
}

proof fn lemma_unescape_all(s: Seq<char>)
    ensures
        json_unescape(json_escape(s)) == Some(s),
    decreases s.len(),
{
    if s.len() == 0 {
    } else {
        let rest = s.drop_first();
        assert(s =~= seq![s[0]] + rest);
        lemma_escape_concat(seq![s[0]], rest);
        let one = seq![s[0]];
        assert(one.drop_last() =~= Seq::<char>::empty());
        assert(one.last() == s[0]);
        assert(json_escape(one.drop_last()) + json_escape_char(s[0]) =~= json_escape_char(s[0]));
        lemma_unescape_all(rest);
        lemma_unescape_char(s[0], json_escape(rest));
    }
}

} // verus!
