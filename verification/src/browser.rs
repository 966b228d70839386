//! Finding and launching a Chromium-based browser: where its binary may
//! be, how it is started, how its debugger endpoint is reached, and the
//! builder that configures a launch.
use vstd::prelude::*;

use crate::cli::texts;
use crate::js::json_error_text;
use crate::text::{decimal, owned, push_decimal, push_str};

verus! {

/// The platform the CLI runs on, as far as finding binaries goes.
#[derive(Clone, Copy)]
pub enum Platform {
    Windows,
    MacOs,
    /// Linux and other Unixes.
    Other,
}

/// Where a Chromium-based browser is looked for, in order.
pub open spec fn browser_candidates_spec(p: Platform) -> Seq<Seq<char>> {
    match p {
        Platform::Windows => seq![
            "C:\\Program Files\\Google\\Chrome\\Application\\chrome.exe"@,
            "C:\\Program Files (x86)\\Google\\Chrome\\Application\\chrome.exe"@,
            "C:\\Program Files\\Microsoft\\Edge\\Application\\msedge.exe"@,
            "C:\\Program Files (x86)\\Microsoft\\Edge\\Application\\msedge.exe"@,
        ],
        Platform::MacOs => seq![
            "/Applications/Google Chrome.app/Contents/MacOS/Google Chrome"@,
            "/Applications/Microsoft Edge.app/Contents/MacOS/Microsoft Edge"@,
            "/Applications/Brave Browser.app/Contents/MacOS/Brave Browser"@,
            "/Applications/Chromium.app/Contents/MacOS/Chromium"@,
        ],
        Platform::Other => seq![
            "google-chrome-stable"@,
            "google-chrome"@,
            "chromium-browser"@,
            "chromium"@,
            "microsoft-edge-stable"@,
            "brave-browser"@,
        ],
    }
}

pub open spec fn strs(v: Seq<&'static str>) -> Seq<Seq<char>> {
    v.map_values(|s: &'static str| s@)
}

/// The browser binaries to look for on `platform`, in order: well-known
/// install paths on Windows and macOS, command names on other systems.
pub fn browser_candidates(platform: Platform) -> (r: Vec<&'static str>)
    ensures
        strs(r@) == browser_candidates_spec(platform),
{
    let r = match platform {
        Platform::Windows => vec![
            "C:\\Program Files\\Google\\Chrome\\Application\\chrome.exe",
            "C:\\Program Files (x86)\\Google\\Chrome\\Application\\chrome.exe",
            "C:\\Program Files\\Microsoft\\Edge\\Application\\msedge.exe",
            "C:\\Program Files (x86)\\Microsoft\\Edge\\Application\\msedge.exe",
        ],
        Platform::MacOs => vec![
            "/Applications/Google Chrome.app/Contents/MacOS/Google Chrome",
            "/Applications/Microsoft Edge.app/Contents/MacOS/Microsoft Edge",
            "/Applications/Brave Browser.app/Contents/MacOS/Brave Browser",
            "/Applications/Chromium.app/Contents/MacOS/Chromium",
        ],
        Platform::Other => vec![
            "google-chrome-stable",
            "google-chrome",
            "chromium-browser",
            "chromium",
            "microsoft-edge-stable",
            "brave-browser",
        ],
    };
    assert(strs(r@) =~= browser_candidates_spec(platform));
    r
}

/// Whether a candidate that is not an existing path is also looked up on
/// the `PATH` (everywhere but Windows).
pub fn searches_path(platform: Platform) -> (r: bool)
    ensures
        r == !(platform is Windows),
{
    match platform {
        Platform::Windows => false,
        _ => true,
    }
}

/// The message for an override variable naming a path that does not exist.
pub open spec fn missing_override_msg(var: Seq<char>, path: Seq<char>) -> Seq<char> {
    var + " is set to '"@ + path + "' but that path does not exist"@
}

/// The outcome of an override variable (`CHROME_PATH`, `ADB_PATH`) set to
/// `path`: the path itself when it exists, else an error naming both.
pub fn path_override(var: &str, path: &str, exists: bool) -> (r: Result<String, String>)
    ensures
        exists ==> (r matches Ok(p) && p@ == path@),
        !exists ==> (r matches Err(m) && m@ == missing_override_msg(var@, path@)),
{
    if exists {
        return Ok(owned(path));
    }
    let mut m = owned(var);
    push_str(&mut m, " is set to '");
    push_str(&mut m, path);
    push_str(&mut m, "' but that path does not exist");
    Err(m)
}

/// The message when no browser is found.
pub open spec fn no_browser_msg() -> Seq<char> {
    "No Chromium-based browser found. Install Chrome/Edge/Brave or set CHROME_PATH."@
}

/// The error when no browser is found.
pub fn no_browser_error() -> (m: String)
    ensures
        m@ == no_browser_msg(),
{
    owned("No Chromium-based browser found. Install Chrome/Edge/Brave or set CHROME_PATH.")
}

/// Where `adb` is looked for, in order, given the `LOCALAPPDATA` and
/// `HOME` variables.
pub open spec fn adb_candidates_spec(p: Platform, local_app_data: Option<Seq<char>>, home: Option<
    Seq<char>,
>) -> Seq<Seq<char>> {
    match p {
        Platform::Windows => match local_app_data {
            Some(d) => seq![d + "\\Android\\Sdk\\platform-tools\\adb.exe"@],
            None => Seq::empty(),
        },
        Platform::MacOs => match home {
            Some(h) => seq![h + "/Library/Android/sdk/platform-tools/adb"@],
            None => Seq::empty(),
        },
        Platform::Other => (match home {
            Some(h) => seq![h + "/Android/Sdk/platform-tools/adb"@],
            None => Seq::empty(),
        }).push("/usr/lib/android-sdk/platform-tools/adb"@),
    }
}

pub open spec fn opt_view(o: Option<&str>) -> Option<Seq<char>> {
    match o {
        Some(s) => Some(s@),
        None => None,
    }
}

/// The well-known Android SDK `platform-tools` locations of `adb`.
pub fn adb_candidates(platform: Platform, local_app_data: Option<&str>, home: Option<&str>) -> (r:
    Vec<String>)
    ensures
        texts(r@) == adb_candidates_spec(platform, opt_view(local_app_data), opt_view(home)),
{
    let mut r: Vec<String> = Vec::new();
    match platform {
        Platform::Windows => {
            if let Some(d) = local_app_data {
                let mut p = owned(d);
                push_str(&mut p, "\\Android\\Sdk\\platform-tools\\adb.exe");
                r.push(p);
            }
        },
        Platform::MacOs => {
            if let Some(h) = home {
                let mut p = owned(h);
                push_str(&mut p, "/Library/Android/sdk/platform-tools/adb");
                r.push(p);
            }
        },
        Platform::Other => {
            if let Some(h) = home {
                let mut p = owned(h);
                push_str(&mut p, "/Android/Sdk/platform-tools/adb");
                r.push(p);
            }
            let ghost before = r@;
            r.push(owned("/usr/lib/android-sdk/platform-tools/adb"));
            assert(texts(r@) =~= texts(before).push(r@.last()@));
        },
    }
    assert(texts(r@) =~= adb_candidates_spec(platform, opt_view(local_app_data), opt_view(home)));
    r
}

/// The message when `adb` is found nowhere.
pub open spec fn no_adb_msg() -> Seq<char> {
    "adb not found. Install Android SDK platform-tools or set ADB_PATH."@
}

/// The error when `adb` is found nowhere.
pub fn no_adb_error() -> (m: String)
    ensures
        m@ == no_adb_msg(),
{
    owned("adb not found. Install Android SDK platform-tools or set ADB_PATH.")
}

/// The first of `probes[k..]` that found its candidate: `.0` when the
/// candidate exists as a path, `.1` when it is on the `PATH`, which counts
/// only with `use_path`.
pub open spec fn first_found(probes: Seq<(bool, bool)>, use_path: bool, k: int) -> Option<int>
    decreases probes.len() - k,
{
    if k < 0 || k >= probes.len() {
        None
    } else if probes[k].0 || (use_path && probes[k].1) {
        Some(k)
    } else {
        first_found(probes, use_path, k + 1)
    }
}

proof fn lemma_first_found_at_or_after(probes: Seq<(bool, bool)>, use_path: bool, k: int)
    ensures
        first_found(probes, use_path, k) matches Some(j) ==> k <= j < probes.len(),
    decreases probes.len() - k,
{
    if 0 <= k < probes.len() {
        lemma_first_found_at_or_after(probes, use_path, k + 1);
    }
}

/// The outcome of an override variable `var` set to `path` that does or
/// does not exist: never a fallback to the candidates.
pub open spec fn override_result(var: Seq<char>, path: Seq<char>, present: bool) -> Result<
    Seq<char>,
    Seq<char>,
> {
    if present {
        Ok(path)
    } else {
        Err(missing_override_msg(var, path))
    }
}

/// The browser found on `platform`: with `CHROME_PATH` set (to a path
/// that does or does not exist), that path or an error, never a
/// candidate; else the first candidate whose probe found it; else the
/// not-found error.
pub open spec fn located_browser(
    platform: Platform,
    chrome_path: Option<(Seq<char>, bool)>,
    probes: Seq<(bool, bool)>,
) -> Result<Seq<char>, Seq<char>> {
    match chrome_path {
        Some((path, present)) => override_result("CHROME_PATH"@, path, present),
        None => match first_found(probes, !(platform is Windows), 0) {
            Some(k) => if k < browser_candidates_spec(platform).len() {
                Ok(browser_candidates_spec(platform)[k])
            } else {
                Err(no_browser_msg())
            },
            None => Err(no_browser_msg()),
        },
    }
}

pub open spec fn opt_override(o: Option<(&str, bool)>) -> Option<(Seq<char>, bool)> {
    match o {
        Some((p, e)) => Some((p@, e)),
        None => None,
    }
}

/// Decide which browser to use: `chrome_path` is `CHROME_PATH` with
/// whether that path exists; `probes[k]` says whether candidate `k` of
/// [`browser_candidates`] exists as a path and whether it is on the
/// `PATH` (probes may stop at the first hit).
pub fn locate_browser(platform: Platform, chrome_path: Option<(&str, bool)>, probes: &Vec<(bool, bool)>) -> (r:
    Result<String, String>)
    ensures
        match located_browser(platform, opt_override(chrome_path), probes@) {
            Ok(p) => r matches Ok(x) && x@ == p,
            Err(m) => r matches Err(x) && x@ == m,
        },
{
    if let Some((path, present)) = chrome_path {
        return path_override("CHROME_PATH", path, present);
    }
    let candidates = browser_candidates(platform);
    let use_path = searches_path(platform);
    let mut k: usize = 0;
    while k < probes.len() && k < candidates.len()
        invariant
            chrome_path is None,
            strs(candidates@) == browser_candidates_spec(platform),
            use_path == !(platform is Windows),
            0 <= k <= probes.len(),
            first_found(probes@, use_path, 0) == first_found(probes@, use_path, k as int),
        decreases probes.len() - k,
    {
        let (present, on_path) = probes[k];
        if present || (use_path && on_path) {
            assert(probes@[k as int] == (present, on_path));
            assert(first_found(probes@, use_path, k as int) == Some(k as int));
            assert(strs(candidates@)[k as int] == candidates@[k as int]@);
            return Ok(owned(candidates[k]));
        }
        k += 1;
    }
    proof {
        lemma_first_found_at_or_after(probes@, use_path, k as int);
    }
    Err(no_browser_error())
}

/// The first of `probes[k..]` that is `true`.
pub open spec fn first_true(probes: Seq<bool>, k: int) -> Option<int>
    decreases probes.len() - k,
{
    if k < 0 || k >= probes.len() {
        None
    } else if probes[k] {
        Some(k)
    } else {
        first_true(probes, k + 1)
    }
}

proof fn lemma_first_true_at_or_after(probes: Seq<bool>, k: int)
    ensures
        first_true(probes, k) matches Some(j) ==> k <= j < probes.len(),
    decreases probes.len() - k,
{
    if 0 <= k < probes.len() {
        lemma_first_true_at_or_after(probes, k + 1);
    }
}

/// The `adb` found: with `ADB_PATH` set, that path or an error, never a
/// candidate; else the first SDK location that exists; else `adb` when it
/// is on the `PATH`; else the not-found error.
pub open spec fn located_adb(
    candidates: Seq<Seq<char>>,
    adb_path: Option<(Seq<char>, bool)>,
    present: Seq<bool>,
    on_path: bool,
) -> Result<Seq<char>, Seq<char>> {
    match adb_path {
        Some((path, e)) => override_result("ADB_PATH"@, path, e),
        None => match first_true(present, 0) {
            Some(k) => if k < candidates.len() {
                Ok(candidates[k])
            } else if on_path {
                Ok("adb"@)
            } else {
                Err(no_adb_msg())
            },
            None => if on_path {
                Ok("adb"@)
            } else {
                Err(no_adb_msg())
            },
        },
    }
}

/// Decide which `adb` to use: `adb_path` is `ADB_PATH` with whether that
/// path exists; `present[k]` whether candidate `k` of [`adb_candidates`]
/// (for `platform`, `LOCALAPPDATA` and `HOME`) exists; `on_path` whether
/// `adb` is on the `PATH` (consulted only when no candidate exists).
pub fn locate_adb(
    platform: Platform,
    local_app_data: Option<&str>,
    home: Option<&str>,
    adb_path: Option<(&str, bool)>,
    present: &Vec<bool>,
    on_path: bool,
) -> (r: Result<String, String>)
    ensures
        match located_adb(
            adb_candidates_spec(platform, opt_view(local_app_data), opt_view(home)),
            opt_override(adb_path),
            present@,
            on_path,
        ) {
            Ok(p) => r matches Ok(x) && x@ == p,
            Err(m) => r matches Err(x) && x@ == m,
        },
{
    if let Some((path, e)) = adb_path {
        return path_override("ADB_PATH", path, e);
    }
    let candidates = adb_candidates(platform, local_app_data, home);
    let mut k: usize = 0;
    while k < present.len() && k < candidates.len()
        invariant
            adb_path is None,
            texts(candidates@) == adb_candidates_spec(platform, opt_view(local_app_data), opt_view(home)),
            0 <= k <= present.len(),
            first_true(present@, 0) == first_true(present@, k as int),
        decreases present.len() - k,
    {
        if present[k] {
            assert(first_true(present@, k as int) == Some(k as int));
            assert(texts(candidates@)[k as int] == candidates@[k as int]@);
            return Ok(owned(candidates[k].as_str()));
        }
        k += 1;
    }
    proof {
        lemma_first_true_at_or_after(present@, k as int);
    }
    if on_path {
        Ok(owned("adb"))
    } else {
        Err(no_adb_error())
    }
}

/// The arguments a headless browser is started with: debugging on `port`,
/// first-run and background features off, opening `url`.
pub open spec fn launch_args_spec(port: nat, url: Seq<char>) -> Seq<Seq<char>> {
    seq![
        "--headless=new"@,
        "--remote-debugging-port="@ + decimal(port),
        "--no-first-run"@,
        "--no-default-browser-check"@,
        "--disable-gpu"@,
        "--disable-extensions"@,
        "--disable-translate"@,
        "--disable-background-networking"@,
        "--mute-audio"@,
        url,
    ]
}

/// The command-line arguments of a headless browser launched with its
/// debugger on `port`, opening `url`.
pub fn launch_args(port: u16, url: &str) -> (r: Vec<String>)
    ensures
        texts(r@) == launch_args_spec(port as nat, url@),
{
    let mut debug_port = owned("--remote-debugging-port=");
    push_decimal(&mut debug_port, port as u64);
    let r = vec![
        owned("--headless=new"),
        debug_port,
        owned("--no-first-run"),
        owned("--no-default-browser-check"),
        owned("--disable-gpu"),
        owned("--disable-extensions"),
        owned("--disable-translate"),
        owned("--disable-background-networking"),
        owned("--mute-audio"),
        owned(url),
    ];
    assert(texts(r@) =~= launch_args_spec(port as nat, url@));
    r
}

/// The debugger's target list endpoint for `port`.
pub open spec fn target_list_url(port: nat) -> Seq<char> {
    "http://localhost:"@ + decimal(port) + "/json"@
}

/// The URL listing the debugger's targets on `port`.
pub fn debugger_list_url(port: u16) -> (r: String)
    ensures
        r@ == target_list_url(port as nat),
{
    let mut u = owned("http://localhost:");
    push_decimal(&mut u, port as u64);
    push_str(&mut u, "/json");
    u
}

/// The decimal form of a signed exit code.
pub open spec fn signed_decimal(n: int) -> Seq<char> {
    if n < 0 {
        seq!['-'] + decimal((-n) as nat)
    } else {
        decimal(n as nat)
    }
}

/// The message for a failed HTTP request of `url` whose tool exited with
/// `code` (`-1` when killed by a signal).
pub fn http_failure_msg(url: &str, code: i32) -> (m: String)
    ensures
        m@ == "HTTP GET "@ + url@ + " failed (exit "@ + signed_decimal(code as int) + ")"@,
{
    let mut m = owned("HTTP GET ");
    push_str(&mut m, url);
    push_str(&mut m, " failed (exit ");
    let ghost before = m@;
    if code < 0 {
        crate::text::push_char(&mut m, '-');
        let magnitude: u64 = (0i64 - code as i64) as u64;
        push_decimal(&mut m, magnitude);
        assert(m@ =~= before + signed_decimal(code as int));
    } else {
        push_decimal(&mut m, code as u64);
    }
    push_str(&mut m, ")");
    m
}

/// A debugger target, as far as finding the page goes: its `type` and its
/// `webSocketDebuggerUrl`, when those are strings.
pub struct PageTarget {
    pub kind: Option<String>,
    pub ws_url: Option<String>,
}

pub open spec fn opt_string(o: Option<String>) -> Option<Seq<char>> {
    match o {
        Some(s) => Some(s@),
        None => None,
    }
}

pub open spec fn targets_view(v: Seq<PageTarget>) -> Seq<(Option<Seq<char>>, Option<Seq<char>>)> {
    v.map_values(|t: PageTarget| (opt_string(t.kind), opt_string(t.ws_url)))
}

/// What `serde_json` reads from a debugger's `/json` body: for each
/// element of the top-level array, its `type` and `webSocketDebuggerUrl`
/// when they are strings; `None` when the body is not a JSON array.
pub uninterp spec fn json_targets(body: Seq<char>) -> Option<Seq<(Option<Seq<char>>, Option<Seq<char>>)>>;

/// Read the targets of a `/json` body.
///
/// Trusted: `serde_json::from_str::<Vec<Value>>`, then, for each element,
/// `Value::as_str` of its `type` and `webSocketDebuggerUrl` fields. The
/// result is named `json_targets` of the body; no more is claimed.
#[verifier::external_body]
fn decode_targets(body: &str) -> (r: Result<Vec<PageTarget>, serde_json::Error>)
    ensures
        r matches Ok(v) ==> json_targets(body@) == Some(targets_view(v@)),
        r is Err ==> json_targets(body@) is None,
{
    let values: Vec<serde_json::Value> = serde_json::from_str(body)?;
    Ok(values.iter().map(|t| PageTarget {
        kind: t["type"].as_str().map(String::from),
        ws_url: t["webSocketDebuggerUrl"].as_str().map(String::from),
    }).collect())
}

/// The first target of type `page`, if any.
pub open spec fn first_page(ts: Seq<(Option<Seq<char>>, Option<Seq<char>>)>, k: int) -> Option<int>
    decreases ts.len() - k,
{
    if k < 0 || k >= ts.len() {
        None
    } else if ts[k].0 == Some("page"@) {
        Some(k)
    } else {
        first_page(ts, k + 1)
    }
}

/// The message when the debugger lists no page.
pub open spec fn no_page_msg() -> Seq<char> {
    "no page target found in Chromium /json response"@
}

/// The WebSocket URL of the first page target: found only when that
/// target has one.
pub open spec fn page_ws_url_spec(ts: Seq<(Option<Seq<char>>, Option<Seq<char>>)>) -> Option<Seq<char>> {
    match first_page(ts, 0) {
        Some(k) => ts[k].1,
        None => None,
    }
}

/// The WebSocket debugger URL of the first `page` target.
pub fn page_ws_url(targets: &Vec<PageTarget>) -> (r: Result<String, String>)
    ensures
        match page_ws_url_spec(targets_view(targets@)) {
            Some(u) => r matches Ok(s) && s@ == u,
            None => r matches Err(m) && m@ == no_page_msg(),
        },
{
    let ghost ts = targets_view(targets@);
    let page = owned("page");
    let mut k: usize = 0;
    while k < targets.len()
        invariant
            ts == targets_view(targets@),
            page@ == "page"@,
            0 <= k <= targets.len(),
            first_page(ts, 0) == first_page(ts, k as int),
        decreases targets.len() - k,
    {
        let is_page = match &targets[k].kind {
            Some(t) => *t == page,
            None => false,
        };
        if is_page {
            return match &targets[k].ws_url {
                Some(u) => Ok(u.clone()),
                None => Err(owned("no page target found in Chromium /json response")),
            };
        }
        k += 1;
    }
    Err(owned("no page target found in Chromium /json response"))
}

/// The prefix of the error for a `/json` body that does not parse.
pub open spec fn bad_target_list_prefix() -> Seq<char> {
    "failed to parse /json response: "@
}

/// The WebSocket debugger URL a debugger's `/json` body gives for its
/// first page target.
pub fn ws_url_from_target_list(body: &str) -> (r: Result<String, String>)
    ensures
        match json_targets(body@) {
            Some(ts) => match page_ws_url_spec(ts) {
                Some(u) => r matches Ok(s) && s@ == u,
                None => r matches Err(m) && m@ == no_page_msg(),
            },
            None => r matches Err(m) && m@.len() >= bad_target_list_prefix().len() && m@.subrange(
                0,
                bad_target_list_prefix().len() as int,
            ) == bad_target_list_prefix(),
        },
{
    match decode_targets(body) {
        Ok(targets) => page_ws_url(&targets),
        Err(e) => {
            let mut m = owned("failed to parse /json response: ");
            let ghost p = m@;
            push_str(&mut m, json_error_text(&e).as_str());
            assert(m@.subrange(0, p.len() as int) =~= p);
            Err(m)
        },
    }
}

// ---------------------------------------------------------------------------
// Launch configuration
// ---------------------------------------------------------------------------

/// The result of browser binary discovery on the current platform.
pub struct PlatformBrowserLocator {
    /// Absolute path to the discovered browser binary.
    pub path: String,
}

impl PlatformBrowserLocator {
    /// Wrap a discovered browser binary path.
    pub fn new(path: &str) -> (r: Self)
        ensures
            r.path@ == path@,
    {
        PlatformBrowserLocator { path: owned(path) }
    }
}

/// Builder for a launched client — configure launch options before
/// connecting.
pub struct CdpClientBuilder {
    url: String,
    chrome_bin: Option<String>,
    port: Option<u16>,
}

impl CdpClientBuilder {
    /// The page the browser opens.
    pub closed spec fn spec_url(&self) -> Seq<char> {
        self.url@
    }

    /// The browser binary to use instead of the discovered one.
    pub closed spec fn spec_chrome_bin(&self) -> Option<Seq<char>> {
        opt_string(self.chrome_bin)
    }

    /// The fixed debugging port, if any.
    pub closed spec fn spec_port(&self) -> Option<u16> {
        self.port
    }

    /// Start building a client that will open `url` after launch.
    pub fn new(url: &str) -> (r: Self)
        ensures
            r.spec_url() == url@,
            r.spec_chrome_bin() is None,
            r.spec_port() is None,
    {
        CdpClientBuilder { url: owned(url), chrome_bin: None, port: None }
    }

    /// Override the browser binary path instead of using auto-discovery.
    pub fn chrome_bin(self, path: &str) -> (r: Self)
        ensures
            r.spec_url() == self.spec_url(),
            r.spec_chrome_bin() == Some(path@),
            r.spec_port() == self.spec_port(),
    {
        CdpClientBuilder { chrome_bin: Some(owned(path)), ..self }
    }

    /// Fix the remote-debugging port instead of using the auto-assigned
    /// value.
    pub fn port(self, port: u16) -> (r: Self)
        ensures
            r.spec_url() == self.spec_url(),
            r.spec_chrome_bin() == self.spec_chrome_bin(),
            r.spec_port() == Some(port),
    {
        CdpClientBuilder { port: Some(port), ..self }
    }

    /// What a launch uses: the page, the binary override, the fixed port.
    pub fn into_parts(self) -> (r: (String, Option<String>, Option<u16>))
        ensures
            r.0@ == self.spec_url(),
            opt_string(r.1) == self.spec_chrome_bin(),
            r.2 == self.spec_port(),
    {
        (self.url, self.chrome_bin, self.port)
    }
}

/// The first port handed out to launches that do not fix one.
pub const DEFAULT_DEBUG_PORT: u16 = 9300;

/// A counter handing out debugging ports one after another, wrapping
/// around like an atomic `u16`.
pub struct PortCounter {
    next: u16,
}

impl PortCounter {
    /// The port the counter hands out next.
    pub closed spec fn spec_next(&self) -> u16 {
        self.next
    }

    /// A counter starting at `start`.
    pub fn new(start: u16) -> (r: Self)
        ensures
            r.spec_next() == start,
    {
        PortCounter { next: start }
    }

    /// The port handed out next.
    pub fn load(&self) -> (r: u16)
        ensures
            r == self.spec_next(),
    {
        self.next
    }

    /// Hand out the next port and advance the counter by `n`.
    pub fn fetch_add(&mut self, n: u16) -> (r: u16)
        ensures
            r == old(self).spec_next(),
            final(self).spec_next() == (old(self).spec_next() as int + n as int) % 0x10000,
    {
        let r = self.next;
        self.next = r.wrapping_add(n);
        r
    }

    /// Step the counter back by `n`, returning the value before.
    pub fn fetch_sub(&mut self, n: u16) -> (r: u16)
        ensures
            r == old(self).spec_next(),
            final(self).spec_next() == (old(self).spec_next() as int - n as int + 0x10000) % 0x10000,
    {
        let r = self.next;
        self.next = r.wrapping_sub(n);
        r
    }
}

/// Handing out a port and stepping back restores the counter.
pub proof fn lemma_fetch_add_then_sub(start: u16, n: u16)
    ensures
        ((((start as int + n as int) % 0x10000) - n as int + 0x10000) % 0x10000) == start as int,
{
}

} // verus!
