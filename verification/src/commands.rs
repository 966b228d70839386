//! The arguments of each CLI subcommand: which flags it accepts, their
//! defaults, and which ones it requires.
use vstd::prelude::*;

use crate::args::{
    is_set, last_number, last_text, lemma_scan_no_overflow, lemma_scan_well_typed, opt_number,
    flag_index, lemma_flag_at, named_number, named_set, named_text, opt_text, scan, scan_args, scan_overflows, table_view, uses_view, was_set, well_typed, FlagKind, FlagSpec,
    FlagUse, ScanView,
};
use crate::cli::{
    both_targets_msg, concat2, parse_file_list, empty_files_msg, file_list, texts,
    validate_connect_args, CliError, CliErrorView, DEFAULT_PORT,
};
use crate::text::owned;

verus! {

pub open spec fn opt_u16(o: Option<nat>) -> Option<u16> {
    match o {
        Some(n) => Some(n as u16),
        None => None,
    }
}

pub open spec fn opt_str(o: Option<String>) -> Option<Seq<char>> {
    match o {
        Some(s) => Some(s@),
        None => None,
    }
}

/// The message for a required flag that was not given.
pub open spec fn required_msg(flag: Seq<char>) -> Seq<char> {
    flag + " is required"@
}

/// `--port` and `--package`: where a command attaches.
pub struct ConnectArgs {
    pub port: Option<u16>,
    pub package: Option<String>,
}

/// Whether `--port` (flag 0) and `--package` (flag 1) were both given.
pub open spec fn both_targets(es: Seq<(nat, crate::args::FlagValueView)>) -> bool {
    opt_number(es, 0) is Some && opt_text(es, 1) is Some
}

/// The connection options of scanned flags, `--port` being flag 0 and
/// `--package` flag 1.
pub open spec fn connect_matches(c: ConnectArgs, es: Seq<(nat, crate::args::FlagValueView)>) -> bool {
    c.port == opt_u16(opt_number(es, 0)) && opt_str(c.package) == opt_text(es, 1)
}

/// The connection options of scanned flags, read by the flags' names.
pub open spec fn connect_named(
    c: ConnectArgs,
    table: Seq<(Seq<char>, FlagKind)>,
    es: Seq<(nat, crate::args::FlagValueView)>,
) -> bool {
    c.port == opt_u16(named_number(table, es, "--port"@)) && opt_str(c.package) == named_text(
        table,
        es,
        "--package"@,
    )
}

/// The scanned `--port` (flag 0) and `--package` (flag 1), rejected when
/// both were given.
fn connect_from(uses: &Vec<FlagUse>, Ghost(table): Ghost<Seq<(Seq<char>, FlagKind)>>) -> (r: Result<
    ConnectArgs,
    CliError,
>)
    requires
        well_typed(table, uses_view(uses@)),
        table.len() >= 2,
        table[0].1 is U16,
    ensures
        both_targets(uses_view(uses@)) ==> (r matches Err(e) && e@ == CliErrorView::InvalidArgs(
            both_targets_msg(),
        )),
        !both_targets(uses_view(uses@)) ==> (r matches Ok(c) && connect_matches(c, uses_view(uses@))),
{
    let port = port_of(uses, 0, Ghost(table));
    let package = last_text(uses, 1);
    validate_connect_args(port, &package)?;
    Ok(ConnectArgs { port, package })
}

/// The `u16` last given to flag `k`, a `u16` flag.
fn port_of(uses: &Vec<FlagUse>, k: usize, Ghost(table): Ghost<Seq<(Seq<char>, FlagKind)>>) -> (r: Option<u16>)
    requires
        well_typed(table, uses_view(uses@)),
        k < table.len(),
        table[k as int].1 is U16,
    ensures
        r == opt_u16(opt_number(uses_view(uses@), k as nat)),
        r is Some <==> opt_number(uses_view(uses@), k as nat) is Some,
        r matches Some(p) ==> opt_number(uses_view(uses@), k as nat) == Some(p as nat),
{
    proof {
        lemma_last_value_typed(table, uses_view(uses@), k as nat);
    }
    match last_number(uses, k) {
        Some(n) => Some(n as u16),
        None => None,
    }
}

/// The `u32` last given to flag `k`, a `u32` flag.
fn count_of(uses: &Vec<FlagUse>, k: usize, Ghost(table): Ghost<Seq<(Seq<char>, FlagKind)>>) -> (r: Option<u32>)
    requires
        well_typed(table, uses_view(uses@)),
        k < table.len(),
        table[k as int].1 is U32,
    ensures
        match opt_number(uses_view(uses@), k as nat) {
            Some(n) => r == Some(n as u32) && n <= u32::MAX,
            None => r is None,
        },
{
    proof {
        lemma_last_value_typed(table, uses_view(uses@), k as nat);
    }
    match last_number(uses, k) {
        Some(n) => Some(n as u32),
        None => None,
    }
}

proof fn lemma_last_value_typed(
    table: Seq<(Seq<char>, FlagKind)>,
    es: Seq<(nat, crate::args::FlagValueView)>,
    k: nat,
)
    requires
        well_typed(table, es),
        k < table.len(),
    ensures
        opt_number(es, k) matches Some(n) ==> n <= crate::args::kind_max(table[k as int].1),
    decreases es.len(),
{
    if es.len() > 0 && es.last().0 != k {
        assert(well_typed(table, es.drop_last())) by {
            assert forall|j: int| 0 <= j < es.drop_last().len() implies es.drop_last()[j] == es[j] by {}
        }
        lemma_last_value_typed(table, es.drop_last(), k);
    } else if es.len() > 0 {
        assert(es[es.len() - 1] == es.last());
    }
}

/// The text last given to required flag `k`, named `flag`.
fn required_text(uses: &Vec<FlagUse>, k: usize, flag: &str) -> (r: Result<String, CliError>)
    ensures
        match opt_text(uses_view(uses@), k as nat) {
            Some(t) => r matches Ok(s) && s@ == t,
            None => r matches Err(e) && e@ == CliErrorView::InvalidArgs(required_msg(flag@)),
        },
{
    match last_text(uses, k) {
        Some(s) => Ok(s),
        None => Err(CliError::InvalidArgs(concat2(flag, " is required"))),
    }
}

// ---------------------------------------------------------------------------
// click
// ---------------------------------------------------------------------------

pub open spec fn click_table() -> Seq<(Seq<char>, FlagKind)> {
    seq![("--port"@, FlagKind::U16), ("--package"@, FlagKind::Text), ("--selector"@, FlagKind::Text)]
}

fn click_flags() -> (t: Vec<FlagSpec>)
    ensures
        table_view(t@) == click_table(),
{
    let t = vec![
        FlagSpec { name: "--port", kind: FlagKind::U16 },
        FlagSpec { name: "--package", kind: FlagKind::Text },
        FlagSpec { name: "--selector", kind: FlagKind::Text },
    ];
    assert(table_view(t@) =~= click_table());
    t
}

/// The arguments of `click`.
pub struct ClickArgs {
    pub connect: ConnectArgs,
    pub selector: String,
}

/// Read `click`'s arguments: `--port`/`--package` and a required
/// `--selector`.
pub fn parse_click_args(args: &[String]) -> (r: Result<ClickArgs, CliError>)
    ensures
        match scan(click_table(), texts(args@)) {
            ScanView::Parsed(es) => if both_targets(es) {
                r matches Err(e) && e@ == CliErrorView::InvalidArgs(both_targets_msg())
            } else if opt_text(es, 2) is None {
                r matches Err(e) && e@ == CliErrorView::InvalidArgs(required_msg("--selector"@))
            } else {
                r matches Ok(a) && connect_matches(a.connect, es) && opt_text(es, 2) == Some(
                    a.selector@,
                )
            },
            ScanView::Rejected(e) => r matches Err(x) && x@ == e,
            ScanView::Overflow => false,
        },
        r matches Ok(a) ==> (scan(click_table(), texts(args@)) matches ScanView::Parsed(es) && connect_named(a.connect, click_table(), es) && named_text(click_table(), es, "--selector"@) == Some(a.selector@)),
{
    proof {
        lemma_click_flags_by_name();
    }
    let table = click_flags();
    proof {
        lemma_scan_no_overflow(click_table(), texts(args@), 0);
        lemma_scan_well_typed(click_table(), texts(args@), 0);
    }
    let uses = scan_args(&table, args)?;
    let connect = connect_from(&uses, Ghost(click_table()))?;
    let selector = required_text(&uses, 2, "--selector")?;
    Ok(ClickArgs { connect, selector })
}


// ---------------------------------------------------------------------------
// Commands that only attach: stop
// ---------------------------------------------------------------------------

pub open spec fn connect_table() -> Seq<(Seq<char>, FlagKind)> {
    seq![("--port"@, FlagKind::U16), ("--package"@, FlagKind::Text)]
}

fn connect_flags() -> (t: Vec<FlagSpec>)
    ensures
        table_view(t@) == connect_table(),
{
    let t = vec![
        FlagSpec { name: "--port", kind: FlagKind::U16 },
        FlagSpec { name: "--package", kind: FlagKind::Text },
    ];
    assert(table_view(t@) =~= connect_table());
    t
}

/// Read `stop`'s arguments: `--port`/`--package` only.
pub fn parse_stop_args(args: &[String]) -> (r: Result<ConnectArgs, CliError>)
    ensures
        match scan(connect_table(), texts(args@)) {
            ScanView::Parsed(es) => if both_targets(es) {
                r matches Err(e) && e@ == CliErrorView::InvalidArgs(both_targets_msg())
            } else {
                r matches Ok(c) && connect_matches(c, es)
            },
            ScanView::Rejected(e) => r matches Err(x) && x@ == e,
            ScanView::Overflow => false,
        },
        r matches Ok(c) ==> (scan(connect_table(), texts(args@)) matches ScanView::Parsed(es) && connect_named(c, connect_table(), es)),
{
    proof {
        lemma_connect_flags_by_name();
    }
    let table = connect_flags();
    proof {
        lemma_scan_no_overflow(connect_table(), texts(args@), 0);
        lemma_scan_well_typed(connect_table(), texts(args@), 0);
    }
    let uses = scan_args(&table, args)?;
    connect_from(&uses, Ghost(connect_table()))
}

// ---------------------------------------------------------------------------
// navigate
// ---------------------------------------------------------------------------

pub open spec fn navigate_table() -> Seq<(Seq<char>, FlagKind)> {
    seq![("--port"@, FlagKind::U16), ("--package"@, FlagKind::Text), ("--url"@, FlagKind::Text)]
}

fn navigate_flags() -> (t: Vec<FlagSpec>)
    ensures
        table_view(t@) == navigate_table(),
{
    let t = vec![
        FlagSpec { name: "--port", kind: FlagKind::U16 },
        FlagSpec { name: "--package", kind: FlagKind::Text },
        FlagSpec { name: "--url", kind: FlagKind::Text },
    ];
    assert(table_view(t@) =~= navigate_table());
    t
}

/// The arguments of `navigate`.
pub struct NavigateArgs {
    pub connect: ConnectArgs,
    pub url: String,
}

/// Read `navigate`'s arguments: `--port`/`--package` and a required `--url`.
pub fn parse_navigate_args(args: &[String]) -> (r: Result<NavigateArgs, CliError>)
    ensures
        match scan(navigate_table(), texts(args@)) {
            ScanView::Parsed(es) => if both_targets(es) {
                r matches Err(e) && e@ == CliErrorView::InvalidArgs(both_targets_msg())
            } else if opt_text(es, 2) is None {
                r matches Err(e) && e@ == CliErrorView::InvalidArgs(required_msg("--url"@))
            } else {
                r matches Ok(a) && connect_matches(a.connect, es) && opt_text(es, 2) == Some(a.url@)
            },
            ScanView::Rejected(e) => r matches Err(x) && x@ == e,
            ScanView::Overflow => false,
        },
        r matches Ok(a) ==> (scan(navigate_table(), texts(args@)) matches ScanView::Parsed(es) && connect_named(a.connect, navigate_table(), es) && named_text(navigate_table(), es, "--url"@) == Some(a.url@)),
{
    proof {
        lemma_navigate_flags_by_name();
    }
    let table = navigate_flags();
    proof {
        lemma_scan_no_overflow(navigate_table(), texts(args@), 0);
        lemma_scan_well_typed(navigate_table(), texts(args@), 0);
    }
    let uses = scan_args(&table, args)?;
    let connect = connect_from(&uses, Ghost(navigate_table()))?;
    let url = required_text(&uses, 2, "--url")?;
    Ok(NavigateArgs { connect, url })
}

// ---------------------------------------------------------------------------
// eval
// ---------------------------------------------------------------------------

pub open spec fn eval_table() -> Seq<(Seq<char>, FlagKind)> {
    seq![
        ("--port"@, FlagKind::U16),
        ("--package"@, FlagKind::Text),
        ("--script"@, FlagKind::Text),
        ("--output"@, FlagKind::Text),
    ]
}

fn eval_flags() -> (t: Vec<FlagSpec>)
    ensures
        table_view(t@) == eval_table(),
{
    let t = vec![
        FlagSpec { name: "--port", kind: FlagKind::U16 },
        FlagSpec { name: "--package", kind: FlagKind::Text },
        FlagSpec { name: "--script", kind: FlagKind::Text },
        FlagSpec { name: "--output", kind: FlagKind::Text },
    ];
    assert(table_view(t@) =~= eval_table());
    t
}

/// The arguments of `eval`.
pub struct EvalArgs {
    pub connect: ConnectArgs,
    pub script: String,
    /// `text` (the default), `json` or `yaml`.
    pub output_format: String,
}

/// Read `eval`'s arguments: `--port`/`--package`, a required `--script`,
/// and `--output` (default `text`).
pub fn parse_eval_args(args: &[String]) -> (r: Result<EvalArgs, CliError>)
    ensures
        match scan(eval_table(), texts(args@)) {
            ScanView::Parsed(es) => if both_targets(es) {
                r matches Err(e) && e@ == CliErrorView::InvalidArgs(both_targets_msg())
            } else if opt_text(es, 2) is None {
                r matches Err(e) && e@ == CliErrorView::InvalidArgs(required_msg("--script"@))
            } else {
                r matches Ok(a) && connect_matches(a.connect, es) && opt_text(es, 2) == Some(
                    a.script@,
                ) && a.output_format@ == match opt_text(es, 3) {
                    Some(o) => o,
                    None => "text"@,
                }
            },
            ScanView::Rejected(e) => r matches Err(x) && x@ == e,
            ScanView::Overflow => false,
        },
        r matches Ok(a) ==> (scan(eval_table(), texts(args@)) matches ScanView::Parsed(es) && connect_named(a.connect, eval_table(), es) && named_text(eval_table(), es, "--script"@) == Some(a.script@) && a.output_format@ == text_or(named_text(eval_table(), es, "--output"@), "text"@)),
{
    proof {
        lemma_eval_flags_by_name();
    }
    let table = eval_flags();
    proof {
        lemma_scan_no_overflow(eval_table(), texts(args@), 0);
        lemma_scan_well_typed(eval_table(), texts(args@), 0);
    }
    let uses = scan_args(&table, args)?;
    let connect = connect_from(&uses, Ghost(eval_table()))?;
    let script = required_text(&uses, 2, "--script")?;
    let output_format = match last_text(&uses, 3) {
        Some(o) => o,
        None => owned("text"),
    };
    Ok(EvalArgs { connect, script, output_format })
}

// ---------------------------------------------------------------------------
// screenshot
// ---------------------------------------------------------------------------

pub open spec fn screenshot_table() -> Seq<(Seq<char>, FlagKind)> {
    seq![
        ("--port"@, FlagKind::U16),
        ("--package"@, FlagKind::Text),
        ("--output"@, FlagKind::Text),
        ("--format"@, FlagKind::Text),
        ("--full-page"@, FlagKind::Switch),
    ]
}

fn screenshot_flags() -> (t: Vec<FlagSpec>)
    ensures
        table_view(t@) == screenshot_table(),
{
    let t = vec![
        FlagSpec { name: "--port", kind: FlagKind::U16 },
        FlagSpec { name: "--package", kind: FlagKind::Text },
        FlagSpec { name: "--output", kind: FlagKind::Text },
        FlagSpec { name: "--format", kind: FlagKind::Text },
        FlagSpec { name: "--full-page", kind: FlagKind::Switch },
    ];
    assert(table_view(t@) =~= screenshot_table());
    t
}

/// The arguments of `screenshot`.
pub struct ScreenshotArgs {
    pub connect: ConnectArgs,
    /// The file to write (default `screenshot.png`).
    pub output: String,
    /// The image format (default `png`).
    pub format: String,
    pub full_page: bool,
}

pub open spec fn text_or(o: Option<Seq<char>>, d: Seq<char>) -> Seq<char> {
    match o {
        Some(t) => t,
        None => d,
    }
}

/// Read `screenshot`'s arguments: `--port`/`--package`, `--output`
/// (default `screenshot.png`), `--format` (default `png`), `--full-page`.
pub fn parse_screenshot_args(args: &[String]) -> (r: Result<ScreenshotArgs, CliError>)
    ensures
        match scan(screenshot_table(), texts(args@)) {
            ScanView::Parsed(es) => if both_targets(es) {
                r matches Err(e) && e@ == CliErrorView::InvalidArgs(both_targets_msg())
            } else {
                r matches Ok(a) && connect_matches(a.connect, es) && a.output@ == text_or(
                    opt_text(es, 2),
                    "screenshot.png"@,
                ) && a.format@ == text_or(opt_text(es, 3), "png"@) && a.full_page == is_set(es, 4)
            },
            ScanView::Rejected(e) => r matches Err(x) && x@ == e,
            ScanView::Overflow => false,
        },
        r matches Ok(a) ==> (scan(screenshot_table(), texts(args@)) matches ScanView::Parsed(es) && connect_named(a.connect, screenshot_table(), es) && a.output@ == text_or(named_text(screenshot_table(), es, "--output"@), "screenshot.png"@) && a.format@ == text_or(named_text(screenshot_table(), es, "--format"@), "png"@) && a.full_page == named_set(screenshot_table(), es, "--full-page"@)),
{
    proof {
        lemma_screenshot_flags_by_name();
    }
    let table = screenshot_flags();
    proof {
        lemma_scan_no_overflow(screenshot_table(), texts(args@), 0);
        lemma_scan_well_typed(screenshot_table(), texts(args@), 0);
    }
    let uses = scan_args(&table, args)?;
    let connect = connect_from(&uses, Ghost(screenshot_table()))?;
    let output = match last_text(&uses, 2) {
        Some(o) => o,
        None => owned("screenshot.png"),
    };
    let format = match last_text(&uses, 3) {
        Some(f) => f,
        None => owned("png"),
    };
    let full_page = was_set(&uses, 4);
    Ok(ScreenshotArgs { connect, output, format, full_page })
}

// ---------------------------------------------------------------------------
// input
// ---------------------------------------------------------------------------

pub open spec fn input_table() -> Seq<(Seq<char>, FlagKind)> {
    seq![
        ("--port"@, FlagKind::U16),
        ("--package"@, FlagKind::Text),
        ("--selector"@, FlagKind::Text),
        ("--text"@, FlagKind::Text),
    ]
}

fn input_flags() -> (t: Vec<FlagSpec>)
    ensures
        table_view(t@) == input_table(),
{
    let t = vec![
        FlagSpec { name: "--port", kind: FlagKind::U16 },
        FlagSpec { name: "--package", kind: FlagKind::Text },
        FlagSpec { name: "--selector", kind: FlagKind::Text },
        FlagSpec { name: "--text", kind: FlagKind::Text },
    ];
    assert(table_view(t@) =~= input_table());
    t
}

/// The arguments of `input`.
pub struct InputArgs {
    pub connect: ConnectArgs,
    pub selector: String,
    pub text: String,
}

/// Read `input`'s arguments: `--port`/`--package`, a required `--selector`
/// and a required `--text`.
pub fn parse_input_args(args: &[String]) -> (r: Result<InputArgs, CliError>)
    ensures
        match scan(input_table(), texts(args@)) {
            ScanView::Parsed(es) => if both_targets(es) {
                r matches Err(e) && e@ == CliErrorView::InvalidArgs(both_targets_msg())
            } else if opt_text(es, 2) is None {
                r matches Err(e) && e@ == CliErrorView::InvalidArgs(required_msg("--selector"@))
            } else if opt_text(es, 3) is None {
                r matches Err(e) && e@ == CliErrorView::InvalidArgs(required_msg("--text"@))
            } else {
                r matches Ok(a) && connect_matches(a.connect, es) && opt_text(es, 2) == Some(
                    a.selector@,
                ) && opt_text(es, 3) == Some(a.text@)
            },
            ScanView::Rejected(e) => r matches Err(x) && x@ == e,
            ScanView::Overflow => false,
        },
        r matches Ok(a) ==> (scan(input_table(), texts(args@)) matches ScanView::Parsed(es) && connect_named(a.connect, input_table(), es) && named_text(input_table(), es, "--selector"@) == Some(a.selector@) && named_text(input_table(), es, "--text"@) == Some(a.text@)),
{
    proof {
        lemma_input_flags_by_name();
    }
    let table = input_flags();
    proof {
        lemma_scan_no_overflow(input_table(), texts(args@), 0);
        lemma_scan_well_typed(input_table(), texts(args@), 0);
    }
    let uses = scan_args(&table, args)?;
    let connect = connect_from(&uses, Ghost(input_table()))?;
    let selector = required_text(&uses, 2, "--selector")?;
    let text = required_text(&uses, 3, "--text")?;
    Ok(InputArgs { connect, selector, text })
}

// ---------------------------------------------------------------------------
// set-files
// ---------------------------------------------------------------------------

pub open spec fn set_files_table() -> Seq<(Seq<char>, FlagKind)> {
    seq![
        ("--port"@, FlagKind::U16),
        ("--package"@, FlagKind::Text),
        ("--selector"@, FlagKind::Text),
        ("--files"@, FlagKind::Text),
    ]
}

fn set_files_flags() -> (t: Vec<FlagSpec>)
    ensures
        table_view(t@) == set_files_table(),
{
    let t = vec![
        FlagSpec { name: "--port", kind: FlagKind::U16 },
        FlagSpec { name: "--package", kind: FlagKind::Text },
        FlagSpec { name: "--selector", kind: FlagKind::Text },
        FlagSpec { name: "--files", kind: FlagKind::Text },
    ];
    assert(table_view(t@) =~= set_files_table());
    t
}

/// The arguments of `set-files`.
pub struct SetFilesArgs {
    pub connect: ConnectArgs,
    pub selector: String,
    /// The paths `--files` lists.
    pub files: Vec<String>,
}

/// Read `set-files`' arguments: `--port`/`--package`, a required
/// `--selector`, and a required `--files` listing at least one path.
pub fn parse_set_files_args(args: &[String]) -> (r: Result<SetFilesArgs, CliError>)
    ensures
        match scan(set_files_table(), texts(args@)) {
            ScanView::Parsed(es) => if both_targets(es) {
                r matches Err(e) && e@ == CliErrorView::InvalidArgs(both_targets_msg())
            } else if opt_text(es, 2) is None {
                r matches Err(e) && e@ == CliErrorView::InvalidArgs(required_msg("--selector"@))
            } else if opt_text(es, 3) is None {
                r matches Err(e) && e@ == CliErrorView::InvalidArgs(required_msg("--files"@))
            } else if file_list(opt_text(es, 3)->0).len() == 0 {
                r matches Err(e) && e@ == CliErrorView::InvalidArgs(empty_files_msg())
            } else {
                r matches Ok(a) && connect_matches(a.connect, es) && opt_text(es, 2) == Some(
                    a.selector@,
                ) && texts(a.files@) == file_list(opt_text(es, 3)->0)
            },
            ScanView::Rejected(e) => r matches Err(x) && x@ == e,
            ScanView::Overflow => false,
        },
        r matches Ok(a) ==> (scan(set_files_table(), texts(args@)) matches ScanView::Parsed(es) && connect_named(a.connect, set_files_table(), es) && named_text(set_files_table(), es, "--selector"@) == Some(a.selector@) && named_text(set_files_table(), es, "--files"@) is Some && texts(a.files@) == file_list(named_text(set_files_table(), es, "--files"@)->0)),
{
    proof {
        lemma_set_files_flags_by_name();
    }
    let table = set_files_flags();
    proof {
        lemma_scan_no_overflow(set_files_table(), texts(args@), 0);
        lemma_scan_well_typed(set_files_table(), texts(args@), 0);
    }
    let uses = scan_args(&table, args)?;
    let connect = connect_from(&uses, Ghost(set_files_table()))?;
    let selector = required_text(&uses, 2, "--selector")?;
    let raw = required_text(&uses, 3, "--files")?;
    let files = parse_file_list(raw.as_str())?;
    Ok(SetFilesArgs { connect, selector, files })
}

// ---------------------------------------------------------------------------
// get-dom
// ---------------------------------------------------------------------------

pub open spec fn get_dom_table() -> Seq<(Seq<char>, FlagKind)> {
    seq![("--port"@, FlagKind::U16), ("--package"@, FlagKind::Text), ("--output"@, FlagKind::Text)]
}

fn get_dom_flags() -> (t: Vec<FlagSpec>)
    ensures
        table_view(t@) == get_dom_table(),
{
    let t = vec![
        FlagSpec { name: "--port", kind: FlagKind::U16 },
        FlagSpec { name: "--package", kind: FlagKind::Text },
        FlagSpec { name: "--output", kind: FlagKind::Text },
    ];
    assert(table_view(t@) =~= get_dom_table());
    t
}

/// The arguments of `get-dom`.
pub struct GetDomArgs {
    pub connect: ConnectArgs,
    /// The file to write the DOM to; printed when absent.
    pub output: Option<String>,
}

/// Read `get-dom`'s arguments: `--port`/`--package` and an optional
/// `--output` file.
pub fn parse_get_dom_args(args: &[String]) -> (r: Result<GetDomArgs, CliError>)
    ensures
        match scan(get_dom_table(), texts(args@)) {
            ScanView::Parsed(es) => if both_targets(es) {
                r matches Err(e) && e@ == CliErrorView::InvalidArgs(both_targets_msg())
            } else {
                r matches Ok(a) && connect_matches(a.connect, es) && opt_str(a.output) == opt_text(
                    es,
                    2,
                )
            },
            ScanView::Rejected(e) => r matches Err(x) && x@ == e,
            ScanView::Overflow => false,
        },
        r matches Ok(a) ==> (scan(get_dom_table(), texts(args@)) matches ScanView::Parsed(es) && connect_named(a.connect, get_dom_table(), es) && opt_str(a.output) == named_text(get_dom_table(), es, "--output"@)),
{
    proof {
        lemma_get_dom_flags_by_name();
    }
    let table = get_dom_flags();
    proof {
        lemma_scan_no_overflow(get_dom_table(), texts(args@), 0);
        lemma_scan_well_typed(get_dom_table(), texts(args@), 0);
    }
    let uses = scan_args(&table, args)?;
    let connect = connect_from(&uses, Ghost(get_dom_table()))?;
    let output = last_text(&uses, 2);
    Ok(GetDomArgs { connect, output })
}

// ---------------------------------------------------------------------------
// mock
// ---------------------------------------------------------------------------

pub open spec fn mock_table() -> Seq<(Seq<char>, FlagKind)> {
    seq![
        ("--port"@, FlagKind::U16),
        ("--package"@, FlagKind::Text),
        ("--url-pattern"@, FlagKind::Text),
        ("--status"@, FlagKind::U16),
        ("--body"@, FlagKind::Text),
    ]
}

fn mock_flags() -> (t: Vec<FlagSpec>)
    ensures
        table_view(t@) == mock_table(),
{
    let t = vec![
        FlagSpec { name: "--port", kind: FlagKind::U16 },
        FlagSpec { name: "--package", kind: FlagKind::Text },
        FlagSpec { name: "--url-pattern", kind: FlagKind::Text },
        FlagSpec { name: "--status", kind: FlagKind::U16 },
        FlagSpec { name: "--body", kind: FlagKind::Text },
    ];
    assert(table_view(t@) =~= mock_table());
    t
}

/// The arguments of `mock`.
pub struct MockArgs {
    pub connect: ConnectArgs,
    pub url_pattern: String,
    /// The fake HTTP status (default 200).
    pub status: u16,
    /// The fake response body (default empty).
    pub body: String,
}

/// Read `mock`'s arguments: `--port`/`--package`, a required
/// `--url-pattern`, `--status` (default 200) and `--body` (default empty).
pub fn parse_mock_args(args: &[String]) -> (r: Result<MockArgs, CliError>)
    ensures
        match scan(mock_table(), texts(args@)) {
            ScanView::Parsed(es) => if both_targets(es) {
                r matches Err(e) && e@ == CliErrorView::InvalidArgs(both_targets_msg())
            } else if opt_text(es, 2) is None {
                r matches Err(e) && e@ == CliErrorView::InvalidArgs(required_msg("--url-pattern"@))
            } else {
                r matches Ok(a) && connect_matches(a.connect, es) && opt_text(es, 2) == Some(
                    a.url_pattern@,
                ) && a.status == match opt_u16(opt_number(es, 3)) {
                    Some(s) => s,
                    None => 200u16,
                } && a.body@ == text_or(opt_text(es, 4), Seq::empty())
            },
            ScanView::Rejected(e) => r matches Err(x) && x@ == e,
            ScanView::Overflow => false,
        },
        r matches Ok(a) ==> (scan(mock_table(), texts(args@)) matches ScanView::Parsed(es) && connect_named(a.connect, mock_table(), es) && named_text(mock_table(), es, "--url-pattern"@) == Some(a.url_pattern@) && a.status == match opt_u16(named_number(mock_table(), es, "--status"@)) { Some(v) => v, None => 200u16 } && a.body@ == text_or(named_text(mock_table(), es, "--body"@), Seq::empty())),
{
    proof {
        lemma_mock_flags_by_name();
    }
    let table = mock_flags();
    proof {
        lemma_scan_no_overflow(mock_table(), texts(args@), 0);
        lemma_scan_well_typed(mock_table(), texts(args@), 0);
    }
    let uses = scan_args(&table, args)?;
    let connect = connect_from(&uses, Ghost(mock_table()))?;
    let url_pattern = required_text(&uses, 2, "--url-pattern")?;
    let status = match port_of(&uses, 3, Ghost(mock_table())) {
        Some(s) => s,
        None => 200,
    };
    let body = match last_text(&uses, 4) {
        Some(b) => b,
        None => String::new(),
    };
    Ok(MockArgs { connect, url_pattern, status, body })
}

// ---------------------------------------------------------------------------
// wait
// ---------------------------------------------------------------------------

pub open spec fn wait_table() -> Seq<(Seq<char>, FlagKind)> {
    seq![
        ("--port"@, FlagKind::U16),
        ("--package"@, FlagKind::Text),
        ("--selector"@, FlagKind::Text),
        ("--text"@, FlagKind::Text),
        ("--navigation"@, FlagKind::Switch),
        ("--timeout"@, FlagKind::U64),
    ]
}

fn wait_flags() -> (t: Vec<FlagSpec>)
    ensures
        table_view(t@) == wait_table(),
{
    let t = vec![
        FlagSpec { name: "--port", kind: FlagKind::U16 },
        FlagSpec { name: "--package", kind: FlagKind::Text },
        FlagSpec { name: "--selector", kind: FlagKind::Text },
        FlagSpec { name: "--text", kind: FlagKind::Text },
        FlagSpec { name: "--navigation", kind: FlagKind::Switch },
        FlagSpec { name: "--timeout", kind: FlagKind::U64 },
    ];
    assert(table_view(t@) =~= wait_table());
    t
}

/// The arguments of `wait`.
pub struct WaitArgs {
    pub connect: ConnectArgs,
    pub selector: Option<String>,
    pub text: Option<String>,
    pub navigation: bool,
    /// Seconds to wait (default 30).
    pub timeout_secs: u64,
}

/// Read `wait`'s arguments: `--port`/`--package`, the conditions
/// `--selector`, `--text` and `--navigation`, and `--timeout` (default 30).
pub fn parse_wait_args(args: &[String]) -> (r: Result<WaitArgs, CliError>)
    ensures
        match scan(wait_table(), texts(args@)) {
            ScanView::Parsed(es) => if both_targets(es) {
                r matches Err(e) && e@ == CliErrorView::InvalidArgs(both_targets_msg())
            } else {
                r matches Ok(a) && connect_matches(a.connect, es) && opt_str(a.selector) == opt_text(
                    es,
                    2,
                ) && opt_str(a.text) == opt_text(es, 3) && a.navigation == is_set(es, 4)
                    && a.timeout_secs == match opt_number(es, 5) {
                    Some(n) => n,
                    None => 30,
                }
            },
            ScanView::Rejected(e) => r matches Err(x) && x@ == e,
            ScanView::Overflow => false,
        },
        r matches Ok(a) ==> (scan(wait_table(), texts(args@)) matches ScanView::Parsed(es) && connect_named(a.connect, wait_table(), es) && opt_str(a.selector) == named_text(wait_table(), es, "--selector"@) && opt_str(a.text) == named_text(wait_table(), es, "--text"@) && a.navigation == named_set(wait_table(), es, "--navigation"@) && a.timeout_secs == number_or(named_number(wait_table(), es, "--timeout"@), 30)),
{
    proof {
        lemma_wait_flags_by_name();
    }
    let table = wait_flags();
    proof {
        lemma_scan_no_overflow(wait_table(), texts(args@), 0);
        lemma_scan_well_typed(wait_table(), texts(args@), 0);
    }
    let uses = scan_args(&table, args)?;
    let connect = connect_from(&uses, Ghost(wait_table()))?;
    let selector = last_text(&uses, 2);
    let text = last_text(&uses, 3);
    let navigation = was_set(&uses, 4);
    let timeout_secs = match last_number(&uses, 5) {
        Some(n) => n,
        None => 30,
    };
    Ok(WaitArgs { connect, selector, text, navigation, timeout_secs })
}

// ---------------------------------------------------------------------------
// launch
// ---------------------------------------------------------------------------

pub open spec fn launch_table() -> Seq<(Seq<char>, FlagKind)> {
    seq![
        ("--url"@, FlagKind::Text),
        ("--port"@, FlagKind::U16),
        ("--headless"@, FlagKind::Switch),
        ("--width"@, FlagKind::U32),
        ("--height"@, FlagKind::U32),
        ("--reap-stale"@, FlagKind::Switch),
    ]
}

fn launch_flags() -> (t: Vec<FlagSpec>)
    ensures
        table_view(t@) == launch_table(),
{
    let t = vec![
        FlagSpec { name: "--url", kind: FlagKind::Text },
        FlagSpec { name: "--port", kind: FlagKind::U16 },
        FlagSpec { name: "--headless", kind: FlagKind::Switch },
        FlagSpec { name: "--width", kind: FlagKind::U32 },
        FlagSpec { name: "--height", kind: FlagKind::U32 },
        FlagSpec { name: "--reap-stale", kind: FlagKind::Switch },
    ];
    assert(table_view(t@) =~= launch_table());
    t
}

/// The arguments of `launch`.
pub struct LaunchArgs {
    pub url: String,
    /// The debugging port (default 9222).
    pub port: u16,
    /// Viewport width (default 1920).
    pub width: u32,
    /// Viewport height (default 1080).
    pub height: u32,
    /// Reap other orphaned sessions first.
    pub reap_stale: bool,
}

pub open spec fn number_or(o: Option<nat>, d: nat) -> nat {
    match o {
        Some(n) => n,
        None => d,
    }
}

/// Read `launch`'s arguments: a required `--url`, `--port` (default 9222),
/// `--width` (1920), `--height` (1080), `--reap-stale`, and `--headless`,
/// accepted and ignored.
pub fn parse_launch_args(args: &[String]) -> (r: Result<LaunchArgs, CliError>)
    ensures
        match scan(launch_table(), texts(args@)) {
            ScanView::Parsed(es) => if opt_text(es, 0) is None {
                r matches Err(e) && e@ == CliErrorView::InvalidArgs(required_msg("--url"@))
            } else {
                r matches Ok(a) && opt_text(es, 0) == Some(a.url@) && a.port == number_or(
                    opt_number(es, 1),
                    DEFAULT_PORT as nat,
                ) && a.width == number_or(opt_number(es, 3), 1920) && a.height == number_or(
                    opt_number(es, 4),
                    1080,
                ) && a.reap_stale == is_set(es, 5)
            },
            ScanView::Rejected(e) => r matches Err(x) && x@ == e,
            ScanView::Overflow => false,
        },
        r matches Ok(a) ==> (scan(launch_table(), texts(args@)) matches ScanView::Parsed(es) && named_text(launch_table(), es, "--url"@) == Some(a.url@) && a.port == number_or(named_number(launch_table(), es, "--port"@), DEFAULT_PORT as nat) && a.width == number_or(named_number(launch_table(), es, "--width"@), 1920) && a.height == number_or(named_number(launch_table(), es, "--height"@), 1080) && a.reap_stale == named_set(launch_table(), es, "--reap-stale"@)),
{
    proof {
        lemma_launch_flags_by_name();
    }
    let table = launch_flags();
    proof {
        lemma_scan_no_overflow(launch_table(), texts(args@), 0);
        lemma_scan_well_typed(launch_table(), texts(args@), 0);
    }
    let uses = scan_args(&table, args)?;
    let url = required_text(&uses, 0, "--url")?;
    let port = match port_of(&uses, 1, Ghost(launch_table())) {
        Some(p) => p,
        None => DEFAULT_PORT,
    };
    let width = match count_of(&uses, 3, Ghost(launch_table())) {
        Some(w) => w,
        None => 1920,
    };
    let height = match count_of(&uses, 4, Ghost(launch_table())) {
        Some(h) => h,
        None => 1080,
    };
    let reap_stale = was_set(&uses, 5);
    Ok(LaunchArgs { url, port, width, height, reap_stale })
}

// ---------------------------------------------------------------------------
// reap
// ---------------------------------------------------------------------------

pub open spec fn reap_table() -> Seq<(Seq<char>, FlagKind)> {
    seq![("--dry-run"@, FlagKind::Switch), ("--max-age"@, FlagKind::Duration)]
}

fn reap_flags() -> (t: Vec<FlagSpec>)
    ensures
        table_view(t@) == reap_table(),
{
    let t = vec![
        FlagSpec { name: "--dry-run", kind: FlagKind::Switch },
        FlagSpec { name: "--max-age", kind: FlagKind::Duration },
    ];
    assert(table_view(t@) =~= reap_table());
    t
}

/// The arguments of `reap`.
pub struct ReapArgs {
    /// Only report what would be reaped.
    pub dry_run: bool,
    /// Also reap sessions older than this many seconds.
    pub max_age_secs: Option<u64>,
}

/// Read `reap`'s arguments: `--dry-run` and `--max-age <DUR>`. Inputs on
/// which a `--max-age` duration exceeds a `u64` of seconds are left out:
/// the multiplication overflows there.
pub fn parse_reap_args(args: &[String]) -> (r: Result<ReapArgs, CliError>)
    requires
        !(scan(reap_table(), texts(args@)) is Overflow),
    ensures
        match scan(reap_table(), texts(args@)) {
            ScanView::Parsed(es) => r matches Ok(a) && a.dry_run == is_set(es, 0) && match opt_number(
                es,
                1,
            ) {
                Some(n) => a.max_age_secs == Some(n as u64),
                None => a.max_age_secs is None,
            },
            ScanView::Rejected(e) => r matches Err(x) && x@ == e,
            ScanView::Overflow => false,
        },
        r matches Ok(a) ==> (scan(reap_table(), texts(args@)) matches ScanView::Parsed(es) && a.dry_run == named_set(reap_table(), es, "--dry-run"@) && a.max_age_secs == match named_number(reap_table(), es, "--max-age"@) { Some(n) => Some(n as u64), None => None::<u64> }),
{
    proof {
        lemma_reap_flags_by_name();
    }
    let table = reap_flags();
    let uses = scan_args(&table, args)?;
    let dry_run = was_set(&uses, 0);
    let max_age_secs = last_number(&uses, 1);
    Ok(ReapArgs { dry_run, max_age_secs })
}

/// Whether `reap`'s arguments hold a `--max-age` longer than a `u64` of
/// seconds, met before any other problem: the inputs
/// [`parse_reap_args`] leaves out.
pub fn reap_args_overflow(args: &[String]) -> (r: bool)
    ensures
        r == (scan(reap_table(), texts(args@)) is Overflow),
{
    let table = reap_flags();
    scan_overflows(&table, args)
}

/// Each flag of `click` is found under its own name: the position the
/// parser reads a value from is that of the flag of that name.
pub proof fn lemma_click_flags_by_name()
    ensures
        flag_index(click_table(), "--port"@) == Some(0nat),
        flag_index(click_table(), "--package"@) == Some(1nat),
        flag_index(click_table(), "--selector"@) == Some(2nat),
{
    reveal_strlit("--port");
    reveal_strlit("--package");
    reveal_strlit("--selector");
    lemma_flag_at(click_table(), "--port"@, 0);
    assert("--port"@[3] != "--package"@[3]);
    lemma_flag_at(click_table(), "--package"@, 1);
    assert("--port"@[2] != "--selector"@[2]);
    assert("--package"@[2] != "--selector"@[2]);
    lemma_flag_at(click_table(), "--selector"@, 2);
}

/// Each flag of `connect` is found under its own name: the position the
/// parser reads a value from is that of the flag of that name.
pub proof fn lemma_connect_flags_by_name()
    ensures
        flag_index(connect_table(), "--port"@) == Some(0nat),
        flag_index(connect_table(), "--package"@) == Some(1nat),
{
    reveal_strlit("--port");
    reveal_strlit("--package");
    lemma_flag_at(connect_table(), "--port"@, 0);
    assert("--port"@[3] != "--package"@[3]);
    lemma_flag_at(connect_table(), "--package"@, 1);
}

/// Each flag of `navigate` is found under its own name: the position the
/// parser reads a value from is that of the flag of that name.
pub proof fn lemma_navigate_flags_by_name()
    ensures
        flag_index(navigate_table(), "--port"@) == Some(0nat),
        flag_index(navigate_table(), "--package"@) == Some(1nat),
        flag_index(navigate_table(), "--url"@) == Some(2nat),
{
    reveal_strlit("--port");
    reveal_strlit("--package");
    reveal_strlit("--url");
    lemma_flag_at(navigate_table(), "--port"@, 0);
    assert("--port"@[3] != "--package"@[3]);
    lemma_flag_at(navigate_table(), "--package"@, 1);
    assert("--port"@[2] != "--url"@[2]);
    assert("--package"@[2] != "--url"@[2]);
    lemma_flag_at(navigate_table(), "--url"@, 2);
}

/// Each flag of `eval` is found under its own name: the position the
/// parser reads a value from is that of the flag of that name.
pub proof fn lemma_eval_flags_by_name()
    ensures
        flag_index(eval_table(), "--port"@) == Some(0nat),
        flag_index(eval_table(), "--package"@) == Some(1nat),
        flag_index(eval_table(), "--script"@) == Some(2nat),
        flag_index(eval_table(), "--output"@) == Some(3nat),
{
    reveal_strlit("--port");
    reveal_strlit("--package");
    reveal_strlit("--script");
    reveal_strlit("--output");
    lemma_flag_at(eval_table(), "--port"@, 0);
    assert("--port"@[3] != "--package"@[3]);
    lemma_flag_at(eval_table(), "--package"@, 1);
    assert("--port"@[2] != "--script"@[2]);
    assert("--package"@[2] != "--script"@[2]);
    lemma_flag_at(eval_table(), "--script"@, 2);
    assert("--port"@[2] != "--output"@[2]);
    assert("--package"@[2] != "--output"@[2]);
    assert("--script"@[2] != "--output"@[2]);
    lemma_flag_at(eval_table(), "--output"@, 3);
}

/// Each flag of `screenshot` is found under its own name: the position the
/// parser reads a value from is that of the flag of that name.
pub proof fn lemma_screenshot_flags_by_name()
    ensures
        flag_index(screenshot_table(), "--port"@) == Some(0nat),
        flag_index(screenshot_table(), "--package"@) == Some(1nat),
        flag_index(screenshot_table(), "--output"@) == Some(2nat),
        flag_index(screenshot_table(), "--format"@) == Some(3nat),
        flag_index(screenshot_table(), "--full-page"@) == Some(4nat),
{
    reveal_strlit("--port");
    reveal_strlit("--package");
    reveal_strlit("--output");
    reveal_strlit("--format");
    reveal_strlit("--full-page");
    lemma_flag_at(screenshot_table(), "--port"@, 0);
    assert("--port"@[3] != "--package"@[3]);
    lemma_flag_at(screenshot_table(), "--package"@, 1);
    assert("--port"@[2] != "--output"@[2]);
    assert("--package"@[2] != "--output"@[2]);
    lemma_flag_at(screenshot_table(), "--output"@, 2);
    assert("--port"@[2] != "--format"@[2]);
    assert("--package"@[2] != "--format"@[2]);
    assert("--output"@[2] != "--format"@[2]);
    lemma_flag_at(screenshot_table(), "--format"@, 3);
    assert("--port"@[2] != "--full-page"@[2]);
    assert("--package"@[2] != "--full-page"@[2]);
    assert("--output"@[2] != "--full-page"@[2]);
    assert("--format"@[3] != "--full-page"@[3]);
    lemma_flag_at(screenshot_table(), "--full-page"@, 4);
}

/// Each flag of `input` is found under its own name: the position the
/// parser reads a value from is that of the flag of that name.
pub proof fn lemma_input_flags_by_name()
    ensures
        flag_index(input_table(), "--port"@) == Some(0nat),
        flag_index(input_table(), "--package"@) == Some(1nat),
        flag_index(input_table(), "--selector"@) == Some(2nat),
        flag_index(input_table(), "--text"@) == Some(3nat),
{
    reveal_strlit("--port");
    reveal_strlit("--package");
    reveal_strlit("--selector");
    reveal_strlit("--text");
    lemma_flag_at(input_table(), "--port"@, 0);
    assert("--port"@[3] != "--package"@[3]);
    lemma_flag_at(input_table(), "--package"@, 1);
    assert("--port"@[2] != "--selector"@[2]);
    assert("--package"@[2] != "--selector"@[2]);
    lemma_flag_at(input_table(), "--selector"@, 2);
    assert("--port"@[2] != "--text"@[2]);
    assert("--package"@[2] != "--text"@[2]);
    assert("--selector"@[2] != "--text"@[2]);
    lemma_flag_at(input_table(), "--text"@, 3);
}

/// Each flag of `set_files` is found under its own name: the position the
/// parser reads a value from is that of the flag of that name.
pub proof fn lemma_set_files_flags_by_name()
    ensures
        flag_index(set_files_table(), "--port"@) == Some(0nat),
        flag_index(set_files_table(), "--package"@) == Some(1nat),
        flag_index(set_files_table(), "--selector"@) == Some(2nat),
        flag_index(set_files_table(), "--files"@) == Some(3nat),
{
    reveal_strlit("--port");
    reveal_strlit("--package");
    reveal_strlit("--selector");
    reveal_strlit("--files");
    lemma_flag_at(set_files_table(), "--port"@, 0);
    assert("--port"@[3] != "--package"@[3]);
    lemma_flag_at(set_files_table(), "--package"@, 1);
    assert("--port"@[2] != "--selector"@[2]);
    assert("--package"@[2] != "--selector"@[2]);
    lemma_flag_at(set_files_table(), "--selector"@, 2);
    assert("--port"@[2] != "--files"@[2]);
    assert("--package"@[2] != "--files"@[2]);
    assert("--selector"@[2] != "--files"@[2]);
    lemma_flag_at(set_files_table(), "--files"@, 3);
}

/// Each flag of `get_dom` is found under its own name: the position the
/// parser reads a value from is that of the flag of that name.
pub proof fn lemma_get_dom_flags_by_name()
    ensures
        flag_index(get_dom_table(), "--port"@) == Some(0nat),
        flag_index(get_dom_table(), "--package"@) == Some(1nat),
        flag_index(get_dom_table(), "--output"@) == Some(2nat),
{
    reveal_strlit("--port");
    reveal_strlit("--package");
    reveal_strlit("--output");
    lemma_flag_at(get_dom_table(), "--port"@, 0);
    assert("--port"@[3] != "--package"@[3]);
    lemma_flag_at(get_dom_table(), "--package"@, 1);
    assert("--port"@[2] != "--output"@[2]);
    assert("--package"@[2] != "--output"@[2]);
    lemma_flag_at(get_dom_table(), "--output"@, 2);
}

/// Each flag of `mock` is found under its own name: the position the
/// parser reads a value from is that of the flag of that name.
pub proof fn lemma_mock_flags_by_name()
    ensures
        flag_index(mock_table(), "--port"@) == Some(0nat),
        flag_index(mock_table(), "--package"@) == Some(1nat),
        flag_index(mock_table(), "--url-pattern"@) == Some(2nat),
        flag_index(mock_table(), "--status"@) == Some(3nat),
        flag_index(mock_table(), "--body"@) == Some(4nat),
{
    reveal_strlit("--port");
    reveal_strlit("--package");
    reveal_strlit("--url-pattern");
    reveal_strlit("--status");
    reveal_strlit("--body");
    lemma_flag_at(mock_table(), "--port"@, 0);
    assert("--port"@[3] != "--package"@[3]);
    lemma_flag_at(mock_table(), "--package"@, 1);
    assert("--port"@[2] != "--url-pattern"@[2]);
    assert("--package"@[2] != "--url-pattern"@[2]);
    lemma_flag_at(mock_table(), "--url-pattern"@, 2);
    assert("--port"@[2] != "--status"@[2]);
    assert("--package"@[2] != "--status"@[2]);
    assert("--url-pattern"@[2] != "--status"@[2]);
    lemma_flag_at(mock_table(), "--status"@, 3);
    assert("--port"@[2] != "--body"@[2]);
    assert("--package"@[2] != "--body"@[2]);
    assert("--url-pattern"@[2] != "--body"@[2]);
    assert("--status"@[2] != "--body"@[2]);
    lemma_flag_at(mock_table(), "--body"@, 4);
}

/// Each flag of `wait` is found under its own name: the position the
/// parser reads a value from is that of the flag of that name.
pub proof fn lemma_wait_flags_by_name()
    ensures
        flag_index(wait_table(), "--port"@) == Some(0nat),
        flag_index(wait_table(), "--package"@) == Some(1nat),
        flag_index(wait_table(), "--selector"@) == Some(2nat),
        flag_index(wait_table(), "--text"@) == Some(3nat),
        flag_index(wait_table(), "--navigation"@) == Some(4nat),
        flag_index(wait_table(), "--timeout"@) == Some(5nat),
{
    reveal_strlit("--port");
    reveal_strlit("--package");
    reveal_strlit("--selector");
    reveal_strlit("--text");
    reveal_strlit("--navigation");
    reveal_strlit("--timeout");
    lemma_flag_at(wait_table(), "--port"@, 0);
    assert("--port"@[3] != "--package"@[3]);
    lemma_flag_at(wait_table(), "--package"@, 1);
    assert("--port"@[2] != "--selector"@[2]);
    assert("--package"@[2] != "--selector"@[2]);
    lemma_flag_at(wait_table(), "--selector"@, 2);
    assert("--port"@[2] != "--text"@[2]);
    assert("--package"@[2] != "--text"@[2]);
    assert("--selector"@[2] != "--text"@[2]);
    lemma_flag_at(wait_table(), "--text"@, 3);
    assert("--port"@[2] != "--navigation"@[2]);
    assert("--package"@[2] != "--navigation"@[2]);
    assert("--selector"@[2] != "--navigation"@[2]);
    assert("--text"@[2] != "--navigation"@[2]);
    lemma_flag_at(wait_table(), "--navigation"@, 4);
    assert("--port"@[2] != "--timeout"@[2]);
    assert("--package"@[2] != "--timeout"@[2]);
    assert("--selector"@[2] != "--timeout"@[2]);
    assert("--text"@[3] != "--timeout"@[3]);
    assert("--navigation"@[2] != "--timeout"@[2]);
    lemma_flag_at(wait_table(), "--timeout"@, 5);
}

/// Each flag of `launch` is found under its own name: the position the
/// parser reads a value from is that of the flag of that name.
pub proof fn lemma_launch_flags_by_name()
    ensures
        flag_index(launch_table(), "--url"@) == Some(0nat),
        flag_index(launch_table(), "--port"@) == Some(1nat),
        flag_index(launch_table(), "--headless"@) == Some(2nat),
        flag_index(launch_table(), "--width"@) == Some(3nat),
        flag_index(launch_table(), "--height"@) == Some(4nat),
        flag_index(launch_table(), "--reap-stale"@) == Some(5nat),
{
    reveal_strlit("--url");
    reveal_strlit("--port");
    reveal_strlit("--headless");
    reveal_strlit("--width");
    reveal_strlit("--height");
    reveal_strlit("--reap-stale");
    lemma_flag_at(launch_table(), "--url"@, 0);
    assert("--url"@[2] != "--port"@[2]);
    lemma_flag_at(launch_table(), "--port"@, 1);
    assert("--url"@[2] != "--headless"@[2]);
    assert("--port"@[2] != "--headless"@[2]);
    lemma_flag_at(launch_table(), "--headless"@, 2);
    assert("--url"@[2] != "--width"@[2]);
    assert("--port"@[2] != "--width"@[2]);
    assert("--headless"@[2] != "--width"@[2]);
    lemma_flag_at(launch_table(), "--width"@, 3);
    assert("--url"@[2] != "--height"@[2]);
    assert("--port"@[2] != "--height"@[2]);
    assert("--headless"@[4] != "--height"@[4]);
    assert("--width"@[2] != "--height"@[2]);
    lemma_flag_at(launch_table(), "--height"@, 4);
    assert("--url"@[2] != "--reap-stale"@[2]);
    assert("--port"@[2] != "--reap-stale"@[2]);
    assert("--headless"@[2] != "--reap-stale"@[2]);
    assert("--width"@[2] != "--reap-stale"@[2]);
    assert("--height"@[2] != "--reap-stale"@[2]);
    lemma_flag_at(launch_table(), "--reap-stale"@, 5);
}

/// Each flag of `reap` is found under its own name: the position the
/// parser reads a value from is that of the flag of that name.
pub proof fn lemma_reap_flags_by_name()
    ensures
        flag_index(reap_table(), "--dry-run"@) == Some(0nat),
        flag_index(reap_table(), "--max-age"@) == Some(1nat),
{
    reveal_strlit("--dry-run");
    reveal_strlit("--max-age");
    lemma_flag_at(reap_table(), "--dry-run"@, 0);
    assert("--dry-run"@[2] != "--max-age"@[2]);
    lemma_flag_at(reap_table(), "--max-age"@, 1);
}

} // verus!
