//! The CLI's error type and the helpers every subcommand shares: reading a
//! flag's value, parsing numbers and durations, the connection options.
use vstd::prelude::*;

use crate::text::{
    chars_of, decimal, owned, parse_uint, parse_uint_chars, parse_uint_str, push_chars, push_str,
    split_on, split_ranges, string_of, trim, trim_bounds, trimmed_chars, pieces, ranges_within,
};

verus! {

/// Errors surfaced by CLI subcommands, each mapped to the process exit code
/// the CLI reports.
#[derive(Debug)]
pub enum CliError {
    /// Exit code 1 — the command ran but the browser-side action failed
    /// (JS exception, element not found, bad CDP response).
    ExecutionFailed(String),
    /// Exit code 2 — invalid or missing command-line arguments.
    InvalidArgs(String),
    /// Exit code 3 — the operation did not complete within its timeout.
    Timeout(String),
    /// Exit code 4 — could not connect to (or launch) the browser's debugger.
    ConnectionFailed(String),
}

/// What a [`CliError`] is: its kind and its message.
pub enum CliErrorView {
    ExecutionFailed(Seq<char>),
    InvalidArgs(Seq<char>),
    Timeout(Seq<char>),
    ConnectionFailed(Seq<char>),
}

impl View for CliError {
    type V = CliErrorView;

    open spec fn view(&self) -> CliErrorView {
        match self {
            CliError::ExecutionFailed(m) => CliErrorView::ExecutionFailed(m@),
            CliError::InvalidArgs(m) => CliErrorView::InvalidArgs(m@),
            CliError::Timeout(m) => CliErrorView::Timeout(m@),
            CliError::ConnectionFailed(m) => CliErrorView::ConnectionFailed(m@),
        }
    }
}

impl CliErrorView {
    /// The process exit code of an error of this kind.
    pub open spec fn code(self) -> int {
        match self {
            CliErrorView::ExecutionFailed(_) => 1,
            CliErrorView::InvalidArgs(_) => 2,
            CliErrorView::Timeout(_) => 3,
            CliErrorView::ConnectionFailed(_) => 4,
        }
    }

    /// The message the error carries.
    pub open spec fn message(self) -> Seq<char> {
        match self {
            CliErrorView::ExecutionFailed(m) => m,
            CliErrorView::InvalidArgs(m) => m,
            CliErrorView::Timeout(m) => m,
            CliErrorView::ConnectionFailed(m) => m,
        }
    }
}

impl CliError {
    /// The process exit code for this error.
    pub fn exit_code(&self) -> (code: i32)
        ensures
            code == self@.code(),
    {
        match self {
            CliError::ExecutionFailed(_) => 1,
            CliError::InvalidArgs(_) => 2,
            CliError::Timeout(_) => 3,
            CliError::ConnectionFailed(_) => 4,
        }
    }

    /// The error's message, as the CLI prints it after `Error: `.
    pub fn message(&self) -> (m: String)
        ensures
            m@ == self@.message(),
    {
        match self {
            CliError::ExecutionFailed(m) => m.clone(),
            CliError::InvalidArgs(m) => m.clone(),
            CliError::Timeout(m) => m.clone(),
            CliError::ConnectionFailed(m) => m.clone(),
        }
    }
}

/// Distinct kinds of error exit with distinct codes, all in `1..=4`.
pub proof fn lemma_exit_codes_distinct(a: CliErrorView, b: CliErrorView)
    ensures
        1 <= a.code() <= 4,
        a.code() == b.code() <==> ({
            ||| (a is ExecutionFailed && b is ExecutionFailed)
            ||| (a is InvalidArgs && b is InvalidArgs)
            ||| (a is Timeout && b is Timeout)
            ||| (a is ConnectionFailed && b is ConnectionFailed)
        }),
{
}

/// The texts of a list of strings.
pub open spec fn texts(v: Seq<String>) -> Seq<Seq<char>> {
    v.map_values(|s: String| s@)
}

/// The message for a flag given without its value.
pub open spec fn missing_value_msg(flag: Seq<char>) -> Seq<char> {
    flag + " requires a value"@
}

/// The message for a flag whose value does not parse.
pub open spec fn invalid_value_msg(flag: Seq<char>) -> Seq<char> {
    "invalid value for "@ + flag
}

/// A new string: `a` followed by `b`.
pub fn concat2(a: &str, b: &str) -> (s: String)
    ensures
        s@ == a@ + b@,
{
    let mut s = owned(a);
    push_str(&mut s, b);
    s
}

/// Return the value following flag `args[i - 1]`, that is `args[i]`, or an
/// `InvalidArgs` error naming `flag` when there is none.
pub fn expect_value(args: &[String], i: usize, flag: &str) -> (r: Result<String, CliError>)
    ensures
        i < args@.len() ==> (r matches Ok(v) && v@ == args@[i as int]@),
        i >= args@.len() ==> (r matches Err(e) && e@ == CliErrorView::InvalidArgs(
            missing_value_msg(flag@),
        )),
{
    if i < args.len() {
        Ok(args[i].clone())
    } else {
        Err(CliError::InvalidArgs(concat2(flag, " requires a value")))
    }
}

/// An unsigned integer type a flag's value can be parsed into.
pub trait UnsignedArg: Sized {
    /// The type's largest value.
    spec fn max_value() -> nat;

    /// The number a value of the type holds.
    spec fn number(self) -> nat;

    /// `str::parse` into the type.
    fn parse_arg(s: &str) -> (r: Option<Self>)
        ensures
            match r {
                Some(v) => parse_uint(s@, Self::max_value()) == Some(v.number()),
                None => parse_uint(s@, Self::max_value()) is None,
            },
    ;
}

impl UnsignedArg for u16 {
    open spec fn max_value() -> nat {
        u16::MAX as nat
    }

    open spec fn number(self) -> nat {
        self as nat
    }

    fn parse_arg(s: &str) -> (r: Option<u16>) {
        match parse_uint_str(s, u16::MAX as u64) {
            Some(n) => Some(n as u16),
            None => None,
        }
    }
}

impl UnsignedArg for u32 {
    open spec fn max_value() -> nat {
        u32::MAX as nat
    }

    open spec fn number(self) -> nat {
        self as nat
    }

    fn parse_arg(s: &str) -> (r: Option<u32>) {
        match parse_uint_str(s, u32::MAX as u64) {
            Some(n) => Some(n as u32),
            None => None,
        }
    }
}

impl UnsignedArg for u64 {
    open spec fn max_value() -> nat {
        u64::MAX as nat
    }

    open spec fn number(self) -> nat {
        self as nat
    }

    fn parse_arg(s: &str) -> (r: Option<u64>) {
        parse_uint_str(s, u64::MAX)
    }
}

/// Parse the value following a flag, `args[i]`, into `T`, or an
/// `InvalidArgs` error when it is missing or is not a number of `T`.
pub fn parse_value<T: UnsignedArg>(args: &[String], i: usize, flag: &str) -> (r: Result<
    T,
    CliError,
>)
    ensures
        i >= args@.len() ==> (r matches Err(e) && e@ == CliErrorView::InvalidArgs(
            missing_value_msg(flag@),
        )),
        i < args@.len() ==> match parse_uint(args@[i as int]@, T::max_value()) {
            Some(n) => r matches Ok(v) && v.number() == n,
            None => r matches Err(e) && e@ == CliErrorView::InvalidArgs(invalid_value_msg(flag@)),
        },
{
    let raw = expect_value(args, i, flag)?;
    match T::parse_arg(raw.as_str()) {
        Some(v) => Ok(v),
        None => Err(CliError::InvalidArgs(concat2("invalid value for ", flag))),
    }
}

/// The message for `--port` and `--package` given together.
pub open spec fn both_targets_msg() -> Seq<char> {
    "--port and --package cannot be used together"@
}

/// Reject `--port` and `--package` given together; otherwise return the
/// effective port, `port` or the default 9222 (only meaningful when
/// `package` is `None`).
pub fn validate_connect_args(port: Option<u16>, package: &Option<String>) -> (r: Result<
    u16,
    CliError,
>)
    ensures
        (port is Some && package is Some) ==> (r matches Err(e) && e@ == CliErrorView::InvalidArgs(
            both_targets_msg(),
        )),
        !(port is Some && package is Some) ==> r == Ok::<u16, CliError>(
            match port {
                Some(p) => p,
                None => DEFAULT_PORT,
            },
        ),
{
    if port.is_some() && package.is_some() {
        return Err(CliError::InvalidArgs(owned("--port and --package cannot be used together")));
    }
    match port {
        Some(p) => Ok(p),
        None => Ok(DEFAULT_PORT),
    }
}

/// The debugging port used when none is given.
pub const DEFAULT_PORT: u16 = 9222;

/// Where a command attaches: a local debugging port, or a debuggable
/// Android WebView owned by a package.
pub enum AttachTarget {
    Port(u16),
    Package(String),
}

/// The message for `--package` in a build without Android support.
pub open spec fn android_unavailable_msg() -> Seq<char> {
    "--package requires building browse with `--features android`"@
}

/// Decide where to attach: the Android WebView of `package` when one is
/// given (refused when `android` support is not built in), else `port`,
/// defaulting to 9222. `port` and `package` are mutually exclusive; the
/// caller validates that first.
pub fn attach(port: Option<u16>, package: Option<&str>, android: bool) -> (r: Result<
    AttachTarget,
    CliError,
>)
    ensures
        match package {
            Some(p) => if android {
                r matches Ok(AttachTarget::Package(q)) && q@ == p@
            } else {
                r matches Err(e) && e@ == CliErrorView::InvalidArgs(android_unavailable_msg())
            },
            None => r matches Ok(AttachTarget::Port(n)) && n == match port {
                Some(p) => p,
                None => DEFAULT_PORT,
            },
        },
{
    if let Some(pkg) = package {
        if android {
            return Ok(AttachTarget::Package(owned(pkg)));
        }
        return Err(
            CliError::InvalidArgs(
                owned("--package requires building browse with `--features android`"),
            ),
        );
    }
    Ok(
        AttachTarget::Port(
            match port {
                Some(p) => p,
                None => DEFAULT_PORT,
            },
        ),
    )
}

// ---------------------------------------------------------------------------
// --max-age durations
// ---------------------------------------------------------------------------

/// The number part and the multiplier of a trimmed duration: a trailing
/// `h`, `m` or `s` means hours, minutes or seconds; none means seconds.
pub open spec fn duration_parts(t: Seq<char>) -> (Seq<char>, nat) {
    if t.len() > 0 && t.last() == 'h' {
        (t.drop_last(), 3600)
    } else if t.len() > 0 && t.last() == 'm' {
        (t.drop_last(), 60)
    } else if t.len() > 0 && t.last() == 's' {
        (t.drop_last(), 1)
    } else {
        (t, 1)
    }
}

/// The number of seconds `raw` denotes, when its number part parses.
pub open spec fn duration_secs(raw: Seq<char>) -> Option<nat> {
    let (num, mult) = duration_parts(trim(raw));
    match parse_uint(num, u64::MAX as nat) {
        Some(n) => Some(n * mult),
        None => None,
    }
}

/// Whether `raw` parses to more seconds than a `u64` holds, where
/// multiplying by the unit would overflow.
pub open spec fn duration_overflows(raw: Seq<char>) -> bool {
    match duration_secs(raw) {
        Some(secs) => secs > u64::MAX,
        None => false,
    }
}

/// The message for a `--max-age` value that does not parse.
pub open spec fn invalid_duration_msg(raw: Seq<char>) -> Seq<char> {
    "invalid --max-age value: '"@ + trim(raw) + "' (expected e.g. 30, 30s, 5m, 1h)"@
}

/// Parse a plain integer (seconds) or a suffixed duration (`30s`, `5m`,
/// `1h`) into seconds.
pub fn parse_duration_secs(raw: &str) -> (r: Result<u64, CliError>)
    requires
        !duration_overflows(raw@),
    ensures
        match duration_secs(raw@) {
            Some(secs) => r matches Ok(v) && v == secs,
            None => r matches Err(e) && e@ == CliErrorView::InvalidArgs(invalid_duration_msg(raw@)),
        },
{
    let t = trimmed_chars(raw);
    let n = t.len();
    let (end, mult): (usize, u64) = if n > 0 && t[n - 1] == 'h' {
        (n - 1, 3600)
    } else if n > 0 && t[n - 1] == 'm' {
        (n - 1, 60)
    } else if n > 0 && t[n - 1] == 's' {
        (n - 1, 1)
    } else {
        (n, 1)
    };
    assert(t@.subrange(0, end as int) == duration_parts(t@).0) by {
        if end < n {
            assert(t@.subrange(0, end as int) =~= t@.drop_last());
        } else {
            assert(t@.subrange(0, end as int) =~= t@);
        }
    }
    match parse_uint_chars(&t, 0, end, u64::MAX) {
        Some(v) => {
            assert(v * mult <= u64::MAX);
            Ok(v * mult)
        },
        None => {
            let mut msg = owned("invalid --max-age value: '");
            push_chars(&mut msg, &t, 0, n);
            push_str(&mut msg, "' (expected e.g. 30, 30s, 5m, 1h)");
            assert(t@.subrange(0, n as int) =~= t@);
            Err(CliError::InvalidArgs(msg))
        },
    }
}

/// Whether `raw` names more seconds than a `u64` holds, where
/// [`parse_duration_secs`]'s multiplication would overflow.
pub fn duration_too_long(raw: &str) -> (r: bool)
    ensures
        r == duration_overflows(raw@),
{
    let t = trimmed_chars(raw);
    let n = t.len();
    let (end, mult): (usize, u64) = if n > 0 && t[n - 1] == 'h' {
        (n - 1, 3600)
    } else if n > 0 && t[n - 1] == 'm' {
        (n - 1, 60)
    } else if n > 0 && t[n - 1] == 's' {
        (n - 1, 1)
    } else {
        (n, 1)
    };
    assert(t@.subrange(0, end as int) == duration_parts(t@).0) by {
        if end < n {
            assert(t@.subrange(0, end as int) =~= t@.drop_last());
        } else {
            assert(t@.subrange(0, end as int) =~= t@);
        }
    }
    match parse_uint_chars(&t, 0, end, u64::MAX) {
        Some(v) => v.checked_mul(mult).is_none(),
        None => false,
    }
}

// ---------------------------------------------------------------------------
// --files lists
// ---------------------------------------------------------------------------

/// The nonempty texts of `s`, in order.
pub open spec fn keep_nonempty(s: Seq<Seq<char>>) -> Seq<Seq<char>>
    decreases s.len(),
{
    if s.len() == 0 {
        Seq::empty()
    } else {
        let rest = keep_nonempty(s.drop_last());
        if s.last().len() > 0 {
            rest.push(s.last())
        } else {
            rest
        }
    }
}

/// The paths a `--files` value lists: its comma-separated entries,
/// trimmed, empty ones dropped.
pub open spec fn file_list(raw: Seq<char>) -> Seq<Seq<char>> {
    keep_nonempty(split_on(raw, ',').map_values(|p: Seq<char>| trim(p)))
}

/// The message for a `--files` value that lists no path.
pub open spec fn empty_files_msg() -> Seq<char> {
    "--files must contain at least one path"@
}

/// Split `--files`'s comma-separated value into individual paths, trimming
/// whitespace and rejecting an empty list (e.g. `--files ""` or
/// `--files ,`).
pub fn parse_file_list(raw: &str) -> (r: Result<Vec<String>, CliError>)
    ensures
        file_list(raw@).len() == 0 ==> (r matches Err(e) && e@ == CliErrorView::InvalidArgs(
            empty_files_msg(),
        )),
        file_list(raw@).len() > 0 ==> (r matches Ok(paths) && texts(paths@) == file_list(raw@)),
{
    let v = chars_of(raw);
    let parts = split_ranges(&v, 0, v.len(), ',');
    assert(v@.subrange(0, v.len() as int) =~= v@);
    let ghost trimmed = split_on(raw@, ',').map_values(|p: Seq<char>| trim(p));
    let mut paths: Vec<String> = Vec::new();
    let mut k: usize = 0;
    while k < parts.len()
        invariant
            v@ == raw@,
            pieces(v@, parts@) == split_on(raw@, ','),
            ranges_within(parts@, 0, v.len() as int),
            trimmed == split_on(raw@, ',').map_values(|p: Seq<char>| trim(p)),
            0 <= k <= parts.len(),
            texts(paths@) == keep_nonempty(trimmed.take(k as int)),
        decreases parts.len() - k,
    {
        let (a, b) = parts[k];
        let (c, d) = trim_bounds(&v, a, b);
        assert(v@.subrange(c as int, d as int) == trimmed[k as int]);
        assert(trimmed.take((k + 1) as int).drop_last() =~= trimmed.take(k as int));
        if c < d {
            let ghost before = paths@;
            paths.push(string_of(&v, c, d));
            assert(texts(paths@) =~= texts(before).push(trimmed[k as int]));
        }
        k += 1;
    }
    assert(trimmed.take(parts.len() as int) =~= trimmed);
    if paths.len() == 0 {
        return Err(CliError::InvalidArgs(owned("--files must contain at least one path")));
    }
    Ok(paths)
}


// ---------------------------------------------------------------------------
// Laws
// ---------------------------------------------------------------------------

/// `ps` joined with `sep` between consecutive items.
pub open spec fn join_with(ps: Seq<Seq<char>>, sep: char) -> Seq<char>
    decreases ps.len(),
{
    if ps.len() == 0 {
        Seq::empty()
    } else if ps.len() == 1 {
        ps[0]
    } else {
        join_with(ps.drop_last(), sep).push(sep) + ps.last()
    }
}

pub open spec fn free_of(s: Seq<char>, c: char) -> bool {
    forall|i: int| 0 <= i < s.len() ==> s[i] != c
}

proof fn lemma_split_single(y: Seq<char>, sep: char)
    requires
        free_of(y, sep),
    ensures
        split_on(y, sep) == seq![y],
    decreases y.len(),
{
    if y.len() == 0 {
        assert(y =~= Seq::<char>::empty());
        assert(split_on(y, sep) =~= seq![y]);
    } else {
        lemma_split_single(y.drop_last(), sep);
        assert(split_on(y, sep) =~= seq![y.drop_last().push(y.last())]);
        assert(y.drop_last().push(y.last()) =~= y);
    }
}

proof fn lemma_split_after_sep(x: Seq<char>, y: Seq<char>, sep: char)
    requires
        free_of(y, sep),
    ensures
        split_on(x.push(sep) + y, sep) == split_on(x, sep).push(y),
    decreases y.len(),
{
    let z = x.push(sep) + y;
    if y.len() == 0 {
        assert(y =~= Seq::<char>::empty());
        assert(z =~= x.push(sep));
        assert(z.drop_last() =~= x);
        assert(split_on(z, sep) =~= split_on(x, sep).push(y));
    } else {
        assert(z.drop_last() =~= x.push(sep) + y.drop_last());
        assert(z.last() == y.last());
        lemma_split_after_sep(x, y.drop_last(), sep);
        let prev = split_on(x, sep).push(y.drop_last());
        assert(split_on(z, sep) =~= prev.update(prev.len() - 1, prev.last().push(y.last())));
        assert(y.drop_last().push(y.last()) =~= y);
        assert(split_on(z, sep) =~= split_on(x, sep).push(y));
    }
}

proof fn lemma_split_join(ps: Seq<Seq<char>>, sep: char)
    requires
        ps.len() > 0,
        forall|k: int| 0 <= k < ps.len() ==> free_of(#[trigger] ps[k], sep),
    ensures
        split_on(join_with(ps, sep), sep) == ps,
    decreases ps.len(),
{
    if ps.len() == 1 {
        lemma_split_single(ps[0], sep);
        assert(seq![ps[0]] =~= ps);
    } else {
        let init = ps.drop_last();
        assert forall|k: int| 0 <= k < init.len() implies free_of(#[trigger] init[k], sep) by {
            assert(init[k] == ps[k]);
        }
        lemma_split_join(init, sep);
        assert(free_of(ps.last(), sep)) by {
            assert(ps.last() == ps[ps.len() - 1]);
        }
        lemma_split_after_sep(join_with(init, sep), ps.last(), sep);
        assert(init.push(ps.last()) =~= ps);
    }
}

proof fn lemma_keep_all_nonempty(s: Seq<Seq<char>>)
    requires
        forall|k: int| 0 <= k < s.len() ==> (#[trigger] s[k]).len() > 0,
    ensures
        keep_nonempty(s) == s,
    decreases s.len(),
{
    if s.len() > 0 {
        let init = s.drop_last();
        assert forall|k: int| 0 <= k < init.len() implies (#[trigger] init[k]).len() > 0 by {
            assert(init[k] == s[k]);
        }
        lemma_keep_all_nonempty(init);
        assert(s.last() == s[s.len() - 1]);
        assert(init.push(s.last()) =~= s);
    }
}

/// Listing paths with `--files`: joining nonempty paths that have no comma
/// and no surrounding whitespace with commas, the value parses back to
/// exactly those paths.
pub proof fn lemma_file_list_round_trip(paths: Seq<Seq<char>>)
    requires
        paths.len() > 0,
        forall|k: int|
            0 <= k < paths.len() ==> (#[trigger] paths[k]).len() > 0 && free_of(paths[k], ',')
                && trim(paths[k]) == paths[k],
    ensures
        file_list(join_with(paths, ',')) == paths,
{
    lemma_split_join(paths, ',');
    let trimmed = split_on(join_with(paths, ','), ',').map_values(|p: Seq<char>| trim(p));
    assert(trimmed =~= paths);
    lemma_keep_all_nonempty(paths);
}

/// Every path `--files` yields is nonempty, has no comma, and has no
/// whitespace at either end.
pub proof fn lemma_file_list_entries_clean(raw: Seq<char>)
    ensures
        forall|k: int|
            0 <= k < file_list(raw).len() ==> (#[trigger] file_list(raw)[k]).len() > 0 && free_of(
                file_list(raw)[k],
                ',',
            ) && trim(file_list(raw)[k]) == file_list(raw)[k],
{
    let pieces = split_on(raw, ',');
    lemma_split_free(raw, ',');
    let trimmed = pieces.map_values(|p: Seq<char>| trim(p));
    assert forall|k: int| 0 <= k < trimmed.len() implies free_of(#[trigger] trimmed[k], ',') && trim(
        trimmed[k],
    ) == trimmed[k] by {
        lemma_trim_keeps_free(pieces[k], ',');
        crate::text::lemma_trim_has_no_outer_ws(pieces[k]);
        crate::text::lemma_trim_of_trimmed(trim(pieces[k]));
    }
    lemma_keep_props(trimmed);
}

proof fn lemma_split_free(s: Seq<char>, sep: char)
    ensures
        forall|k: int| 0 <= k < split_on(s, sep).len() ==> free_of(#[trigger] split_on(s, sep)[k], sep),
        split_on(s, sep).len() >= 1,
    decreases s.len(),
{
    if s.len() > 0 {
        lemma_split_free(s.drop_last(), sep);
        let rest = split_on(s.drop_last(), sep);
        if s.last() != sep {
            assert forall|k: int| 0 <= k < split_on(s, sep).len() implies free_of(
                #[trigger] split_on(s, sep)[k],
                sep,
            ) by {
                if k == rest.len() - 1 {
                    assert(free_of(rest[k], sep));
                    assert(split_on(s, sep)[k] == rest[k].push(s.last()));
                } else {
                    assert(split_on(s, sep)[k] == rest[k]);
                }
            }
        } else {
            assert forall|k: int| 0 <= k < split_on(s, sep).len() implies free_of(
                #[trigger] split_on(s, sep)[k],
                sep,
            ) by {
                if k < rest.len() {
                    assert(split_on(s, sep)[k] == rest[k]);
                }
            }
        }
    }
}

proof fn lemma_trim_start_suffix(s: Seq<char>)
    ensures
        crate::text::trim_start(s).len() <= s.len(),
        crate::text::trim_start(s) == s.subrange(
            s.len() - crate::text::trim_start(s).len(),
            s.len() as int,
        ),
    decreases s.len(),
{
    if s.len() > 0 && crate::text::is_ws(s[0]) {
        lemma_trim_start_suffix(s.drop_first());
        let t = crate::text::trim_start(s);
        assert(s.drop_first().subrange(
            s.drop_first().len() - t.len(),
            s.drop_first().len() as int,
        ) =~= s.subrange(s.len() - t.len(), s.len() as int));
    } else {
        assert(s.subrange(0, s.len() as int) =~= s);
    }
}

proof fn lemma_trim_end_prefix(s: Seq<char>)
    ensures
        crate::text::trim_end(s).len() <= s.len(),
        crate::text::trim_end(s) == s.subrange(0, crate::text::trim_end(s).len() as int),
    decreases s.len(),
{
    if s.len() > 0 && crate::text::is_ws(s.last()) {
        lemma_trim_end_prefix(s.drop_last());
        let t = crate::text::trim_end(s);
        assert(s.drop_last().subrange(0, t.len() as int) =~= s.subrange(0, t.len() as int));
    } else {
        assert(s.subrange(0, s.len() as int) =~= s);
    }
}

proof fn lemma_trim_keeps_free(s: Seq<char>, c: char)
    requires
        free_of(s, c),
    ensures
        free_of(trim(s), c),
{
    lemma_trim_start_suffix(s);
    let a = crate::text::trim_start(s);
    lemma_trim_end_prefix(a);
    assert forall|i: int| 0 <= i < trim(s).len() implies trim(s)[i] != c by {
        assert(trim(s)[i] == a[i]);
        assert(a[i] == s[s.len() - a.len() + i]);
    }
}

proof fn lemma_keep_props(s: Seq<Seq<char>>)
    requires
        forall|k: int| 0 <= k < s.len() ==> free_of(#[trigger] s[k], ',') && trim(s[k]) == s[k],
    ensures
        forall|k: int|
            0 <= k < keep_nonempty(s).len() ==> (#[trigger] keep_nonempty(s)[k]).len() > 0 && free_of(
                keep_nonempty(s)[k],
                ',',
            ) && trim(keep_nonempty(s)[k]) == keep_nonempty(s)[k],
    decreases s.len(),
{
    if s.len() > 0 {
        let init = s.drop_last();
        assert forall|k: int| 0 <= k < init.len() implies free_of(#[trigger] init[k], ',') && trim(
            init[k],
        ) == init[k] by {
            assert(init[k] == s[k]);
        }
        lemma_keep_props(init);
        let r = keep_nonempty(init);
        assert(s.last() == s[s.len() - 1]);
        assert forall|k: int| 0 <= k < keep_nonempty(s).len() implies (#[trigger] keep_nonempty(
            s,
        )[k]).len() > 0 && free_of(keep_nonempty(s)[k], ',') && trim(keep_nonempty(s)[k])
            == keep_nonempty(s)[k] by {
            if k < r.len() {
                assert(keep_nonempty(s)[k] == r[k]);
            }
        }
    }
}

/// A plain number of seconds reads back as itself.
pub proof fn lemma_duration_plain(n: nat)
    requires
        n <= u64::MAX,
    ensures
        duration_secs(crate::text::decimal(n)) == Some(n),
{
    let d = crate::text::decimal(n);
    crate::text::lemma_decimal_value(n);
    assert(crate::text::is_digit(d[0]) && crate::text::is_digit(d.last())) by {
        assert(d.last() == d[d.len() - 1]);
    }
    crate::text::lemma_trim_of_trimmed(d);
    assert(d.last() != 'h' && d.last() != 'm' && d.last() != 's');
    assert(duration_parts(trim(d)) == (d, 1nat));
    crate::text::lemma_parse_decimal(n, u64::MAX as nat);
}

/// A number followed by `s`, `m` or `h` reads back as that many seconds,
/// minutes or hours.
pub proof fn lemma_duration_suffixed(n: nat, unit: char)
    requires
        unit == 's' || unit == 'm' || unit == 'h',
        n <= u64::MAX,
    ensures
        duration_secs(crate::text::decimal(n).push(unit)) == Some(
            n * (if unit == 'h' {
                3600nat
            } else if unit == 'm' {
                60nat
            } else {
                1nat
            }),
        ),
{
    let d = crate::text::decimal(n);
    let t = d.push(unit);
    crate::text::lemma_decimal_value(n);
    assert(crate::text::is_digit(d[0]));
    assert(t[0] == d[0]);
    crate::text::lemma_trim_of_trimmed(t);
    assert(t.drop_last() =~= d);
    crate::text::lemma_parse_decimal(n, u64::MAX as nat);
}

} // verus!
