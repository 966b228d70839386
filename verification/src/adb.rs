//! Finding a debuggable Android WebView over `adb`: reading the device's
//! `/proc/net/unix` and `ps -A` listings, and what `adb forward` prints.
use vstd::prelude::*;
use vstd::string::StrSliceExecFns;

use crate::cli::texts;
use crate::process::{lemma_strip_lead_at, strip_lead};
use crate::session::{last_index, lemma_last_index_append, lemma_last_index_none};
use crate::text::{
    lemma_decimal_value, all_digits, chars_of, contains, decimal, is_digit, line_ranges, lines, owned, parse_uint,
    parse_uint_chars, pieces, push_chars, push_decimal, push_str, range_contains, range_eq,
    range_starts_with, ranges_within, starts_with, string_of, trim, trimmed_chars, words, words_of,
};

verus! {

/// The name prefix of WebView remote-debugging sockets.
pub open spec fn socket_marker() -> Seq<char> {
    "webview_devtools_remote_"@
}

/// The WebView debug socket a `/proc/net/unix` line names: its last
/// whitespace-separated column, when that contains the socket marker,
/// without a leading `@`.
pub open spec fn socket_of_line(line: Seq<char>) -> Option<Seq<char>> {
    let w = words(line);
    if w.len() > 0 && contains(w.last(), socket_marker()) {
        Some(strip_lead(w.last(), '@'))
    } else {
        None
    }
}

/// The WebView debug sockets that the lines `ls` name, in order.
pub open spec fn sockets_in(ls: Seq<Seq<char>>) -> Seq<Seq<char>>
    decreases ls.len(),
{
    if ls.len() == 0 {
        Seq::empty()
    } else {
        let rest = sockets_in(ls.drop_last());
        match socket_of_line(ls.last()) {
            Some(s) => rest.push(s),
            None => rest,
        }
    }
}

/// A copy of `v[a..b]`.
fn sub_chars(v: &Vec<char>, a: usize, b: usize) -> (r: Vec<char>)
    requires
        a <= b <= v.len(),
    ensures
        r@ == v@.subrange(a as int, b as int),
{
    let mut r: Vec<char> = Vec::new();
    let mut k = a;
    while k < b
        invariant
            a <= k <= b <= v.len(),
            r@ == v@.subrange(a as int, k as int),
        decreases b - k,
    {
        r.push(v[k]);
        k += 1;
        assert(r@ =~= v@.subrange(a as int, k as int));
    }
    r
}

/// The WebView debug socket the line `line` names, if any.
fn socket_in_line(line: &Vec<char>, marker: &Vec<char>) -> (r: Option<String>)
    requires
        marker@ == socket_marker(),
    ensures
        match socket_of_line(line@) {
            Some(s) => r matches Some(x) && x@ == s,
            None => r is None,
        },
{
    let w = words_of(line);
    if w.len() == 0 {
        return None;
    }
    let (a, b) = w[w.len() - 1];
    assert(line@.subrange(a as int, b as int) == words(line@).last());
    if !range_contains(line, a, b, marker) {
        return None;
    }
    let mut c = a;
    while c < b && line[c] == '@'
        invariant
            a <= c <= b <= line.len(),
            forall|k: int| a <= k < c ==> #[trigger] line@[k] == '@',
        decreases b - c,
    {
        c += 1;
    }
    proof {
        let s = line@.subrange(a as int, b as int);
        assert forall|k: int| 0 <= k < c - a implies #[trigger] s[k] == '@' by {
            assert(s[k] == line@[k + a]);
        }
        lemma_strip_lead_at(s, '@', c - a);
        assert(s.subrange(c - a, s.len() as int) =~= line@.subrange(c as int, b as int));
    }
    Some(string_of(line, c, b))
}

/// Extract `webview_devtools_remote_<pid>` socket names from
/// `/proc/net/unix` output (the last whitespace-separated column, when
/// present, is the path).
pub fn parse_webview_sockets(proc_net_unix: &str) -> (r: Vec<String>)
    ensures
        texts(r@) == sockets_in(lines(proc_net_unix@)),
{
    let v = chars_of(proc_net_unix);
    let rows = line_ranges(&v, 0, v.len());
    assert(v@.subrange(0, v.len() as int) =~= v@);
    let marker = chars_of("webview_devtools_remote_");
    let ghost ls = lines(proc_net_unix@);
    let mut out: Vec<String> = Vec::new();
    let mut k: usize = 0;
    while k < rows.len()
        invariant
            v@ == proc_net_unix@,
            marker@ == socket_marker(),
            ls == lines(proc_net_unix@),
            pieces(v@, rows@) == ls,
            ranges_within(rows@, 0, v.len() as int),
            0 <= k <= rows.len(),
            texts(out@) == sockets_in(ls.take(k as int)),
        decreases rows.len() - k,
    {
        let (a, b) = rows[k];
        let line = sub_chars(&v, a, b);
        assert(line@ == ls[k as int]);
        assert(ls.take(k + 1).drop_last() =~= ls.take(k as int));
        match socket_in_line(&line, &marker) {
            Some(s) => {
                let ghost before = out@;
                out.push(s);
                assert(texts(out@) =~= texts(before).push(out@.last()@));
            },
            None => {},
        }
        k += 1;
    }
    assert(ls.take(rows.len() as int) =~= ls);
    out
}

/// What follows the last `_` of a socket name (all of it when there is
/// none).
pub open spec fn after_last_underscore(s: Seq<char>) -> Seq<char> {
    match last_index(s, '_') {
        Some(i) => s.subrange(i + 1, s.len() as int),
        None => s,
    }
}

/// The pid a socket name ends with: its trailing `_`-separated segment,
/// when that is a nonempty run of ASCII digits.
pub open spec fn socket_pid(s: Seq<char>) -> Option<Seq<char>> {
    let p = after_last_underscore(s);
    if p.len() > 0 && all_digits(p) {
        Some(p)
    } else {
        None
    }
}

/// Extract the trailing `<pid>` from a `webview_devtools_remote_<pid>`
/// socket name, or `None` if the trailing segment isn't a valid numeric
/// pid.
pub fn extract_pid(socket_name: &str) -> (r: Option<&str>)
    ensures
        match socket_pid(socket_name@) {
            Some(p) => r matches Some(x) && x@ == p,
            None => r is None,
        },
{
    let v = chars_of(socket_name);
    let n = v.len();
    let mut j = n;
    assert(v@.take(n as int) =~= v@);
    while j > 0 && v[j - 1] != '_'
        invariant
            v@ == socket_name@,
            n == v.len(),
            0 <= j <= n,
            last_index(v@, '_') == last_index(v@.take(j as int), '_'),
        decreases j,
    {
        assert(v@.take(j as int).drop_last() =~= v@.take(j - 1));
        j -= 1;
    }
    proof {
        if j == 0 {
            assert(v@.take(0) =~= Seq::<char>::empty());
            assert(last_index(v@, '_') is None);
            assert(after_last_underscore(v@) =~= v@.subrange(0, n as int));
        } else {
            assert(v@.take(j as int).last() == v@[j - 1]);
            assert(last_index(v@, '_') == Some(j - 1));
            assert(after_last_underscore(v@) =~= v@.subrange(j as int, n as int));
        }
    }
    if j == n {
        return None;
    }
    let mut k = j;
    while k < n
        invariant
            j <= k <= n == v.len(),
            v@ == socket_name@,
            after_last_underscore(v@) == v@.subrange(j as int, n as int),
            forall|i: int| j <= i < k ==> is_digit(#[trigger] v@[i]),
        decreases n - k,
    {
        if !('0' <= v[k] && v[k] <= '9') {
            assert(!is_digit(v@.subrange(j as int, n as int)[k - j]));
            return None;
        }
        k += 1;
    }
    assert(all_digits(v@.subrange(j as int, n as int))) by {
        assert forall|i: int| 0 <= i < n - j implies is_digit(
            #[trigger] v@.subrange(j as int, n as int)[i],
        ) by {
            assert(v@.subrange(j as int, n as int)[i] == v@[i + j]);
        }
    }
    Some(socket_name.substring_char(j, n))
}

/// Whether a process named `name` belongs to `package`: exactly its name,
/// or `package:sub_process`.
pub open spec fn name_of_package(name: Seq<char>, package: Seq<char>) -> bool {
    name == package || starts_with(name, package + ":"@)
}

/// What the first `ps -A` row of `ls` whose PID column (the second word)
/// is `pid` says: whether its process name (the last word) belongs to
/// `package`; `false` when no row has that PID.
pub open spec fn ps_row_owned(ls: Seq<Seq<char>>, pid: Seq<char>, package: Seq<char>) -> bool
    decreases ls.len(),
{
    if ls.len() == 0 {
        false
    } else {
        let w = words(ls[0]);
        if w.len() >= 2 && w[1] == pid {
            name_of_package(w.last(), package)
        } else {
            ps_row_owned(ls.drop_first(), pid, package)
        }
    }
}

/// Check whether `pid`'s row in `adb shell ps -A` output names a process
/// belonging to `package_name` (exact match, or `package_name:sub_process`).
pub fn ps_process_name_matches(ps_output: &str, pid: &str, package_name: &str) -> (r: bool)
    ensures
        r == ps_row_owned(lines(ps_output@), pid@, package_name@),
{
    let v = chars_of(ps_output);
    let rows = line_ranges(&v, 0, v.len());
    assert(v@.subrange(0, v.len() as int) =~= v@);
    let pid_v = chars_of(pid);
    let pkg = chars_of(package_name);
    let mut sub = chars_of(package_name);
    sub.push(':');
    assert(sub@ =~= package_name@ + ":"@) by {
        reveal_strlit(":");
    }
    let ghost ls = lines(ps_output@);
    assert(ls.subrange(0, ls.len() as int) =~= ls);
    let mut k: usize = 0;
    while k < rows.len()
        invariant
            v@ == ps_output@,
            pid_v@ == pid@,
            pkg@ == package_name@,
            sub@ == package_name@ + ":"@,
            ls == lines(ps_output@),
            pieces(v@, rows@) == ls,
            ranges_within(rows@, 0, v.len() as int),
            0 <= k <= rows.len(),
            ps_row_owned(ls, pid@, package_name@) == ps_row_owned(
                ls.subrange(k as int, ls.len() as int),
                pid@,
                package_name@,
            ),
        decreases rows.len() - k,
    {
        let (a, b) = rows[k];
        let line = sub_chars(&v, a, b);
        assert(line@ == ls[k as int]);
        let ghost rest = ls.subrange(k as int, ls.len() as int);
        assert(rest[0] == ls[k as int]);
        assert(rest.drop_first() =~= ls.subrange(k + 1, ls.len() as int));
        let w = words_of(&line);
        if w.len() >= 2 {
            let (pa, pb) = w[1];
            assert(line@.subrange(pa as int, pb as int) == words(line@)[1]);
            if range_eq(&line, pa, pb, &pid_v) {
                let (na, nb) = w[w.len() - 1];
                assert(line@.subrange(na as int, nb as int) == words(line@).last());
                let exact = range_eq(&line, na, nb, &pkg);
                let prefixed = range_starts_with(&line, na, nb, &sub);
                return exact || prefixed;
            }
        }
        k += 1;
    }
    assert(ls.subrange(k as int, ls.len() as int) =~= Seq::<Seq<char>>::empty());
    false
}

/// The message for `adb forward` output that is not a port.
pub open spec fn bad_forward_msg(trimmed: Seq<char>) -> Seq<char> {
    "could not parse port from adb forward output: '"@ + trimmed + "'"@
}

/// Parse the port number `adb forward tcp:0 ...` prints on success.
pub fn parse_forward_port(output: &str) -> (r: Result<u16, String>)
    ensures
        match parse_uint(trim(output@), u16::MAX as nat) {
            Some(p) => r == Ok::<u16, String>(p as u16),
            None => r matches Err(m) && m@ == bad_forward_msg(trim(output@)),
        },
{
    let t = trimmed_chars(output);
    assert(t@.subrange(0, t.len() as int) =~= t@);
    match parse_uint_chars(&t, 0, t.len(), u16::MAX as u64) {
        Some(p) => Ok(p as u16),
        None => {
            let mut m = owned("could not parse port from adb forward output: '");
            push_chars(&mut m, &t, 0, t.len());
            push_str(&mut m, "'");
            Err(m)
        },
    }
}

/// The message when the device has no WebView debug socket at all.
pub open spec fn no_sockets_msg() -> Seq<char> {
    "no WebView debug sockets found on the device — is WebView.setWebContentsDebuggingEnabled(true) active for any app?"@
}

/// Fail when the device listed no WebView debug socket at all.
pub fn require_sockets(sockets: &Vec<String>) -> (r: Result<(), String>)
    ensures
        sockets.len() == 0 ==> (r matches Err(m) && m@ == no_sockets_msg()),
        sockets.len() > 0 ==> r is Ok,
{
    if sockets.len() == 0 {
        return Err(
            owned(
                "no WebView debug sockets found on the device — is WebView.setWebContentsDebuggingEnabled(true) active for any app?",
            ),
        );
    }
    Ok(())
}

/// The first of `socks[k..]` owned by `package` per the `ps -A` lines `ls`.
pub open spec fn owned_socket_from(socks: Seq<Seq<char>>, ls: Seq<Seq<char>>, package: Seq<char>, k: int) -> Option<
    int,
>
    decreases socks.len() - k,
{
    if k < 0 || k >= socks.len() {
        None
    } else if socket_pid(socks[k]) matches Some(p) && ps_row_owned(ls, p, package) {
        Some(k)
    } else {
        owned_socket_from(socks, ls, package, k + 1)
    }
}

/// The message when no socket belongs to the package.
pub open spec fn no_package_socket_msg(package: Seq<char>, n: nat) -> Seq<char> {
    "no active WebView debug socket found for package '"@ + package + "' ("@ + decimal(n)
        + " other socket(s) found on the device)"@
}

/// Pick the first socket owned by `package_name`, going by the `ps -A`
/// listing of the device.
pub fn pick_webview_socket(sockets: &Vec<String>, ps_output: &str, package_name: &str) -> (r: Result<
    String,
    String,
>)
    ensures
        match owned_socket_from(texts(sockets@), lines(ps_output@), package_name@, 0) {
            Some(k) => r matches Ok(s) && s@ == sockets@[k]@,
            None => r matches Err(m) && m@ == no_package_socket_msg(
                package_name@,
                sockets.len() as nat,
            ),
        },
{
    let ghost socks = texts(sockets@);
    let ghost ls = lines(ps_output@);
    let mut k: usize = 0;
    while k < sockets.len()
        invariant
            socks == texts(sockets@),
            ls == lines(ps_output@),
            0 <= k <= sockets.len(),
            owned_socket_from(socks, ls, package_name@, 0) == owned_socket_from(
                socks,
                ls,
                package_name@,
                k as int,
            ),
        decreases sockets.len() - k,
    {
        assert(socks[k as int] == sockets@[k as int]@);
        match extract_pid(sockets[k].as_str()) {
            Some(pid) => {
                if ps_process_name_matches(ps_output, pid, package_name) {
                    return Ok(sockets[k].clone());
                }
            },
            None => {},
        }
        k += 1;
    }
    let mut m = owned("no active WebView debug socket found for package '");
    push_str(&mut m, package_name);
    push_str(&mut m, "' (");
    push_decimal(&mut m, sockets.len() as u64);
    push_str(&mut m, " other socket(s) found on the device)");
    Err(m)
}

/// The arguments of `adb` that forward an OS-assigned local port to the
/// device's abstract socket `socket`.
pub fn forward_args(socket: &str) -> (r: Vec<String>)
    ensures
        texts(r@) == seq!["forward"@, "tcp:0"@, "localabstract:"@ + socket@],
{
    let mut target = owned("localabstract:");
    push_str(&mut target, socket);
    let r = vec![owned("forward"), owned("tcp:0"), target];
    assert(texts(r@) =~= seq!["forward"@, "tcp:0"@, "localabstract:"@ + socket@]);
    r
}

/// The arguments of `adb` that remove the forward of local `port`.
pub fn remove_forward_args(port: u16) -> (r: Vec<String>)
    ensures
        texts(r@) == seq!["forward"@, "--remove"@, "tcp:"@ + decimal(port as nat)],
{
    let mut target = owned("tcp:");
    push_decimal(&mut target, port as u64);
    let r = vec![owned("forward"), owned("--remove"), target];
    assert(texts(r@) =~= seq!["forward"@, "--remove"@, "tcp:"@ + decimal(port as nat)]);
    r
}

/// The socket a WebView of process `n` opens names that process: the pid
/// read from `webview_devtools_remote_<n>` is `n`'s digits.
pub proof fn lemma_socket_names_its_pid(n: nat)
    ensures
        socket_pid(socket_marker() + decimal(n)) == Some(decimal(n)),
{
    reveal_strlit("webview_devtools_remote_");
    let m = socket_marker();
    let d = decimal(n);
    lemma_decimal_value(n);
    assert forall|k: int| 0 <= k < d.len() implies d[k] != '_' by {
        assert(is_digit(d[k]));
    }
    lemma_last_index_none(d, '_');
    lemma_last_index_append(m, d, '_');
    assert(m.last() == '_');
    assert(last_index(m, '_') == Some(m.len() - 1));
    assert((m + d).subrange(m.len() as int, (m + d).len() as int) =~= d);
}

/// The port `adb forward` prints (its digits and a line break) reads back
/// as that port.
pub proof fn lemma_forward_port_round_trip(port: u16)
    ensures
        parse_uint(trim(decimal(port as nat).push('\n')), u16::MAX as nat) == Some(port as nat),
{
    crate::text::lemma_printed_line_parses(port as nat, u16::MAX as nat);
}

/// Whether `name` is the process name of `package` or of one of its
/// named sub-processes: the package name itself, or the package name,
/// `:` and anything after it.
pub open spec fn is_package_process(name: Seq<char>, package: Seq<char>) -> bool {
    name == package || (name.len() > package.len() && name.subrange(0, package.len() as int)
        == package && name[package.len() as int] == ':')
}

/// A process name belongs to a package exactly when it is the package's
/// name or that name followed by `:`: a name that merely begins with the
/// package's name, such as `com.example.app.debug` for `com.example.app`,
/// is another app's.
pub proof fn lemma_package_name_match(name: Seq<char>, package: Seq<char>, suffix: Seq<char>)
    ensures
        name_of_package(name, package) <==> is_package_process(name, package),
        !name_of_package(package + seq!['.'] + suffix, package),
{
    reveal_strlit(":");
    let sub = package + ":"@;
    assert(sub.len() == package.len() + 1);
    if starts_with(name, sub) {
        assert(name.subrange(0, package.len() as int) =~= sub.subrange(0, package.len() as int));
        assert(sub.subrange(0, package.len() as int) =~= package);
        assert(name[package.len() as int] == name.subrange(0, sub.len() as int)[package.len() as int]);
    }
    if is_package_process(name, package) && name != package {
        assert(name.subrange(0, sub.len() as int) =~= sub);
    }
    let other = package + seq!['.'] + suffix;
    assert(other[package.len() as int] == '.');
    if starts_with(other, sub) {
        assert(other.subrange(0, sub.len() as int)[package.len() as int] == ':');
    }
    assert(other.len() != package.len());
}

/// Whether line `l` of a `ps -A` listing is a row of process `pid`.
pub open spec fn is_pid_row(l: Seq<char>, pid: Seq<char>) -> bool {
    words(l).len() >= 2 && words(l)[1] == pid
}

/// What the listing says of `pid`: its process belongs to `package`
/// exactly when the first row of `pid` names a process of the package.
pub proof fn lemma_ps_row_owned_first_row(ls: Seq<Seq<char>>, pid: Seq<char>, package: Seq<char>)
    ensures
        ps_row_owned(ls, pid, package) <==> exists|k: int|
            0 <= k < ls.len() && #[trigger] is_pid_row(ls[k], pid) && (forall|j: int|
                0 <= j < k ==> !is_pid_row(ls[j], pid)) && is_package_process(
                words(ls[k]).last(),
                package,
            ),
    decreases ls.len(),
{
    lemma_package_name_match(if ls.len() > 0 { words(ls[0]).last() } else { Seq::empty() }, package, Seq::empty());
    if ls.len() > 0 {
        let rest = ls.drop_first();
        lemma_ps_row_owned_first_row(rest, pid, package);
        if is_pid_row(ls[0], pid) {
            if ps_row_owned(ls, pid, package) {
                assert(is_pid_row(ls[0], pid));
            }
            if exists|k: int|
                0 <= k < ls.len() && #[trigger] is_pid_row(ls[k], pid) && (forall|j: int|
                    0 <= j < k ==> !is_pid_row(ls[j], pid)) && is_package_process(
                    words(ls[k]).last(),
                    package,
                ) {
                let k = choose|k: int|
                    0 <= k < ls.len() && #[trigger] is_pid_row(ls[k], pid) && (forall|j: int|
                        0 <= j < k ==> !is_pid_row(ls[j], pid)) && is_package_process(
                        words(ls[k]).last(),
                        package,
                    );
                if k > 0 {
                    assert(!is_pid_row(ls[0], pid));
                }
            }
        } else {
            if ps_row_owned(ls, pid, package) {
                let k = choose|k: int|
                    0 <= k < rest.len() && #[trigger] is_pid_row(rest[k], pid) && (forall|j: int|
                        0 <= j < k ==> !is_pid_row(rest[j], pid)) && is_package_process(
                        words(rest[k]).last(),
                        package,
                    );
                assert(ls[k + 1] == rest[k]);
                assert forall|j: int| 0 <= j < k + 1 implies !is_pid_row(ls[j], pid) by {
                    if j > 0 {
                        assert(ls[j] == rest[j - 1]);
                    }
                }
                assert(is_pid_row(ls[k + 1], pid));
            }
            if exists|k: int|
                0 <= k < ls.len() && #[trigger] is_pid_row(ls[k], pid) && (forall|j: int|
                    0 <= j < k ==> !is_pid_row(ls[j], pid)) && is_package_process(
                    words(ls[k]).last(),
                    package,
                ) {
                let k = choose|k: int|
                    0 <= k < ls.len() && #[trigger] is_pid_row(ls[k], pid) && (forall|j: int|
                        0 <= j < k ==> !is_pid_row(ls[j], pid)) && is_package_process(
                        words(ls[k]).last(),
                        package,
                    );
                assert(k > 0);
                assert(rest[k - 1] == ls[k]);
                assert forall|j: int| 0 <= j < k - 1 implies !is_pid_row(rest[j], pid) by {
                    assert(rest[j] == ls[j + 1]);
                }
                assert(is_pid_row(rest[k - 1], pid));
            }
        }
    }
}

/// Whether the WebView socket `socket` belongs to `package` per the
/// `ps -A` lines `ls`: its pid's process is the package's.
pub open spec fn socket_owned(socket: Seq<char>, ls: Seq<Seq<char>>, package: Seq<char>) -> bool {
    socket_pid(socket) matches Some(p) && ps_row_owned(ls, p, package)
}

proof fn lemma_owned_socket_from(socks: Seq<Seq<char>>, ls: Seq<Seq<char>>, package: Seq<char>, k: int)
    requires
        0 <= k,
    ensures
        match owned_socket_from(socks, ls, package, k) {
            Some(i) => k <= i < socks.len() && socket_owned(socks[i], ls, package) && forall|j: int|
                k <= j < i ==> !#[trigger] socket_owned(socks[j], ls, package),
            None => forall|j: int| k <= j < socks.len() ==> !#[trigger] socket_owned(socks[j], ls, package),
        },
    decreases socks.len() - k,
{
    if k < socks.len() {
        lemma_owned_socket_from(socks, ls, package, k + 1);
    }
}

/// The socket picked for a package is the first one, in the device's
/// order, whose pid's process belongs to the package; when none does,
/// none is picked.
pub proof fn lemma_picked_socket_is_first_owned(socks: Seq<Seq<char>>, ls: Seq<Seq<char>>, package: Seq<char>)
    ensures
        match owned_socket_from(socks, ls, package, 0) {
            Some(i) => 0 <= i < socks.len() && socket_owned(socks[i], ls, package) && forall|j: int|
                0 <= j < i ==> !#[trigger] socket_owned(socks[j], ls, package),
            None => forall|j: int| 0 <= j < socks.len() ==> !#[trigger] socket_owned(socks[j], ls, package),
        },
{
    lemma_owned_socket_from(socks, ls, package, 0);
}

} // verus!
