//! What the CLI remembers of each launched browser session, one JSON file
//! per debugging port, and the file names that store uses.
use vstd::prelude::*;

use crate::text::{chars_of, decimal, decimal_string, lemma_decimal_value, push_decimal, push_str};
use std::time::{SystemTime, SystemTimeError};

verus! {

/// A browser session started by `launch`, kept so that `reap` can find it
/// again if its caller dies before calling `stop`.
pub struct SessionRecord {
    /// The session's debugging port; also names its file.
    pub port: u16,
    /// When the session was launched, in Unix seconds.
    pub launched_at: u64,
    /// The process expected to eventually call `stop`.
    pub caller_pid: u32,
    /// A fingerprint of when that process started, to detect PID reuse.
    pub caller_start_time: Option<String>,
}

#[verifier::external_type_specification]
#[verifier::external_body]
pub struct ExSystemTime(SystemTime);

#[verifier::external_type_specification]
#[verifier::external_body]
pub struct ExSystemTimeError(SystemTimeError);

/// The system clock now.
///
/// Trusted: `SystemTime::now`; nothing is claimed of the time it reads.
#[verifier::external_body]
fn clock_now() -> SystemTime {
    SystemTime::now()
}

/// How long after the Unix epoch `t` is, or an error when it is earlier.
///
/// Trusted: `SystemTime::duration_since` with `UNIX_EPOCH`; nothing is
/// claimed of the duration.
#[verifier::external_body]
fn since_epoch(t: &SystemTime) -> Result<std::time::Duration, SystemTimeError> {
    t.duration_since(std::time::UNIX_EPOCH)
}

/// The whole seconds of `d`.
///
/// Trusted: `Duration::as_secs`; `Duration` is opaque here, so nothing is
/// claimed of the number.
#[verifier::external_body]
fn whole_secs(d: &std::time::Duration) -> u64 {
    d.as_secs()
}

/// The current time as Unix seconds; `0` (the epoch) in the practically
/// impossible case of a clock before 1970, never mistaken for a real
/// `launched_at`.
pub fn now_unix_secs() -> u64 {
    match since_epoch(&clock_now()) {
        Ok(d) => whole_secs(&d),
        Err(_) => 0,
    }
}

/// The process a launched session is recorded for: the parent of the
/// `launch` process when known (the process that stays around and later
/// calls `stop`), else `launch` itself.
pub fn launch_caller(parent: Option<u32>, own: u32) -> (r: u32)
    ensures
        r == match parent {
            Some(p) => p,
            None => own,
        },
{
    match parent {
        Some(p) => p,
        None => own,
    }
}

/// The name of the file holding the record for `port`: `<port>.json`.
pub open spec fn session_file(port: nat) -> Seq<char> {
    decimal(port) + ".json"@
}

/// The name of the temporary file writer `pid` fills before renaming it
/// to the record's file: `<port>.json.tmp-<pid>`.
pub open spec fn temp_file(port: nat, pid: nat) -> Seq<char> {
    decimal(port) + ".json.tmp-"@ + decimal(pid)
}

/// The name of the file holding the record for `port`.
pub fn session_file_name(port: u16) -> (r: String)
    ensures
        r@ == session_file(port as nat),
{
    let mut s = decimal_string(port as u64);
    push_str(&mut s, ".json");
    s
}

/// The temporary file name writer `pid` uses for `port`, unique per
/// writer so that concurrent launches never clobber each other's file.
pub fn temp_file_name(port: u16, pid: u32) -> (r: String)
    ensures
        r@ == temp_file(port as nat, pid as nat),
{
    let mut s = decimal_string(port as u64);
    push_str(&mut s, ".json.tmp-");
    push_decimal(&mut s, pid as u64);
    s
}

/// The last position of `c` in `s`.
pub open spec fn last_index(s: Seq<char>, c: char) -> Option<int>
    decreases s.len(),
{
    if s.len() == 0 {
        None
    } else if s.last() == c {
        Some(s.len() - 1)
    } else {
        last_index(s.drop_last(), c)
    }
}

/// The extension of a file name (`Path::extension`): what follows its last
/// `.`, unless there is none or the only one starts the name.
pub open spec fn extension(name: Seq<char>) -> Option<Seq<char>> {
    match last_index(name, '.') {
        None => None,
        Some(i) => if i == 0 {
            None
        } else {
            Some(name.subrange(i + 1, name.len() as int))
        },
    }
}

/// Whether a file of the session directory holds a record: its extension
/// is `json`.
pub open spec fn is_record_file(name: Seq<char>) -> bool {
    extension(name) == Some("json"@)
}

/// Whether the directory entry `name` holds a session record (its
/// extension is `json`); temporary files and anything else are skipped.
pub fn is_session_file(name: &str) -> (r: bool)
    ensures
        r == is_record_file(name@),
{
    let v = chars_of(name);
    let n = v.len();
    let mut j = n;
    assert(v@.take(n as int) =~= v@);
    while j > 0 && v[j - 1] != '.'
        invariant
            v@ == name@,
            n == v.len(),
            0 <= j <= n,
            last_index(v@, '.') == last_index(v@.take(j as int), '.'),
            forall|k: int| j <= k < n ==> v@[k] != '.',
        decreases j,
    {
        assert(v@.take(j as int).drop_last() =~= v@.take(j - 1));
        j -= 1;
    }
    if j <= 1 {
        if j == 0 {
            assert(v@.take(0) =~= Seq::<char>::empty());
        } else {
            assert(v@.take(1).last() == v@[0]);
        }
        return false;
    }
    assert(v@.take(j as int).last() == v@[j - 1]);
    let json = chars_of("json");
    proof {
        reveal_strlit("json");
    }
    if n - j != 4 {
        assert(v@.subrange(j as int, n as int).len() != "json"@.len());
        return false;
    }
    let ok = v[j] == json[0] && v[j + 1] == json[1] && v[j + 2] == json[2] && v[j + 3] == json[3];
    if ok {
        assert(v@.subrange(j as int, n as int) =~= "json"@);
    } else {
        assert(v@.subrange(j as int, n as int) != "json"@) by {
            let e = v@.subrange(j as int, n as int);
            assert(e[0] == v@[j as int] && e[1] == v@[j + 1] && e[2] == v@[j + 2] && e[3] == v@[j
                + 3]);
        }
    }
    ok
}

pub(crate) proof fn lemma_last_index_append(s: Seq<char>, t: Seq<char>, c: char)
    ensures
        last_index(s + t, c) == match last_index(t, c) {
            Some(i) => Some(i + s.len()),
            None => last_index(s, c),
        },
        last_index(s, c) matches Some(i) ==> 0 <= i < s.len() && s[i] == c,
    decreases t.len(),
{
    if t.len() == 0 {
        assert(s + t =~= s);
        lemma_last_index_in(s, c);
    } else {
        assert((s + t).drop_last() =~= s + t.drop_last());
        lemma_last_index_append(s, t.drop_last(), c);
    }
}

proof fn lemma_last_index_in(s: Seq<char>, c: char)
    ensures
        last_index(s, c) matches Some(i) ==> 0 <= i < s.len() && s[i] == c,
        last_index(s, c) is None ==> forall|k: int| 0 <= k < s.len() ==> s[k] != c,
    decreases s.len(),
{
    if s.len() > 0 && s.last() != c {
        lemma_last_index_in(s.drop_last(), c);
        assert forall|k: int| 0 <= k < s.len() - 1 implies s[k] == s.drop_last()[k] by {}
    }
}

pub(crate) proof fn lemma_last_index_none(s: Seq<char>, c: char)
    requires
        forall|k: int| 0 <= k < s.len() ==> s[k] != c,
    ensures
        last_index(s, c) is None,
    decreases s.len(),
{
    if s.len() > 0 {
        lemma_last_index_none(s.drop_last(), c);
    }
}

/// A record's file is listed as a record, and the temporary file a writer
/// fills first never is: a scan of the directory never reads a
/// half-written record.
pub proof fn lemma_record_files_are_listed_and_temp_files_are_not(port: nat, pid: nat)
    ensures
        is_record_file(session_file(port)),
        !is_record_file(temp_file(port, pid)),
{
    reveal_strlit(".json");
    reveal_strlit(".json.tmp-");
    reveal_strlit("json");
    lemma_decimal_value(port);
    lemma_decimal_value(pid);
    let d = decimal(port);
    assert forall|k: int| 0 <= k < d.len() implies d[k] != '.' by {
        assert(crate::text::is_digit(d[k]));
    }
    // `<port>.json`: the last `.` follows the digits.
    lemma_last_index_none(".json"@.drop_first(), '.');
    assert(".json"@ =~= seq!['.'] + ".json"@.drop_first());
    lemma_last_index_append(seq!['.'], ".json"@.drop_first(), '.');
    lemma_last_index_append(d, ".json"@, '.');
    assert(session_file(port).subrange(d.len() + 1int, session_file(port).len() as int) =~= "json"@);
    // `<port>.json.tmp-<pid>`: the last `.` comes before `tmp-`.
    let p = decimal(pid);
    assert forall|k: int| 0 <= k < p.len() implies p[k] != '.' by {
        assert(crate::text::is_digit(p[k]));
    }
    let tail = seq!['t', 'm', 'p', '-'] + p;
    assert forall|k: int| 0 <= k < tail.len() implies tail[k] != '.' by {
        if k >= 4 {
            assert(tail[k] == p[k - 4]);
        }
    }
    lemma_last_index_none(tail, '.');
    let head = d + seq!['.', 'j', 's', 'o', 'n', '.'];
    assert(temp_file(port, pid) =~= head + tail);
    lemma_last_index_append(head, tail, '.');
    assert(last_index(head, '.') == Some(head.len() - 1)) by {
        assert(head.last() == '.');
    }
    let ext = temp_file(port, pid).subrange(head.len() as int, temp_file(port, pid).len() as int);
    assert(ext =~= tail);
    assert(tail.len() != "json"@.len());
}

} // verus!
