//! Reading what the platform's process tools print: `tasklist /FO CSV /NH`
//! rows, and the bare numbers that PowerShell or `ps` print for a parent
//! PID or a start time.
use vstd::prelude::*;

use crate::text::{
    chars_of, decimal, decimal_string, lemma_printed_line_parses, line_ranges, lines, parse_uint,
    parse_uint_chars, pieces, range_eq, ranges_within, string_of, trim, trimmed_chars,
};

verus! {

/// `s` without any leading `c`.
pub open spec fn strip_lead(s: Seq<char>, c: char) -> Seq<char>
    decreases s.len(),
{
    if s.len() > 0 && s[0] == c {
        strip_lead(s.drop_first(), c)
    } else {
        s
    }
}

/// `s` without any trailing `c`.
pub open spec fn strip_trail(s: Seq<char>, c: char) -> Seq<char>
    decreases s.len(),
{
    if s.len() > 0 && s.last() == c {
        strip_trail(s.drop_last(), c)
    } else {
        s
    }
}

/// `str::trim_matches(c)`.
pub open spec fn strip_both(s: Seq<char>, c: char) -> Seq<char> {
    strip_trail(strip_lead(s, c), c)
}

/// The boundary between two quoted CSV fields.
pub open spec fn field_sep() -> Seq<char> {
    seq!['"', ',', '"']
}

/// Whether `pat` occurs in `s` at `i`.
pub open spec fn occurs_at(s: Seq<char>, pat: Seq<char>, i: int) -> bool {
    0 <= i && i + pat.len() <= s.len() && s.subrange(i, i + pat.len()) == pat
}

/// The first position at or after `from` where `pat` occurs in `s`.
pub open spec fn find_from(s: Seq<char>, pat: Seq<char>, from: int) -> Option<int>
    decreases s.len() - from,
{
    if from < 0 || from >= s.len() || from + pat.len() > s.len() {
        None
    } else if occurs_at(s, pat, from) {
        Some(from)
    } else {
        find_from(s, pat, from + 1)
    }
}

/// The second field of `s` split at `","` (`split("\",\"").nth(1)`).
pub open spec fn second_field(s: Seq<char>) -> Option<Seq<char>> {
    match find_from(s, field_sep(), 0) {
        None => None,
        Some(i) => {
            let j = i + 3;
            match find_from(s, field_sep(), j) {
                Some(e) => Some(s.subrange(j, e)),
                None => Some(s.subrange(j, s.len() as int)),
            }
        },
    }
}

/// Whether one `tasklist /FO CSV /NH` row of `output` names `pid` in its
/// PID column, the second quoted field.
pub open spec fn tasklist_names_pid(output: Seq<char>, pid: nat) -> bool {
    exists|k: int|
        0 <= k < lines(output).len() && second_field(strip_both(#[trigger] lines(output)[k], '"'))
            == Some(decimal(pid))
}

/// Stripping a leading run of `c` that ends at `i`.
pub(crate) proof fn lemma_strip_lead_at(s: Seq<char>, c: char, i: int)
    requires
        0 <= i <= s.len(),
        forall|k: int| 0 <= k < i ==> #[trigger] s[k] == c,
        i == s.len() || s[i] != c,
    ensures
        strip_lead(s, c) == s.subrange(i, s.len() as int),
    decreases i,
{
    if i > 0 {
        let t = s.drop_first();
        assert forall|k: int| 0 <= k < i - 1 implies #[trigger] t[k] == c by {
            assert(t[k] == s[k + 1]);
        }
        lemma_strip_lead_at(t, c, i - 1);
        assert(t.subrange(i - 1, t.len() as int) =~= s.subrange(i, s.len() as int));
    } else {
        assert(s.subrange(0, s.len() as int) =~= s);
    }
}

proof fn lemma_strip_trail_at(s: Seq<char>, c: char, j: int)
    requires
        0 <= j <= s.len(),
        forall|k: int| j <= k < s.len() ==> #[trigger] s[k] == c,
        j == 0 || s[j - 1] != c,
    ensures
        strip_trail(s, c) == s.subrange(0, j),
    decreases s.len() - j,
{
    if j < s.len() {
        let t = s.drop_last();
        assert forall|k: int| j <= k < t.len() implies #[trigger] t[k] == c by {
            assert(t[k] == s[k]);
        }
        lemma_strip_trail_at(t, c, j);
        assert(t.subrange(0, j) =~= s.subrange(0, j));
    } else {
        assert(s.subrange(0, j) =~= s);
    }
}

/// The bounds of `v[from..to]` without leading and trailing `c`.
fn strip_bounds(v: &Vec<char>, from: usize, to: usize, c: char) -> (r: (usize, usize))
    requires
        from <= to <= v.len(),
    ensures
        from <= r.0 <= r.1 <= to,
        v@.subrange(r.0 as int, r.1 as int) == strip_both(v@.subrange(from as int, to as int), c),
{
    let ghost s = v@.subrange(from as int, to as int);
    let mut i = from;
    while i < to && v[i] == c
        invariant
            from <= i <= to <= v.len(),
            forall|k: int| from <= k < i ==> #[trigger] v@[k] == c,
        decreases to - i,
    {
        i += 1;
    }
    proof {
        assert forall|k: int| 0 <= k < i - from implies #[trigger] s[k] == c by {
            assert(s[k] == v@[k + from]);
        }
        lemma_strip_lead_at(s, c, i - from);
        assert(s.subrange(i - from, s.len() as int) =~= v@.subrange(i as int, to as int));
    }
    let mut j = to;
    while j > i && v[j - 1] == c
        invariant
            from <= i <= j <= to <= v.len(),
            forall|k: int| j <= k < to ==> #[trigger] v@[k] == c,
        decreases j - i,
    {
        j -= 1;
    }
    proof {
        let t = v@.subrange(i as int, to as int);
        assert forall|k: int| j - i <= k < t.len() implies #[trigger] t[k] == c by {
            assert(t[k] == v@[k + i]);
        }
        if j == i && i < to {
            assert(v@[i as int] == c);
        }
        lemma_strip_trail_at(t, c, j - i);
        assert(t.subrange(0, j - i) =~= v@.subrange(i as int, j as int));
    }
    (i, j)
}

/// Whether `","` occurs in `v` at `i`.
fn sep_at(v: &Vec<char>, i: usize, to: usize) -> (r: bool)
    requires
        to <= v.len(),
    ensures
        r == (i + 3 <= to && v@.subrange(i as int, i + 3) == field_sep()),
{
    if i <= to && to - i >= 3 && v[i] == '"' && v[i + 1] == ',' && v[i + 2] == '"' {
        assert(v@.subrange(i as int, i + 3) =~= field_sep());
        true
    } else {
        if i <= to && to - i >= 3 {
            assert(v@.subrange(i as int, i + 3)[0] == v@[i as int]);
            assert(v@.subrange(i as int, i + 3)[1] == v@[i + 1]);
            assert(v@.subrange(i as int, i + 3)[2] == v@[i + 2]);
        }
        false
    }
}

/// The first occurrence of `","` in `v[from..to]` at or after `start`.
fn find_sep(v: &Vec<char>, from: usize, to: usize, start: usize) -> (r: Option<usize>)
    requires
        from <= start <= to <= v.len(),
    ensures
        match r {
            Some(i) => start <= i && i + 3 <= to && find_from(
                v@.subrange(from as int, to as int),
                field_sep(),
                start - from,
            ) == Some(i - from),
            None => find_from(v@.subrange(from as int, to as int), field_sep(), start - from)
                is None,
        },
    decreases to - start,
{
    let ghost s = v@.subrange(from as int, to as int);
    if to - start < 3 {
        return None;
    }
    let hit = sep_at(v, start, to);
    assert(s.subrange(start - from, start - from + 3) =~= v@.subrange(start as int, start + 3));
    if hit {
        Some(start)
    } else {
        find_sep(v, from, to, start + 1)
    }
}

/// The second quoted field of the CSV row `v[from..to]`, once surrounding
/// quotes are stripped.
fn second_field_bounds(v: &Vec<char>, from: usize, to: usize) -> (r: Option<(usize, usize)>)
    requires
        from <= to <= v.len(),
    ensures
        match r {
            Some((a, b)) => from <= a <= b <= to && second_field(v@.subrange(from as int, to as int))
                == Some(v@.subrange(a as int, b as int)),
            None => second_field(v@.subrange(from as int, to as int)) is None,
        },
{
    let ghost s = v@.subrange(from as int, to as int);
    match find_sep(v, from, to, from) {
        None => None,
        Some(i) => {
            let j = i + 3;
            match find_sep(v, from, to, j) {
                Some(e) => {
                    assert(s.subrange(j - from, e - from) =~= v@.subrange(j as int, e as int));
                    Some((j, e))
                },
                None => {
                    assert(s.subrange(j - from, s.len() as int) =~= v@.subrange(
                        j as int,
                        to as int,
                    ));
                    Some((j, to))
                },
            }
        },
    }
}

/// Check whether a `tasklist /FO CSV /NH` output names `pid` in the PID
/// column (the second quoted field) of one of its rows. Every field is
/// quoted, so splitting on the literal `","` boundary is safe even when a
/// field (e.g. memory usage) has an embedded comma of its own.
pub fn tasklist_csv_has_pid(output: &str, pid: u32) -> (r: bool)
    ensures
        r == tasklist_names_pid(output@, pid as nat),
{
    let v = chars_of(output);
    let target = chars_of(decimal_string(pid as u64).as_str());
    let rows = line_ranges(&v, 0, v.len());
    assert(v@.subrange(0, v.len() as int) =~= v@);
    let ghost ls = lines(output@);
    let mut k: usize = 0;
    while k < rows.len()
        invariant
            v@ == output@,
            target@ == decimal(pid as nat),
            ls == lines(output@),
            pieces(v@, rows@) == ls,
            ranges_within(rows@, 0, v.len() as int),
            0 <= k <= rows.len(),
            forall|i: int|
                0 <= i < k ==> second_field(strip_both(#[trigger] ls[i], '"')) != Some(
                    decimal(pid as nat),
                ),
        decreases rows.len() - k,
    {
        let (a, b) = rows[k];
        assert(v@.subrange(a as int, b as int) == ls[k as int]);
        let (c, d) = strip_bounds(&v, a, b, '"');
        assert(v@.subrange(c as int, d as int) =~= v@.subrange(a as int, b as int).subrange(
            (c - a) as int,
            (d - a) as int,
        ));
        match second_field_bounds(&v, c, d) {
            Some((x, y)) => {
                if range_eq(&v, x, y, &target) {
                    return true;
                }
            },
            None => {},
        }
        k += 1;
    }
    false
}

/// Parse a bare PID from what PowerShell (`... .ParentProcessId`) or
/// `ps -o ppid=` prints: the number alone, or empty/whitespace when no such
/// process was found.
pub fn parse_pid_output(output: &str) -> (r: Option<u32>)
    ensures
        match r {
            Some(p) => parse_uint(trim(output@), u32::MAX as nat) == Some(p as nat),
            None => parse_uint(trim(output@), u32::MAX as nat) is None,
        },
{
    let v = trimmed_chars(output);
    if v.len() == 0 {
        return None;
    }
    assert(v@.subrange(0, v.len() as int) =~= v@);
    match parse_uint_chars(&v, 0, v.len(), u32::MAX as u64) {
        Some(n) => Some(n as u32),
        None => None,
    }
}

/// Parse a bare start-time fingerprint from what PowerShell
/// (`... .StartTime.Ticks`) or `ps -o lstart=` prints: the trimmed text, or
/// `None` when nothing but whitespace was printed.
pub fn parse_ticks_output(output: &str) -> (r: Option<String>)
    ensures
        match r {
            Some(t) => trim(output@).len() > 0 && t@ == trim(output@),
            None => trim(output@).len() == 0,
        },
{
    let v = trimmed_chars(output);
    if v.len() == 0 {
        None
    } else {
        Some(string_of(&v, 0, v.len()))
    }
}

/// The `tasklist` filter that selects process `pid`.
pub fn tasklist_filter(pid: u32) -> (r: String)
    ensures
        r@ == "PID eq "@ + decimal(pid as nat),
{
    let mut t = crate::text::owned("PID eq ");
    crate::text::push_decimal(&mut t, pid as u64);
    t
}

/// The PowerShell command that prints the parent of process `pid`.
pub fn parent_pid_query(pid: u32) -> (r: String)
    ensures
        r@ == "(Get-CimInstance Win32_Process -Filter 'ProcessId="@ + decimal(pid as nat)
            + "').ParentProcessId"@,
{
    let mut t = crate::text::owned("(Get-CimInstance Win32_Process -Filter 'ProcessId=");
    crate::text::push_decimal(&mut t, pid as u64);
    crate::text::push_str(&mut t, "').ParentProcessId");
    t
}

/// The PowerShell command that prints when process `pid` started, in ticks.
pub fn start_ticks_query(pid: u32) -> (r: String)
    ensures
        r@ == "(Get-Process -Id "@ + decimal(pid as nat) + ").StartTime.Ticks"@,
{
    let mut t = crate::text::owned("(Get-Process -Id ");
    crate::text::push_decimal(&mut t, pid as u64);
    crate::text::push_str(&mut t, ").StartTime.Ticks");
    t
}

/// A pid as `ps -o ppid=` prints it (its digits and a line break) reads
/// back as that pid.
pub proof fn lemma_pid_output_round_trip(n: nat)
    requires
        n <= u32::MAX,
    ensures
        parse_uint(trim(decimal(n).push('\n')), u32::MAX as nat) == Some(n),
{
    lemma_printed_line_parses(n, u32::MAX as nat);
}

/// A row as `tasklist /FO CSV /NH` prints it: the quoted image name, the
/// quoted PID, then the remaining fields (`rest`, their inner quotes and
/// separators included) and a closing quote.
pub open spec fn tasklist_row(name: Seq<char>, pid: nat, rest: Seq<char>) -> Seq<char> {
    seq!['"'] + name + field_sep() + decimal(pid) + field_sep() + rest + seq!['"']
}

proof fn lemma_find_first(s: Seq<char>, pat: Seq<char>, from: int, i: int)
    requires
        0 <= from <= i,
        pat.len() > 0,
        occurs_at(s, pat, i),
        forall|k: int| from <= k < i ==> s[k] != pat[0],
    ensures
        find_from(s, pat, from) == Some(i),
    decreases i - from,
{
    if from < i {
        assert(!occurs_at(s, pat, from)) by {
            if occurs_at(s, pat, from) {
                assert(s.subrange(from, from + pat.len())[0] == s[from]);
            }
        }
        lemma_find_first(s, pat, from + 1, i);
    }
}

/// The row `tasklist` prints for process `pid`, with its CRLF line end,
/// names `pid` — however many commas the image name or the other fields
/// hold (the name has no quote, no field has a line break, and the last
/// field does not end in a quote).
pub proof fn lemma_tasklist_row_names_pid(name: Seq<char>, pid: nat, rest: Seq<char>)
    requires
        name.len() > 0,
        rest.len() > 0,
        forall|i: int| 0 <= i < name.len() ==> name[i] != '"' && name[i] != '\n',
        forall|i: int| 0 <= i < rest.len() ==> rest[i] != '\n',
        rest.last() != '"',
    ensures
        tasklist_names_pid(tasklist_row(name, pid, rest) + seq!['\r', '\n'], pid),
{
    let d = decimal(pid);
    crate::text::lemma_decimal_value(pid);
    let sep = field_sep();
    let r = tasklist_row(name, pid, rest);
    let out = r + seq!['\r', '\n'];
    let body = name + sep + d + sep + rest;
    assert(r =~= seq!['"'] + body + seq!['"']);
    // The output is one line: the row.
    assert forall|i: int| 0 <= i < d.len() implies d[i] != '"' && d[i] != '\n' by {
        assert(crate::text::is_digit(d[i]));
    }
    let cr = r.push('\r');
    assert forall|i: int| 0 <= i < cr.len() implies cr[i] != '\n' by {
        if 1 <= i < 1 + name.len() {
            assert(cr[i] == name[i - 1]);
        } else if 1 + name.len() + 3 <= i < 1 + name.len() + 3 + d.len() {
            assert(cr[i] == d[i - 1 - name.len() - 3]);
        } else if 1 + name.len() + 3 + d.len() + 3 <= i < 1 + body.len() {
            assert(cr[i] == rest[i - 1 - name.len() - 3 - d.len() - 3]);
        }
    }
    crate::text::lemma_split_without_sep(cr, '\n');
    assert(out.drop_last() =~= cr);
    assert(out.last() == '\n');
    let pieces = crate::text::split_on(out, '\n');
    assert(pieces =~= seq![cr, Seq::<char>::empty()]);
    assert(crate::text::strip_cr(cr) =~= r);
    assert(lines(out) =~= seq![r]);
    // Stripping the outer quotes leaves the fields.
    assert forall|k: int| 0 <= k < 1 implies #[trigger] r[k] == '"' by {}
    assert(r[1] == name[0]);
    lemma_strip_lead_at(r, '"', 1);
    let t = r.subrange(1, r.len() as int);
    assert(t =~= body + seq!['"']);
    assert forall|k: int| t.len() - 1 <= k < t.len() implies #[trigger] t[k] == '"' by {}
    assert(t[t.len() - 2] == rest.last());
    lemma_strip_trail_at(t, '"', t.len() - 1);
    assert(t.subrange(0, t.len() - 1) =~= body);
    assert(strip_both(r, '"') == body);
    // The second field is the pid.
    let a = name.len() as int;
    assert(body.subrange(a, a + 3) =~= sep);
    assert forall|k: int| 0 <= k < a implies body[k] != sep[0] by {
        assert(body[k] == name[k]);
    }
    lemma_find_first(body, sep, 0, a);
    let j = a + 3;
    let e = j + d.len();
    assert(body.subrange(e, e + 3) =~= sep);
    assert forall|k: int| j <= k < e implies body[k] != sep[0] by {
        assert(body[k] == d[k - j]);
    }
    lemma_find_first(body, sep, j, e);
    assert(body.subrange(j, e) =~= d);
    assert(second_field(strip_both(lines(out)[0], '"')) == Some(d));
}

} // verus!
