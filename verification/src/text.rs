//! Character-level text handling shared by every parser of the crate:
//! whitespace trimming, splitting, line iteration, unsigned decimal
//! parsing and formatting.
use vstd::prelude::*;

verus! {

// ---------------------------------------------------------------------------
// Specifications
// ---------------------------------------------------------------------------

/// Unicode `White_Space`, the property `char::is_whitespace` reports.
pub open spec fn is_ws(c: char) -> bool {
    ||| ('\u{9}' <= c && c <= '\u{d}')
    ||| c == ' '
    ||| c == '\u{85}'
    ||| c == '\u{a0}'
    ||| c == '\u{1680}'
    ||| ('\u{2000}' <= c && c <= '\u{200a}')
    ||| c == '\u{2028}'
    ||| c == '\u{2029}'
    ||| c == '\u{202f}'
    ||| c == '\u{205f}'
    ||| c == '\u{3000}'
}

/// `s` without its leading whitespace.
pub open spec fn trim_start(s: Seq<char>) -> Seq<char>
    decreases s.len(),
{
    if s.len() > 0 && is_ws(s[0]) {
        trim_start(s.drop_first())
    } else {
        s
    }
}

/// `s` without its trailing whitespace.
pub open spec fn trim_end(s: Seq<char>) -> Seq<char>
    decreases s.len(),
{
    if s.len() > 0 && is_ws(s.last()) {
        trim_end(s.drop_last())
    } else {
        s
    }
}

/// `s` without leading and trailing whitespace (`str::trim`).
pub open spec fn trim(s: Seq<char>) -> Seq<char> {
    trim_end(trim_start(s))
}

/// The pieces of `s` between occurrences of `sep`, in order (`str::split`
/// with a `char` pattern): one more piece than there are separators.
pub open spec fn split_on(s: Seq<char>, sep: char) -> Seq<Seq<char>>
    decreases s.len(),
{
    if s.len() == 0 {
        seq![Seq::<char>::empty()]
    } else {
        let rest = split_on(s.drop_last(), sep);
        if s.last() == sep {
            rest.push(Seq::<char>::empty())
        } else {
            rest.update(rest.len() - 1, rest.last().push(s.last()))
        }
    }
}

/// A line that ended in `\n`, without the `\r` of a `\r\n` ending.
pub open spec fn strip_cr(line: Seq<char>) -> Seq<char> {
    if line.len() > 0 && line.last() == '\r' {
        line.drop_last()
    } else {
        line
    }
}

/// The lines of `s` (`str::lines`): split at `\n`, each terminated line
/// loses a trailing `\r`, and a final empty piece (after a last `\n`, or of
/// an empty text) is not a line.
pub open spec fn lines(s: Seq<char>) -> Seq<Seq<char>> {
    let pieces = split_on(s, '\n');
    let body = pieces.drop_last().map_values(|p: Seq<char>| strip_cr(p));
    if pieces.last().len() == 0 {
        body
    } else {
        body.push(pieces.last())
    }
}

pub open spec fn is_digit(c: char) -> bool {
    '0' <= c && c <= '9'
}

pub open spec fn all_digits(s: Seq<char>) -> bool {
    forall|i: int| 0 <= i < s.len() ==> is_digit(#[trigger] s[i])
}

pub open spec fn digit_value(c: char) -> nat {
    (c as int - '0' as int) as nat
}

/// The number that the decimal digits `s` write.
pub open spec fn digits_value(s: Seq<char>) -> nat
    decreases s.len(),
{
    if s.len() == 0 {
        0
    } else {
        digits_value(s.drop_last()) * 10 + digit_value(s.last())
    }
}

/// The digits of an unsigned integer literal: an optional leading `+`
/// is not part of them.
pub open spec fn unsigned_digits(s: Seq<char>) -> Seq<char> {
    if s.len() > 0 && s[0] == '+' {
        s.drop_first()
    } else {
        s
    }
}

/// What `str::parse` gives for an unsigned integer type whose largest value
/// is `max`: an optional `+`, then one or more ASCII digits, whose value
/// must not exceed `max`.
pub open spec fn parse_uint(s: Seq<char>, max: nat) -> Option<nat> {
    let d = unsigned_digits(s);
    if d.len() > 0 && all_digits(d) && digits_value(d) <= max {
        Some(digits_value(d))
    } else {
        None
    }
}

pub open spec fn digit_char(d: nat) -> char {
    (d + '0' as int) as char
}

/// The decimal form of `n` (`to_string` of an unsigned integer).
pub open spec fn decimal(n: nat) -> Seq<char>
    decreases n,
{
    if n < 10 {
        seq![digit_char(n)]
    } else {
        decimal(n / 10).push(digit_char(n % 10))
    }
}

// ---------------------------------------------------------------------------
// Lemmas
// ---------------------------------------------------------------------------

proof fn lemma_trim_start_at(s: Seq<char>, i: int)
    requires
        0 <= i <= s.len(),
        forall|k: int| 0 <= k < i ==> is_ws(#[trigger] s[k]),
        i == s.len() || !is_ws(s[i]),
    ensures
        trim_start(s) == s.subrange(i, s.len() as int),
    decreases i,
{
    if i > 0 {
        let t = s.drop_first();
        assert forall|k: int| 0 <= k < i - 1 implies is_ws(#[trigger] t[k]) by {
            assert(t[k] == s[k + 1]);
        }
        lemma_trim_start_at(t, i - 1);
        assert(t.subrange(i - 1, t.len() as int) =~= s.subrange(i, s.len() as int));
    } else {
        assert(s.subrange(0, s.len() as int) =~= s);
    }
}

proof fn lemma_trim_end_at(s: Seq<char>, j: int)
    requires
        0 <= j <= s.len(),
        forall|k: int| j <= k < s.len() ==> is_ws(#[trigger] s[k]),
        j == 0 || !is_ws(s[j - 1]),
    ensures
        trim_end(s) == s.subrange(0, j),
    decreases s.len() - j,
{
    if j < s.len() {
        let t = s.drop_last();
        assert forall|k: int| j <= k < t.len() implies is_ws(#[trigger] t[k]) by {
            assert(t[k] == s[k]);
        }
        lemma_trim_end_at(t, j);
        assert(t.subrange(0, j) =~= s.subrange(0, j));
    } else {
        assert(s.subrange(0, j) =~= s);
    }
}

/// Trimming leaves no whitespace at either end.
pub(crate) proof fn lemma_trim_has_no_outer_ws(s: Seq<char>)
    ensures
        trim(s).len() > 0 ==> !is_ws(trim(s)[0]) && !is_ws(trim(s).last()),
        trim_start(s).len() > 0 ==> !is_ws(trim_start(s)[0]),
    decreases s.len(),
{
    if s.len() > 0 && is_ws(s[0]) {
        lemma_trim_has_no_outer_ws(s.drop_first());
    } else {
        lemma_trim_end_keeps_start(s);
    }
}

proof fn lemma_trim_end_keeps_start(s: Seq<char>)
    requires
        s.len() == 0 || !is_ws(s[0]),
    ensures
        trim_end(s).len() > 0 ==> !is_ws(trim_end(s)[0]) && !is_ws(trim_end(s).last()),
        trim_end(s).len() <= s.len(),
        forall|k: int| 0 <= k < trim_end(s).len() ==> #[trigger] trim_end(s)[k] == s[k],
    decreases s.len(),
{
    if s.len() > 0 && is_ws(s.last()) {
        lemma_trim_end_keeps_start(s.drop_last());
    }
}

/// Trimming a text that has no whitespace at either end gives it back.
pub(crate) proof fn lemma_trim_of_trimmed(s: Seq<char>)
    requires
        s.len() > 0 ==> !is_ws(s[0]) && !is_ws(s.last()),
    ensures
        trim(s) == s,
{
}

proof fn lemma_digits_value_step(s: Seq<char>, k: int)
    requires
        0 <= k < s.len(),
    ensures
        digits_value(s.take(k + 1)) == digits_value(s.take(k)) * 10 + digit_value(s[k]),
{
    assert(s.take(k + 1).drop_last() =~= s.take(k));
}

proof fn lemma_digits_value_monotone(s: Seq<char>, i: int, j: int)
    requires
        0 <= i <= j <= s.len(),
    ensures
        digits_value(s.take(i)) <= digits_value(s.take(j)),
    decreases j - i,
{
    if i < j {
        lemma_digits_value_monotone(s, i, j - 1);
        lemma_digits_value_step(s, j - 1);
    }
}

proof fn lemma_digit_char(d: nat)
    requires
        d < 10,
    ensures
        is_digit(digit_char(d)),
        digit_value(digit_char(d)) == d,
{
}

/// `decimal(n)` is a nonempty string of digits whose value is `n`, and it
/// starts with `0` only when `n` is zero.
pub(crate) proof fn lemma_decimal_value(n: nat)
    ensures
        decimal(n).len() > 0,
        all_digits(decimal(n)),
        digits_value(decimal(n)) == n,
        decimal(n)[0] == '0' ==> n == 0,
    decreases n,
{
    if n < 10 {
        lemma_digit_char(n);
        assert(decimal(n).drop_last() =~= Seq::<char>::empty());
        assert(digits_value(Seq::<char>::empty()) == 0);
        assert(decimal(n).last() == digit_char(n));
        assert(digits_value(decimal(n)) == n);
    } else {
        lemma_decimal_value(n / 10);
        lemma_digit_char(n % 10);
        let d = decimal(n);
        assert(d.drop_last() =~= decimal(n / 10));
        assert(d.last() == digit_char(n % 10));
        assert(digits_value(d) == digits_value(decimal(n / 10)) * 10 + digit_value(d.last()));
        assert((n / 10) * 10 + n % 10 == n);
        assert(d[0] == decimal(n / 10)[0]);
    }
}

/// The decimal form of `n` is read back as `n` by `str::parse`.
pub(crate) proof fn lemma_parse_decimal(n: nat, max: nat)
    requires
        n <= max,
    ensures
        parse_uint(decimal(n), max) == Some(n),
{
    lemma_decimal_value(n);
    assert(decimal(n)[0] != '+');
}

/// A number printed on a line of its own reads back as that number.
pub(crate) proof fn lemma_printed_line_parses(n: nat, max: nat)
    requires
        n <= max,
    ensures
        parse_uint(trim(decimal(n).push('\n')), max) == Some(n),
{
    let d = decimal(n);
    let t = d.push('\n');
    lemma_decimal_value(n);
    assert(is_digit(d[0]) && is_digit(d[d.len() - 1]));
    assert(t[0] == d[0]);
    assert(trim_start(t) == t);
    assert(t.drop_last() =~= d);
    assert(trim_end(t) == trim_end(d));
    assert(trim_end(d) == d);
    lemma_parse_decimal(n, max);
}

/// Text without `sep` is a single piece.
pub(crate) proof fn lemma_split_without_sep(s: Seq<char>, sep: char)
    requires
        forall|i: int| 0 <= i < s.len() ==> s[i] != sep,
    ensures
        split_on(s, sep) == seq![s],
    decreases s.len(),
{
    if s.len() > 0 {
        let init = s.drop_last();
        assert forall|i: int| 0 <= i < init.len() implies init[i] != sep by {
            assert(init[i] == s[i]);
        }
        lemma_split_without_sep(init, sep);
        assert(s.last() == s[s.len() - 1]);
        let rest = split_on(init, sep);
        assert(rest.len() == 1 && rest.last() == init);
        assert(init.push(s.last()) =~= s);
        assert(rest.update(0, init.push(s.last())) =~= seq![s]);
    } else {
        assert(s =~= Seq::<char>::empty());
    }
}

proof fn lemma_split_on_nonempty(s: Seq<char>, sep: char)
    ensures
        split_on(s, sep).len() >= 1,
    decreases s.len(),
{
    if s.len() > 0 {
        lemma_split_on_nonempty(s.drop_last(), sep);
    }
}

/// The texts that `ranges` mark out of `v`.
pub open spec fn pieces(v: Seq<char>, ranges: Seq<(usize, usize)>) -> Seq<Seq<char>> {
    ranges.map_values(|r: (usize, usize)| v.subrange(r.0 as int, r.1 as int))
}

/// Every range lies within `v[from..to]`.
pub open spec fn ranges_within(ranges: Seq<(usize, usize)>, from: int, to: int) -> bool {
    forall|k: int|
        0 <= k < ranges.len() ==> from <= (#[trigger] ranges[k]).0 <= ranges[k].1 <= to
}

// ---------------------------------------------------------------------------
// Executable helpers
// ---------------------------------------------------------------------------

/// Appends one character to a string.
///
/// Trusted: `String::push`, documented to append the given `char` to the end
/// of the `String`.
#[verifier::external_body]
pub(crate) fn push_char(s: &mut String, c: char)
    ensures
        final(s)@ == old(s)@.push(c),
{
    s.push(c)
}

/// The characters of `s`, in order.
pub(crate) fn chars_of(s: &str) -> (v: Vec<char>)
    ensures
        v@ == s@,
{
    let mut v: Vec<char> = Vec::new();
    for c in it: s.chars()
        invariant
            v@ == it.seq().take(it.index() as int),
    {
        v.push(c);
    }
    v
}

/// Appends the characters `v[from..to]` to `out`.
pub(crate) fn push_chars(out: &mut String, v: &Vec<char>, from: usize, to: usize)
    requires
        from <= to <= v.len(),
    ensures
        final(out)@ == old(out)@ + v@.subrange(from as int, to as int),
{
    let mut k = from;
    while k < to
        invariant
            from <= k <= to <= v.len(),
            out@ == old(out)@ + v@.subrange(from as int, k as int),
        decreases to - k,
    {
        push_char(out, v[k]);
        k += 1;
        assert(v@.subrange(from as int, k as int) =~= v@.subrange(from as int, (k - 1) as int).push(
            v@[k - 1],
        ));
    }
}

/// A string holding the characters `v[from..to]`.
pub(crate) fn string_of(v: &Vec<char>, from: usize, to: usize) -> (s: String)
    requires
        from <= to <= v.len(),
    ensures
        s@ == v@.subrange(from as int, to as int),
{
    let mut s = String::new();
    push_chars(&mut s, v, from, to);
    assert(Seq::<char>::empty() + v@.subrange(from as int, to as int) =~= v@.subrange(
        from as int,
        to as int,
    ));
    s
}

/// Appends the text of `t` to `out`.
pub(crate) fn push_str(out: &mut String, t: &str)
    ensures
        final(out)@ == old(out)@ + t@,
{
    let v = chars_of(t);
    push_chars(out, &v, 0, v.len());
    assert(v@.subrange(0, v.len() as int) =~= v@);
}

/// A new string holding the text of `t`.
pub(crate) fn owned(t: &str) -> (s: String)
    ensures
        s@ == t@,
{
    let mut s = String::new();
    push_str(&mut s, t);
    assert(Seq::<char>::empty() + t@ =~= t@);
    s
}

/// Whether two texts are equal.
pub(crate) fn str_eq(a: &str, b: &str) -> (r: bool)
    ensures
        r == (a@ == b@),
{
    let x = chars_of(a);
    let y = chars_of(b);
    if x.len() != y.len() {
        return false;
    }
    let mut k: usize = 0;
    while k < x.len()
        invariant
            x@ == a@,
            y@ == b@,
            x.len() == y.len(),
            0 <= k <= x.len(),
            forall|i: int| 0 <= i < k ==> x@[i] == y@[i],
        decreases x.len() - k,
    {
        if x[k] != y[k] {
            return false;
        }
        k += 1;
    }
    assert(x@ =~= y@);
    true
}

/// Whether `c` is Unicode whitespace (`char::is_whitespace`).
pub(crate) fn is_whitespace(c: char) -> (r: bool)
    ensures
        r == is_ws(c),
{
    ('\u{9}' <= c && c <= '\u{d}') || c == ' ' || c == '\u{85}' || c == '\u{a0}' || c
        == '\u{1680}' || ('\u{2000}' <= c && c <= '\u{200a}') || c == '\u{2028}' || c
        == '\u{2029}' || c == '\u{202f}' || c == '\u{205f}' || c == '\u{3000}'
}

/// The bounds `(i, j)` of the text `v` without surrounding whitespace.
pub(crate) fn trim_bounds(v: &Vec<char>, from: usize, to: usize) -> (r: (usize, usize))
    requires
        from <= to <= v.len(),
    ensures
        from <= r.0 <= r.1 <= to,
        v@.subrange(r.0 as int, r.1 as int) == trim(v@.subrange(from as int, to as int)),
        v@.subrange(r.0 as int, to as int) == trim_start(v@.subrange(from as int, to as int)),
{
    let ghost s = v@.subrange(from as int, to as int);
    let mut i = from;
    while i < to && is_whitespace(v[i])
        invariant
            from <= i <= to <= v.len(),
            s == v@.subrange(from as int, to as int),
            forall|k: int| from <= k < i ==> is_ws(#[trigger] v@[k]),
        decreases to - i,
    {
        i += 1;
    }
    proof {
        assert forall|k: int| 0 <= k < i - from implies is_ws(#[trigger] s[k]) by {
            assert(s[k] == v@[k + from]);
        }
        lemma_trim_start_at(s, i - from);
        assert(s.subrange(i - from, s.len() as int) =~= v@.subrange(i as int, to as int));
    }
    let mut j = to;
    while j > i && is_whitespace(v[j - 1])
        invariant
            from <= i <= j <= to <= v.len(),
            forall|k: int| j <= k < to ==> is_ws(#[trigger] v@[k]),
        decreases j - i,
    {
        j -= 1;
    }
    proof {
        let t = v@.subrange(i as int, to as int);
        assert forall|k: int| j - i <= k < t.len() implies is_ws(#[trigger] t[k]) by {
            assert(t[k] == v@[k + i]);
        }
        if j == i && i < to {
            assert(is_ws(v@[i as int]));
        }
        lemma_trim_end_at(t, j - i);
        assert(t.subrange(0, j - i) =~= v@.subrange(i as int, j as int));
    }
    (i, j)
}

/// `s` without leading and trailing whitespace, as characters.
pub(crate) fn trimmed_chars(s: &str) -> (r: Vec<char>)
    ensures
        r@ == trim(s@),
{
    let v = chars_of(s);
    let (i, j) = trim_bounds(&v, 0, v.len());
    assert(v@.subrange(0, v.len() as int) =~= v@);
    let mut r: Vec<char> = Vec::new();
    let mut k = i;
    while k < j
        invariant
            i <= k <= j <= v.len(),
            r@ == v@.subrange(i as int, k as int),
        decreases j - k,
    {
        r.push(v[k]);
        k += 1;
        assert(r@ =~= v@.subrange(i as int, k as int));
    }
    r
}

/// The value of the unsigned literal `v[from..to]`, or `None` when it is not
/// one or exceeds `max` (`str::parse` of an unsigned integer type).
pub(crate) fn parse_uint_chars(v: &Vec<char>, from: usize, to: usize, max: u64) -> (r: Option<u64>)
    requires
        from <= to <= v.len(),
    ensures
        match r {
            Some(n) => parse_uint(v@.subrange(from as int, to as int), max as nat) == Some(n as nat),
            None => parse_uint(v@.subrange(from as int, to as int), max as nat) is None,
        },
{
    let ghost s = v@.subrange(from as int, to as int);
    let mut start = from;
    if from < to && v[from] == '+' {
        start = from + 1;
    }
    let ghost d = v@.subrange(start as int, to as int);
    assert(d =~= unsigned_digits(s));
    if start >= to {
        return None;
    }
    let mut acc: u64 = 0;
    let mut k = start;
    while k < to
        invariant
            from <= start <= k <= to <= v.len(),
            s == v@.subrange(from as int, to as int),
            d == unsigned_digits(s),
            d == v@.subrange(start as int, to as int),
            forall|i: int| start <= i < k ==> is_digit(#[trigger] v@[i]),
            acc as nat == digits_value(d.take(k - start)),
        decreases to - k,
    {
        let c = v[k];
        if !('0' <= c && c <= '9') {
            assert(!is_digit(d[k - start]));
            return None;
        }
        let dv: u64 = (c as u32 - '0' as u32) as u64;
        proof {
            lemma_digits_value_step(d, k - start);
            assert(d[k - start] == c);
        }
        if acc > (u64::MAX - dv) / 10 {
            proof {
                assert(acc * 10 + dv > u64::MAX) by (nonlinear_arith)
                    requires
                        acc > (u64::MAX - dv) / 10,
                        dv <= 9,
                ;
                lemma_digits_value_monotone(d, k - start + 1, d.len() as int);
                assert(d.take(d.len() as int) =~= d);
            }
            return None;
        }
        proof {
            assert(acc * 10 + dv <= u64::MAX) by (nonlinear_arith)
                requires
                    acc <= (u64::MAX - dv) / 10,
                    dv <= 9,
            ;
        }
        acc = acc * 10 + dv;
        k += 1;
    }
    assert(d.take(d.len() as int) =~= d);
    if acc > max {
        return None;
    }
    Some(acc)
}

/// `str::parse` of an unsigned integer no larger than `max`.
pub(crate) fn parse_uint_str(s: &str, max: u64) -> (r: Option<u64>)
    ensures
        match r {
            Some(n) => parse_uint(s@, max as nat) == Some(n as nat),
            None => parse_uint(s@, max as nat) is None,
        },
{
    let v = chars_of(s);
    assert(v@.subrange(0, v.len() as int) =~= v@);
    parse_uint_chars(&v, 0, v.len(), max)
}

fn digit_to_char(d: u64) -> (c: char)
    requires
        d < 10,
    ensures
        c == digit_char(d as nat),
{
    match d {
        0 => '0',
        1 => '1',
        2 => '2',
        3 => '3',
        4 => '4',
        5 => '5',
        6 => '6',
        7 => '7',
        8 => '8',
        _ => '9',
    }
}

/// Appends the decimal form of `n` to `out`.
pub(crate) fn push_decimal(out: &mut String, n: u64)
    ensures
        final(out)@ == old(out)@ + decimal(n as nat),
    decreases n,
{
    if n >= 10 {
        push_decimal(out, n / 10);
    }
    push_char(out, digit_to_char(n % 10));
    assert(old(out)@ + decimal(n as nat) =~= (if n >= 10 {
        old(out)@ + decimal((n / 10) as nat)
    } else {
        old(out)@
    }).push(digit_char((n % 10) as nat)));
}

/// The decimal form of `n` (`u64::to_string`).
pub(crate) fn decimal_string(n: u64) -> (s: String)
    ensures
        s@ == decimal(n as nat),
{
    let mut s = String::new();
    push_decimal(&mut s, n);
    assert(Seq::<char>::empty() + decimal(n as nat) =~= decimal(n as nat));
    s
}

/// The ranges of the pieces of `v[from..to]` between occurrences of `sep`
/// (`str::split` with a `char` pattern).
pub(crate) fn split_ranges(v: &Vec<char>, from: usize, to: usize, sep: char) -> (r: Vec<(usize, usize)>)
    requires
        from <= to <= v.len(),
    ensures
        pieces(v@, r@) == split_on(v@.subrange(from as int, to as int), sep),
        ranges_within(r@, from as int, to as int),
{
    let mut done: Vec<(usize, usize)> = Vec::new();
    let mut start = from;
    let mut k = from;
    assert(v@.subrange(from as int, from as int) =~= Seq::<char>::empty());
    assert(pieces(v@, seq![(from, from)]) =~= seq![Seq::<char>::empty()]);
    while k < to
        invariant
            from <= start <= k <= to <= v.len(),
            ranges_within(done@, from as int, k as int),
            pieces(v@, done@.push((start, k))) == split_on(v@.subrange(from as int, k as int), sep),
        decreases to - k,
    {
        let ghost prefix = v@.subrange(from as int, k as int);
        let ghost next = v@.subrange(from as int, (k + 1) as int);
        assert(next.drop_last() =~= prefix);
        assert(next.last() == v@[k as int]);
        if v[k] == sep {
            done.push((start, k));
            start = k + 1;
            assert(v@.subrange((k + 1) as int, (k + 1) as int) =~= Seq::<char>::empty());
            assert(pieces(v@, done@.push((start, (k + 1) as usize))) =~= split_on(prefix, sep).push(
                Seq::<char>::empty(),
            ));
        } else {
            let ghost old_pieces = split_on(prefix, sep);
            assert(v@.subrange(start as int, (k + 1) as int) =~= v@.subrange(
                start as int,
                k as int,
            ).push(v@[k as int]));
            assert(pieces(v@, done@.push((start, (k + 1) as usize))) =~= old_pieces.update(
                old_pieces.len() - 1,
                old_pieces.last().push(next.last()),
            ));
        }
        k += 1;
    }
    done.push((start, to));
    done
}

/// The ranges of the lines of `v[from..to]` (`str::lines`).
pub(crate) fn line_ranges(v: &Vec<char>, from: usize, to: usize) -> (r: Vec<(usize, usize)>)
    requires
        from <= to <= v.len(),
    ensures
        pieces(v@, r@) == lines(v@.subrange(from as int, to as int)),
        ranges_within(r@, from as int, to as int),
{
    let ghost s = v@.subrange(from as int, to as int);
    let parts = split_ranges(v, from, to, '\n');
    proof {
        lemma_split_on_nonempty(s, '\n');
    }
    let n = parts.len();
    let ghost all = split_on(s, '\n');
    let mut r: Vec<(usize, usize)> = Vec::new();
    let mut k: usize = 0;
    while k + 1 < n
        invariant
            from <= to <= v.len(),
            n == parts.len(),
            n >= 1,
            0 <= k < n,
            all == split_on(s, '\n'),
            pieces(v@, parts@) == all,
            ranges_within(parts@, from as int, to as int),
            ranges_within(r@, from as int, to as int),
            pieces(v@, r@) == all.take(k as int).map_values(|p: Seq<char>| strip_cr(p)),
        decreases n - k,
    {
        let (a, b) = parts[k];
        assert(v@.subrange(a as int, b as int) == all[k as int]);
        let e = if a < b && v[b - 1] == '\r' {
            assert(v@.subrange(a as int, (b - 1) as int) =~= all[k as int].drop_last());
            b - 1
        } else {
            if a < b {
                assert(all[k as int].last() == v@[b - 1]);
            }
            b
        };
        assert(v@.subrange(a as int, e as int) == strip_cr(all[k as int]));
        let ghost old_r = r@;
        r.push((a, e));
        assert(pieces(v@, r@) =~= pieces(v@, old_r).push(v@.subrange(a as int, e as int)));
        assert(all.take((k + 1) as int) =~= all.take(k as int).push(all[k as int]));
        assert(all.take((k + 1) as int).map_values(|p: Seq<char>| strip_cr(p)) =~= all.take(
            k as int,
        ).map_values(|p: Seq<char>| strip_cr(p)).push(strip_cr(all[k as int])));
        assert(pieces(v@, r@) =~= all.take((k + 1) as int).map_values(
            |p: Seq<char>| strip_cr(p),
        ));
        k += 1;
    }
    assert(all.take(k as int) =~= all.drop_last());
    let (a, b) = parts[n - 1];
    assert(v@.subrange(a as int, b as int) == all.last());
    if a < b {
        let ghost old_r = r@;
        r.push((a, b));
        assert(pieces(v@, r@) =~= pieces(v@, old_r).push(v@.subrange(a as int, b as int)));
        assert(pieces(v@, r@) =~= all.drop_last().map_values(|p: Seq<char>| strip_cr(p)).push(
            all.last(),
        ));
    }
    r
}


/// Where the word that ends at `j` starts: the first position after the
/// last whitespace before `j`.
pub open spec fn word_start(s: Seq<char>, j: int) -> int
    decreases j,
{
    if j <= 0 || j > s.len() || is_ws(s[j - 1]) {
        j
    } else {
        word_start(s, j - 1)
    }
}

/// Facts about where a word starts.
pub proof fn lemma_word_start(s: Seq<char>, j: int)
    ensures
        0 <= j <= s.len() ==> 0 <= word_start(s, j) <= j,
        0 < j <= s.len() && !is_ws(s[j - 1]) ==> word_start(s, j) < j,
        0 <= j <= s.len() ==> forall|k: int| word_start(s, j) <= k < j ==> !is_ws(#[trigger] s[k]),
        0 <= j <= s.len() ==> (word_start(s, j) == 0 || is_ws(s[word_start(s, j) - 1])),
    decreases j,
{
    if 0 < j <= s.len() && !is_ws(s[j - 1]) {
        lemma_word_start(s, j - 1);
    }
}

/// The whitespace-separated words of `s[0..j]`, in order.
pub open spec fn words_upto(s: Seq<char>, j: int) -> Seq<Seq<char>>
    decreases j,
{
    if j <= 0 || j > s.len() {
        Seq::empty()
    } else if is_ws(s[j - 1]) {
        words_upto(s, j - 1)
    } else {
        proof {
            lemma_word_start(s, j);
        }
        let a = word_start(s, j);
        words_upto(s, a).push(s.subrange(a, j))
    }
}

/// The whitespace-separated words of `s` (`str::split_whitespace`).
pub open spec fn words(s: Seq<char>) -> Seq<Seq<char>> {
    words_upto(s, s.len() as int)
}

/// Whether `pat` occurs in `s`.
pub open spec fn contains(s: Seq<char>, pat: Seq<char>) -> bool {
    exists|i: int| 0 <= i && i + pat.len() <= s.len() && #[trigger] s.subrange(i, i + pat.len()) == pat
}

/// Whether `s` starts with `p`.
pub open spec fn starts_with(s: Seq<char>, p: Seq<char>) -> bool {
    p.len() <= s.len() && s.subrange(0, p.len() as int) == p
}

/// The whitespace-separated words of `v`.
pub(crate) fn words_of(v: &Vec<char>) -> (r: Vec<(usize, usize)>)
    ensures
        pieces(v@, r@) == words(v@),
        ranges_within(r@, 0, v.len() as int),
{
    let ghost s = v@;
    let mut rev: Vec<(usize, usize)> = Vec::new();
    let mut j = v.len();
    assert(pieces(s, rev@).reverse() =~= Seq::<Seq<char>>::empty());
    assert(words_upto(s, j as int) + pieces(s, rev@).reverse() =~= words(s));
    while j > 0
        invariant
            s == v@,
            0 <= j <= v.len(),
            ranges_within(rev@, 0, v.len() as int),
            words(s) == words_upto(s, j as int) + pieces(s, rev@).reverse(),
        decreases j,
    {
        if is_whitespace(v[j - 1]) {
            j -= 1;
        } else {
            let e = j;
            proof {
                lemma_word_start(s, e as int);
            }
            while j > 0 && !is_whitespace(v[j - 1])
                invariant
                    s == v@,
                    0 <= j <= e <= v.len(),
                    e > 0,
                    !is_ws(s[e - 1]),
                    word_start(s, e as int) == word_start(s, j as int),
                decreases j,
            {
                j -= 1;
            }
            let ghost before = rev@;
            rev.push((j, e));
            proof {
                assert(pieces(s, rev@) =~= pieces(s, before).push(s.subrange(j as int, e as int)));
                assert(pieces(s, rev@).reverse() =~= seq![s.subrange(j as int, e as int)]
                    + pieces(s, before).reverse());
            }
        }
    }
    assert(words_upto(s, 0) =~= Seq::<Seq<char>>::empty());
    let mut r: Vec<(usize, usize)> = Vec::new();
    let mut k = rev.len();
    while k > 0
        invariant
            s == v@,
            0 <= k <= rev.len(),
            ranges_within(rev@, 0, v.len() as int),
            ranges_within(r@, 0, v.len() as int),
            pieces(s, r@) == pieces(s, rev@).reverse().take(rev.len() - k),
        decreases k,
    {
        let ghost before = r@;
        let ghost p = pieces(s, rev@);
        r.push(rev[k - 1]);
        assert(p.reverse()[rev.len() - k] == p[k - 1]);
        assert(p.reverse().take(rev.len() - k + 1) =~= p.reverse().take(rev.len() - k).push(
            p[k - 1],
        ));
        assert(pieces(s, r@) =~= pieces(s, before).push(p[k - 1]));
        k -= 1;
    }
    assert(pieces(s, rev@).reverse().take(rev.len() as int) =~= pieces(s, rev@).reverse());
    assert(Seq::<Seq<char>>::empty() + pieces(s, rev@).reverse() =~= pieces(s, rev@).reverse());
    r
}

/// Whether `w` occurs in `v[a..b]`.
pub(crate) fn range_contains(v: &Vec<char>, a: usize, b: usize, w: &Vec<char>) -> (r: bool)
    requires
        a <= b <= v.len(),
    ensures
        r == contains(v@.subrange(a as int, b as int), w@),
{
    let ghost s = v@.subrange(a as int, b as int);
    if w.len() > b - a {
        assert(!contains(s, w@));
        return false;
    }
    if w.len() == 0 {
        assert(s.subrange(0int, 0int + w@.len()) =~= w@);
        return true;
    }
    let mut i: usize = a;
    let last = b - w.len();
    while i <= last
        invariant
            a <= i <= last + 1,
            last == b - w.len(),
            0 < w.len() <= b - a,
            a <= b <= v.len(),
            s == v@.subrange(a as int, b as int),
            forall|x: int|
                0 <= x < i - a ==> #[trigger] s.subrange(x, x + w@.len()) != w@,
        decreases last + 1 - i,
    {
        if range_starts_with(v, i, b, w) {
            assert(s.subrange(i - a, i - a + w@.len()) =~= v@.subrange(i as int, i + w@.len()));
            return true;
        }
        assert(s.subrange(i - a, i - a + w@.len()) =~= v@.subrange(i as int, i + w@.len()));
        i += 1;
    }
    assert forall|x: int| 0 <= x && x + w@.len() <= s.len() implies #[trigger] s.subrange(
        x,
        x + w@.len(),
    ) != w@ by {}
    false
}

/// Whether `v[i..b]` starts with `w`.
pub(crate) fn range_starts_with(v: &Vec<char>, i: usize, b: usize, w: &Vec<char>) -> (r: bool)
    requires
        i <= b <= v.len(),
    ensures
        r == starts_with(v@.subrange(i as int, b as int), w@),
        r == (i + w.len() <= b && v@.subrange(i as int, i + w.len()) == w@),
{
    if w.len() > b - i {
        return false;
    }
    let mut k: usize = 0;
    while k < w.len()
        invariant
            i + w.len() <= b <= v.len(),
            0 <= k <= w.len(),
            forall|x: int| 0 <= x < k ==> v@[i + x] == w@[x],
        decreases w.len() - k,
    {
        if v[i + k] != w[k] {
            assert(v@.subrange(i as int, i + w.len())[k as int] != w@[k as int]);
            assert(v@.subrange(i as int, b as int).subrange(0, w.len() as int)[k as int] != w@[k as int]);
            return false;
        }
        k += 1;
    }
    assert(v@.subrange(i as int, i + w.len()) =~= w@);
    assert(v@.subrange(i as int, b as int).subrange(0, w.len() as int) =~= w@);
    true
}

/// Whether `v[a..b]` spells `w`.
pub(crate) fn range_eq(v: &Vec<char>, a: usize, b: usize, w: &Vec<char>) -> (r: bool)
    requires
        a <= b <= v.len(),
    ensures
        r == (v@.subrange(a as int, b as int) == w@),
{
    if b - a != w.len() {
        return false;
    }
    let r = range_starts_with(v, a, b, w);
    assert(v@.subrange(a as int, b as int) =~= v@.subrange(a as int, a + w.len()));
    r
}

} // verus!
