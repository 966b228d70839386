//! Command-line scanning shared by every subcommand: a table of accepted
//! flags is matched against the arguments left to right; a flag with a
//! value takes the next argument and parses it at once, so the first
//! problem met is the one reported.
use vstd::prelude::*;

use crate::cli::{
    concat2, duration_secs, duration_too_long, invalid_duration_msg, invalid_value_msg, missing_value_msg,
    parse_duration_secs, texts, CliError, CliErrorView,
};
use crate::text::{parse_uint, parse_uint_str, str_eq};

verus! {

/// How a flag is given and what its value is.
#[derive(Clone, Copy)]
pub enum FlagKind {
    /// A flag without a value.
    Switch,
    /// A flag followed by free text.
    Text,
    /// A flag followed by a `u16`.
    U16,
    /// A flag followed by a `u32`.
    U32,
    /// A flag followed by a `u64`.
    U64,
    /// A flag followed by a duration (`30`, `30s`, `5m`, `1h`), in seconds.
    Duration,
}

/// One accepted flag.
pub struct FlagSpec {
    pub name: &'static str,
    pub kind: FlagKind,
}

impl View for FlagSpec {
    type V = (Seq<char>, FlagKind);

    open spec fn view(&self) -> (Seq<char>, FlagKind) {
        (self.name@, self.kind)
    }
}

/// The value a flag was given.
pub enum FlagValue {
    Given,
    Text(String),
    Number(u64),
}

/// What a [`FlagValue`] is.
pub enum FlagValueView {
    Given,
    Text(Seq<char>),
    Number(nat),
}

impl View for FlagValue {
    type V = FlagValueView;

    open spec fn view(&self) -> FlagValueView {
        match self {
            FlagValue::Given => FlagValueView::Given,
            FlagValue::Text(s) => FlagValueView::Text(s@),
            FlagValue::Number(n) => FlagValueView::Number(*n as nat),
        }
    }
}

/// One flag met on the command line: its index in the table, its value.
pub struct FlagUse {
    pub flag: usize,
    pub value: FlagValue,
}

impl View for FlagUse {
    type V = (nat, FlagValueView);

    open spec fn view(&self) -> (nat, FlagValueView) {
        (self.flag as nat, self.value@)
    }
}

/// The outcome of scanning arguments: the flags met, in order; the first
/// error met; or a duration too large for a `u64`.
pub enum ScanView {
    Parsed(Seq<(nat, FlagValueView)>),
    Rejected(CliErrorView),
    Overflow,
}

pub open spec fn table_view(t: Seq<FlagSpec>) -> Seq<(Seq<char>, FlagKind)> {
    t.map_values(|f: FlagSpec| f@)
}

pub open spec fn uses_view(u: Seq<FlagUse>) -> Seq<(nat, FlagValueView)> {
    u.map_values(|f: FlagUse| f@)
}

/// The first index at or after `j` of a flag named `a`.
pub open spec fn lookup_from(table: Seq<(Seq<char>, FlagKind)>, a: Seq<char>, j: int) -> Option<
    nat,
>
    decreases table.len() - j,
{
    if j < 0 || j >= table.len() {
        None
    } else if table[j].0 == a {
        Some(j as nat)
    } else {
        lookup_from(table, a, j + 1)
    }
}

/// The largest number a flag of kind `k` takes.
pub open spec fn kind_max(k: FlagKind) -> nat {
    match k {
        FlagKind::U16 => u16::MAX as nat,
        FlagKind::U32 => u32::MAX as nat,
        _ => u64::MAX as nat,
    }
}

pub open spec fn prepend(e: (nat, FlagValueView), rest: ScanView) -> ScanView {
    match rest {
        ScanView::Parsed(s) => ScanView::Parsed(seq![e] + s),
        other => other,
    }
}

pub open spec fn after(acc: Seq<(nat, FlagValueView)>, rest: ScanView) -> ScanView {
    match rest {
        ScanView::Parsed(s) => ScanView::Parsed(acc + s),
        other => other,
    }
}

/// The message for an argument that is not an accepted flag.
pub open spec fn unknown_option_msg(a: Seq<char>) -> Seq<char> {
    "unknown option: "@ + a
}

/// Scanning `args[i..]` against `table`.
pub open spec fn scan_from(table: Seq<(Seq<char>, FlagKind)>, args: Seq<Seq<char>>, i: int) -> ScanView
    decreases args.len() - i,
{
    if i < 0 || i >= args.len() {
        ScanView::Parsed(Seq::empty())
    } else {
        match lookup_from(table, args[i], 0) {
            None => ScanView::Rejected(CliErrorView::InvalidArgs(unknown_option_msg(args[i]))),
            Some(k) => {
                let name = table[k as int].0;
                let kind = table[k as int].1;
                if kind is Switch {
                    prepend((k, FlagValueView::Given), scan_from(table, args, i + 1))
                } else if i + 1 >= args.len() {
                    ScanView::Rejected(CliErrorView::InvalidArgs(missing_value_msg(name)))
                } else {
                    let raw = args[i + 1];
                    if kind is Text {
                        prepend((k, FlagValueView::Text(raw)), scan_from(table, args, i + 2))
                    } else if kind is Duration {
                        match duration_secs(raw) {
                            None => ScanView::Rejected(
                                CliErrorView::InvalidArgs(invalid_duration_msg(raw)),
                            ),
                            Some(s) => if s > u64::MAX {
                                ScanView::Overflow
                            } else {
                                prepend((k, FlagValueView::Number(s)), scan_from(table, args, i + 2))
                            },
                        }
                    } else {
                        match parse_uint(raw, kind_max(kind)) {
                            None => ScanView::Rejected(
                                CliErrorView::InvalidArgs(invalid_value_msg(name)),
                            ),
                            Some(n) => prepend(
                                (k, FlagValueView::Number(n)),
                                scan_from(table, args, i + 2),
                            ),
                        }
                    }
                }
            },
        }
    }
}

/// The position in `table` of the flag named `name`.
pub open spec fn flag_index(table: Seq<(Seq<char>, FlagKind)>, name: Seq<char>) -> Option<nat> {
    lookup_from(table, name, 0)
}

proof fn lemma_flag_from(table: Seq<(Seq<char>, FlagKind)>, name: Seq<char>, j: int, k: int)
    requires
        0 <= j <= k < table.len(),
        table[k].0 == name,
        forall|i: int| j <= i < k ==> table[i].0 != name,
    ensures
        lookup_from(table, name, j) == Some(k as nat),
    decreases k - j,
{
    if j < k {
        lemma_flag_from(table, name, j + 1, k);
    }
}

/// The flag named `name` is at `k` when that is its first position.
pub(crate) proof fn lemma_flag_at(table: Seq<(Seq<char>, FlagKind)>, name: Seq<char>, k: int)
    requires
        0 <= k < table.len(),
        table[k].0 == name,
        forall|i: int| 0 <= i < k ==> table[i].0 != name,
    ensures
        flag_index(table, name) == Some(k as nat),
{
    lemma_flag_from(table, name, 0, k);
}

/// The text last given to the flag named `name`.
pub open spec fn named_text(table: Seq<(Seq<char>, FlagKind)>, es: Seq<(nat, FlagValueView)>, name: Seq<char>) -> Option<Seq<char>> {
    match flag_index(table, name) {
        Some(k) => opt_text(es, k),
        None => None,
    }
}

/// The number last given to the flag named `name`.
pub open spec fn named_number(table: Seq<(Seq<char>, FlagKind)>, es: Seq<(nat, FlagValueView)>, name: Seq<char>) -> Option<nat> {
    match flag_index(table, name) {
        Some(k) => opt_number(es, k),
        None => None,
    }
}

/// Whether the switch named `name` was given.
pub open spec fn named_set(table: Seq<(Seq<char>, FlagKind)>, es: Seq<(nat, FlagValueView)>, name: Seq<char>) -> bool {
    match flag_index(table, name) {
        Some(k) => is_set(es, k),
        None => false,
    }
}

/// Scanning all of `args` against `table`.
pub open spec fn scan(table: Seq<(Seq<char>, FlagKind)>, args: Seq<Seq<char>>) -> ScanView {
    scan_from(table, args, 0)
}

/// The value of the last use of flag `k`.
pub open spec fn last_value(es: Seq<(nat, FlagValueView)>, k: nat) -> Option<FlagValueView>
    decreases es.len(),
{
    if es.len() == 0 {
        None
    } else if es.last().0 == k {
        Some(es.last().1)
    } else {
        last_value(es.drop_last(), k)
    }
}

/// The text last given to flag `k`.
pub open spec fn opt_text(es: Seq<(nat, FlagValueView)>, k: nat) -> Option<Seq<char>> {
    match last_value(es, k) {
        Some(FlagValueView::Text(t)) => Some(t),
        _ => None,
    }
}

/// The number last given to flag `k`.
pub open spec fn opt_number(es: Seq<(nat, FlagValueView)>, k: nat) -> Option<nat> {
    match last_value(es, k) {
        Some(FlagValueView::Number(n)) => Some(n),
        _ => None,
    }
}

/// Whether switch `k` was given.
pub open spec fn is_set(es: Seq<(nat, FlagValueView)>, k: nat) -> bool {
    last_value(es, k) is Some
}

/// Whether every use is of a flag of `table` with a value of its kind.
pub open spec fn well_typed(table: Seq<(Seq<char>, FlagKind)>, es: Seq<(nat, FlagValueView)>) -> bool {
    forall|j: int|
        0 <= j < es.len() ==> {
            let k = (#[trigger] es[j]).0;
            &&& k < table.len()
            &&& match table[k as int].1 {
                FlagKind::Switch => es[j].1 is Given,
                FlagKind::Text => es[j].1 is Text,
                kind => es[j].1 matches FlagValueView::Number(n) && n <= kind_max(kind),
            }
        }
}

proof fn lemma_lookup_from(table: Seq<(Seq<char>, FlagKind)>, a: Seq<char>, j: int)
    ensures
        lookup_from(table, a, j) matches Some(k) ==> j <= k < table.len() && table[k as int].0 == a,
    decreases table.len() - j,
{
    if 0 <= j < table.len() && table[j].0 != a {
        lemma_lookup_from(table, a, j + 1);
    }
}

/// Scanning gives only uses of the table's flags, each with a value of the
/// flag's kind.
pub proof fn lemma_scan_well_typed(table: Seq<(Seq<char>, FlagKind)>, args: Seq<Seq<char>>, i: int)
    ensures
        scan_from(table, args, i) matches ScanView::Parsed(es) ==> well_typed(table, es),
    decreases args.len() - i,
{
    if 0 <= i < args.len() {
        lemma_lookup_from(table, args[i], 0);
        lemma_scan_well_typed(table, args, i + 1);
        if i + 1 < args.len() {
            lemma_scan_well_typed(table, args, i + 2);
        }
        match scan_from(table, args, i) {
            ScanView::Parsed(es) => {
                let k = lookup_from(table, args[i], 0)->0;
                let kind = table[k as int].1;
                let rest = if kind is Switch {
                    scan_from(table, args, i + 1)
                } else {
                    scan_from(table, args, i + 2)
                };
                if let ScanView::Parsed(r) = rest {
                    assert forall|j: int| 0 < j < es.len() implies es[j] == r[j - 1] by {}
                }
            },
            _ => {},
        }
    }
}

/// A table without duration flags never overflows.
pub proof fn lemma_scan_no_overflow(table: Seq<(Seq<char>, FlagKind)>, args: Seq<Seq<char>>, i: int)
    requires
        forall|k: int| 0 <= k < table.len() ==> !(#[trigger] table[k].1 is Duration),
    ensures
        !(scan_from(table, args, i) is Overflow),
    decreases args.len() - i,
{
    if 0 <= i < args.len() {
        lemma_lookup_from(table, args[i], 0);
        lemma_scan_no_overflow(table, args, i + 1);
        if i + 1 < args.len() {
            lemma_scan_no_overflow(table, args, i + 2);
        }
    }
}

/// The index of the flag named `a`, if `table` accepts it.
fn lookup(table: &Vec<FlagSpec>, a: &str) -> (r: Option<usize>)
    ensures
        match r {
            Some(k) => lookup_from(table_view(table@), a@, 0) == Some(k as nat),
            None => lookup_from(table_view(table@), a@, 0) is None,
        },
{
    let ghost tv = table_view(table@);
    let mut j: usize = 0;
    while j < table.len()
        invariant
            tv == table_view(table@),
            0 <= j <= table.len(),
            lookup_from(tv, a@, 0) == lookup_from(tv, a@, j as int),
        decreases table.len() - j,
    {
        if str_eq(table[j].name, a) {
            return Some(j);
        }
        j += 1;
    }
    None
}

/// Scan `args` against `table`, reporting the first problem met.
pub fn scan_args(table: &Vec<FlagSpec>, args: &[String]) -> (r: Result<Vec<FlagUse>, CliError>)
    requires
        !(scan(table_view(table@), texts(args@)) is Overflow),
    ensures
        match scan(table_view(table@), texts(args@)) {
            ScanView::Parsed(es) => r matches Ok(u) && uses_view(u@) == es,
            ScanView::Rejected(e) => r matches Err(x) && x@ == e,
            ScanView::Overflow => false,
        },
{
    let ghost tv = table_view(table@);
    let ghost av = texts(args@);
    let mut uses: Vec<FlagUse> = Vec::new();
    let mut i: usize = 0;
    assert(after(Seq::empty(), scan_from(tv, av, 0)) == scan_from(tv, av, 0)) by {
        if let ScanView::Parsed(s) = scan_from(tv, av, 0) {
            assert(Seq::<(nat, FlagValueView)>::empty() + s =~= s);
        }
    }
    while i < args.len()
        invariant
            tv == table_view(table@),
            av == texts(args@),
            av.len() == args@.len(),
            0 <= i <= args.len() + 1,
            !(scan(tv, av) is Overflow),
            scan(tv, av) == after(uses_view(uses@), scan_from(tv, av, i as int)),
        decreases args.len() - i,
    {
        let ghost acc = uses_view(uses@);
        assert(av[i as int] == args@[i as int]@);
        match lookup(table, args[i].as_str()) {
            None => {
                return Err(CliError::InvalidArgs(concat2("unknown option: ", args[i].as_str())));
            },
            Some(k) => {
                proof {
                    lemma_lookup_from(tv, av[i as int], 0);
                }
                let name = table[k].name;
                assert(tv[k as int] == table@[k as int]@);
                match table[k].kind {
                    FlagKind::Switch => {
                        uses.push(FlagUse { flag: k, value: FlagValue::Given });
                        i += 1;
                        proof {
                            assert(uses_view(uses@) =~= acc.push((k as nat, FlagValueView::Given)));
                            if let ScanView::Parsed(s) = scan_from(tv, av, i as int) {
                                assert(acc + (seq![(k as nat, FlagValueView::Given)] + s) =~= acc.push(
                                    (k as nat, FlagValueView::Given),
                                ) + s);
                            }
                        }
                    },
                    kind => {
                        if i + 1 >= args.len() {
                            return Err(CliError::InvalidArgs(concat2(name, " requires a value")));
                        }
                        let raw = &args[i + 1];
                        assert(av[i + 1] == raw@);
                        let value = match kind {
                            FlagKind::Text => FlagValue::Text(raw.clone()),
                            FlagKind::Duration => {
                                match parse_duration_secs(raw.as_str()) {
                                    Ok(s) => FlagValue::Number(s),
                                    Err(e) => {
                                        return Err(e);
                                    },
                                }
                            },
                            _ => {
                                let max: u64 = match kind {
                                    FlagKind::U16 => u16::MAX as u64,
                                    FlagKind::U32 => u32::MAX as u64,
                                    _ => u64::MAX,
                                };
                                match parse_uint_str(raw.as_str(), max) {
                                    Some(n) => FlagValue::Number(n),
                                    None => {
                                        return Err(
                                            CliError::InvalidArgs(
                                                concat2("invalid value for ", name),
                                            ),
                                        );
                                    },
                                }
                            },
                        };
                        let ghost ev = (k as nat, value@);
                        uses.push(FlagUse { flag: k, value });
                        i += 2;
                        proof {
                            assert(uses_view(uses@) =~= acc.push(ev));
                            if let ScanView::Parsed(s) = scan_from(tv, av, i as int) {
                                assert(acc + (seq![ev] + s) =~= acc.push(ev) + s);
                            }
                        }
                    },
                }
            },
        }
    }
    proof {
        if let ScanView::Parsed(s) = scan_from(tv, av, i as int) {
            assert(uses_view(uses@) + s =~= uses_view(uses@));
        }
    }
    Ok(uses)
}

/// Whether scanning `args` against `table` meets a duration longer than a
/// `u64` of seconds before any other problem (the inputs the scan leaves
/// out).
pub fn scan_overflows(table: &Vec<FlagSpec>, args: &[String]) -> (r: bool)
    ensures
        r == (scan(table_view(table@), texts(args@)) is Overflow),
{
    let ghost tv = table_view(table@);
    let ghost av = texts(args@);
    let mut i: usize = 0;
    while i < args.len()
        invariant
            tv == table_view(table@),
            av == texts(args@),
            av.len() == args@.len(),
            0 <= i <= args.len() + 1,
            (scan(tv, av) is Overflow) == (scan_from(tv, av, i as int) is Overflow),
        decreases args.len() - i,
    {
        assert(av[i as int] == args@[i as int]@);
        match lookup(table, args[i].as_str()) {
            None => {
                return false;
            },
            Some(k) => {
                proof {
                    lemma_lookup_from(tv, av[i as int], 0);
                }
                assert(tv[k as int] == table@[k as int]@);
                match table[k].kind {
                    FlagKind::Switch => {
                        i += 1;
                    },
                    kind => {
                        if i + 1 >= args.len() {
                            return false;
                        }
                        let raw = &args[i + 1];
                        assert(av[i + 1] == raw@);
                        match kind {
                            FlagKind::Text => {},
                            FlagKind::Duration => {
                                if duration_too_long(raw.as_str()) {
                                    return true;
                                }
                                if parse_duration_secs(raw.as_str()).is_err() {
                                    return false;
                                }
                            },
                            _ => {
                                let max: u64 = match kind {
                                    FlagKind::U16 => u16::MAX as u64,
                                    FlagKind::U32 => u32::MAX as u64,
                                    _ => u64::MAX,
                                };
                                if parse_uint_str(raw.as_str(), max).is_none() {
                                    return false;
                                }
                            },
                        }
                        i += 2;
                    },
                }
            },
        }
    }
    false
}

/// The value of the last use of flag `k`, if any.
fn last_use(uses: &Vec<FlagUse>, k: usize) -> (r: Option<usize>)
    ensures
        match r {
            Some(j) => j < uses.len() && last_value(uses_view(uses@), k as nat) == Some(
                uses@[j as int]@.1,
            ),
            None => last_value(uses_view(uses@), k as nat) is None,
        },
{
    let ghost es = uses_view(uses@);
    let mut j = uses.len();
    assert(es.take(j as int) =~= es);
    while j > 0
        invariant
            es == uses_view(uses@),
            0 <= j <= uses.len(),
            last_value(es, k as nat) == last_value(es.take(j as int), k as nat),
        decreases j,
    {
        assert(es.take(j as int).drop_last() =~= es.take(j - 1));
        if uses[j - 1].flag == k {
            return Some(j - 1);
        }
        j -= 1;
    }
    assert(es.take(0) =~= Seq::<(nat, FlagValueView)>::empty());
    None
}

/// The text last given to flag `k`.
pub fn last_text(uses: &Vec<FlagUse>, k: usize) -> (r: Option<String>)
    ensures
        match r {
            Some(s) => opt_text(uses_view(uses@), k as nat) == Some(s@),
            None => opt_text(uses_view(uses@), k as nat) is None,
        },
{
    match last_use(uses, k) {
        Some(j) => match &uses[j].value {
            FlagValue::Text(s) => Some(s.clone()),
            _ => None,
        },
        None => None,
    }
}

/// The number last given to flag `k`.
pub fn last_number(uses: &Vec<FlagUse>, k: usize) -> (r: Option<u64>)
    ensures
        match r {
            Some(n) => opt_number(uses_view(uses@), k as nat) == Some(n as nat),
            None => opt_number(uses_view(uses@), k as nat) is None,
        },
{
    match last_use(uses, k) {
        Some(j) => match &uses[j].value {
            FlagValue::Number(n) => Some(*n),
            _ => None,
        },
        None => None,
    }
}

/// Whether switch `k` was given.
pub fn was_set(uses: &Vec<FlagUse>, k: usize) -> (r: bool)
    ensures
        r == is_set(uses_view(uses@), k as nat),
{
    last_use(uses, k).is_some()
}

} // verus!
