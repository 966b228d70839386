//! Which recorded sessions `reap` cleans up, and what it reports: a
//! session goes when its caller has died or, given `--max-age`, when it is
//! older than that.
use vstd::prelude::*;

use crate::cli::texts;
use crate::session::SessionRecord;
use crate::text::{decimal, owned, push_decimal, push_str};

verus! {

/// Whether the process recorded as a session's caller is still that same
/// caller: its PID must be alive and, when both a recorded and a current
/// start-time fingerprint are known, they must agree (else the PID was
/// reused by an unrelated process).
pub open spec fn same_caller(pid_alive: bool, recorded: Option<Seq<char>>, current: Option<Seq<char>>) -> bool {
    pid_alive && match (recorded, current) {
        (Some(a), Some(b)) => a == b,
        _ => true,
    }
}

pub open spec fn opt_text(o: Option<String>) -> Option<Seq<char>> {
    match o {
        Some(s) => Some(s@),
        None => None,
    }
}

/// Whether `record`'s caller is still the process that called `launch`,
/// given whether its PID is alive now and its current start-time
/// fingerprint. With no fingerprint on either side this falls back to the
/// bare liveness check rather than assume reuse.
pub fn caller_is_alive(record: &SessionRecord, pid_alive: bool, current: &Option<String>) -> (r: bool)
    ensures
        r == same_caller(pid_alive, opt_text(record.caller_start_time), opt_text(*current)),
{
    if !pid_alive {
        return false;
    }
    match (&record.caller_start_time, current) {
        (Some(recorded), Some(now)) => *recorded == *now,
        _ => true,
    }
}

/// A live PID whose start-time fingerprint differs from the recorded one
/// belongs to another process, which is never taken for the caller; with
/// a fingerprint missing on either side only the PID's liveness counts.
pub proof fn lemma_reused_pid_is_not_the_caller(
    pid_alive: bool,
    recorded: Option<Seq<char>>,
    current: Option<Seq<char>>,
)
    ensures
        (recorded matches Some(a) && current matches Some(b) && a != b) ==> !same_caller(
            pid_alive,
            recorded,
            current,
        ),
        (recorded is None || current is None) ==> same_caller(pid_alive, recorded, current)
            == pid_alive,
        !pid_alive ==> !same_caller(pid_alive, recorded, current),
{
}

/// The reason given for a session whose caller is gone.
pub open spec fn dead_caller_reason() -> Seq<char> {
    "caller process is no longer running"@
}

/// The reason given for a session older than `--max-age`.
pub open spec fn too_old_reason(age: nat) -> Seq<char> {
    "exceeded --max-age ("@ + decimal(age) + "s old)"@
}

/// The age of a session launched at `launched_at`, at `now`; never
/// negative, even for a clock that went backwards.
pub open spec fn age_at(launched_at: nat, now: nat) -> nat {
    if now >= launched_at {
        (now - launched_at) as nat
    } else {
        0
    }
}

/// Why a session launched at `launched_at` is reaped at `now`, if it is.
pub open spec fn reap_reason(alive: bool, launched_at: nat, max_age: Option<nat>, now: nat) -> Option<
    Seq<char>,
> {
    if !alive {
        Some(dead_caller_reason())
    } else {
        match max_age {
            Some(m) => if age_at(launched_at, now) > m {
                Some(too_old_reason(age_at(launched_at, now)))
            } else {
                None
            },
            None => None,
        }
    }
}

pub open spec fn opt_nat(o: Option<u64>) -> Option<nat> {
    match o {
        Some(n) => Some(n as nat),
        None => None,
    }
}

/// `Some(reason)` if `record` should be reaped, `None` if its caller is
/// still alive and it isn't past `max_age_secs` at `now`.
pub fn classify(record: &SessionRecord, max_age_secs: Option<u64>, caller_alive: bool, now: u64) -> (r:
    Option<String>)
    ensures
        opt_text(r) == reap_reason(
            caller_alive,
            record.launched_at as nat,
            opt_nat(max_age_secs),
            now as nat,
        ),
{
    if !caller_alive {
        return Some(owned("caller process is no longer running"));
    }
    if let Some(max_age) = max_age_secs {
        let age = now.saturating_sub(record.launched_at);
        if age > max_age {
            let mut reason = owned("exceeded --max-age (");
            push_decimal(&mut reason, age);
            push_str(&mut reason, "s old)");
            return Some(reason);
        }
    }
    None
}

/// A session `reap` cleans up, with the reason it reports.
pub struct ReapOutcome {
    pub record: SessionRecord,
    pub reason: String,
}

/// The records of `records` that are reaped, in order, each with its
/// reason.
pub open spec fn reaped(
    records: Seq<SessionRecord>,
    alive: Seq<bool>,
    max_age: Option<nat>,
    now: nat,
) -> Seq<(SessionRecord, Seq<char>)>
    decreases records.len(),
{
    if records.len() == 0 || alive.len() != records.len() {
        Seq::empty()
    } else {
        let rest = reaped(records.drop_last(), alive.drop_last(), max_age, now);
        match reap_reason(alive.last(), records.last().launched_at as nat, max_age, now) {
            Some(reason) => rest.push((records.last(), reason)),
            None => rest,
        }
    }
}

/// Each outcome's record and reason.
pub open spec fn outcomes_view(o: Seq<ReapOutcome>) -> Seq<(SessionRecord, Seq<char>)> {
    o.map_values(|x: ReapOutcome| (x.record, x.reason@))
}

/// Each outcome's port and reason, as the report shows them.
pub open spec fn port_reasons(o: Seq<ReapOutcome>) -> Seq<(u16, Seq<char>)> {
    o.map_values(|x: ReapOutcome| (x.record.port, x.reason@))
}

/// Scan every tracked session and keep the ones to reap: those whose
/// caller is gone (`alive[i]` false) or that exceed `max_age_secs` at
/// `now`. A session whose caller is alive and within `max_age_secs` (or no
/// age limit was given) is left untouched.
pub fn reap_sessions(records: Vec<SessionRecord>, alive: &Vec<bool>, max_age_secs: Option<u64>, now: u64) -> (r:
    Vec<ReapOutcome>)
    requires
        alive.len() == records.len(),
    ensures
        outcomes_view(r@) == reaped(records@, alive@, opt_nat(max_age_secs), now as nat),
{
    let ghost all = records@;
    let mut out: Vec<ReapOutcome> = Vec::new();
    let mut k: usize = 0;
    let mut records = records;
    assert(records@ =~= all.subrange(0, all.len() as int));
    while records.len() > 0
        invariant
            alive.len() == all.len(),
            k + records.len() == all.len(),
            records@ == all.subrange(k as int, all.len() as int),
            outcomes_view(out@) == reaped(
                all.take(k as int),
                alive@.take(k as int),
                opt_nat(max_age_secs),
                now as nat,
            ),
        decreases records.len(),
    {
        let record = records.remove(0);
        assert(all.take(k + 1).drop_last() =~= all.take(k as int));
        assert(alive@.take(k + 1).drop_last() =~= alive@.take(k as int));
        let reason = classify(&record, max_age_secs, alive[k], now);
        match reason {
            Some(reason) => {
                let ghost before = out@;
                out.push(ReapOutcome { record, reason });
                assert(outcomes_view(out@) =~= outcomes_view(before).push(
                    (all[k as int], out@.last().reason@),
                ));
            },
            None => {},
        }
        k += 1;
        assert(records@ =~= all.subrange(k as int, all.len() as int));
    }
    assert(all.take(k as int) =~= all);
    assert(alive@.take(k as int) =~= alive@);
    out
}

/// One step of cleaning up a reaped session.
#[derive(PartialEq, Eq, Structural, Debug, Clone, Copy)]
pub enum ReapAction {
    /// Ask the browser on this port to close itself; best effort, and its
    /// outcome decides nothing.
    Close(u16),
    /// Delete the session record of this port.
    Forget(u16),
}

/// The clean-up of the sessions on `ports`, in order: each browser is
/// asked to close, then its record is deleted.
pub open spec fn plan_of(ports: Seq<u16>) -> Seq<ReapAction>
    decreases ports.len(),
{
    if ports.len() == 0 {
        Seq::empty()
    } else {
        plan_of(ports.drop_last()).push(ReapAction::Close(ports.last())).push(
            ReapAction::Forget(ports.last()),
        )
    }
}

/// The ports of `outcomes`, in order.
pub open spec fn outcome_ports(outcomes: Seq<ReapOutcome>) -> Seq<u16> {
    outcomes.map_values(|o: ReapOutcome| o.record.port)
}

/// What a reap does with what it found, decided before any of it is
/// done: nothing for a dry run, which only reports; else, for each reaped
/// session in order, close its browser and delete its record.
pub fn reap_plan(outcomes: &Vec<ReapOutcome>, dry_run: bool) -> (r: Vec<ReapAction>)
    ensures
        dry_run ==> r@.len() == 0,
        !dry_run ==> r@ == plan_of(outcome_ports(outcomes@)),
{
    let mut r: Vec<ReapAction> = Vec::new();
    if dry_run {
        return r;
    }
    let ghost ports = outcome_ports(outcomes@);
    let mut k: usize = 0;
    while k < outcomes.len()
        invariant
            ports == outcome_ports(outcomes@),
            0 <= k <= outcomes.len(),
            r@ == plan_of(ports.take(k as int)),
        decreases outcomes.len() - k,
    {
        let port = outcomes[k].record.port;
        r.push(ReapAction::Close(port));
        r.push(ReapAction::Forget(port));
        assert(ports.take(k + 1).drop_last() =~= ports.take(k as int));
        assert(ports.take(k + 1).last() == port);
        k += 1;
    }
    assert(ports.take(k as int) =~= ports);
    r
}

/// The port an action is about.
pub open spec fn action_port(a: ReapAction) -> u16 {
    match a {
        ReapAction::Close(p) => p,
        ReapAction::Forget(p) => p,
    }
}

/// A reap that is not a dry run closes the browser of every reaped
/// session and then deletes its record, whatever the close did (the plan
/// is fixed before anything is closed), and touches no other port; a dry
/// run does nothing.
pub proof fn lemma_plan_closes_then_forgets_each(ports: Seq<u16>)
    ensures
        plan_of(ports).len() == 2 * ports.len(),
        forall|i: int|
            0 <= i < ports.len() ==> plan_of(ports)[2 * i] == ReapAction::Close(ports[i])
                && plan_of(ports)[2 * i + 1] == ReapAction::Forget(ports[i]),
        forall|j: int|
            0 <= j < plan_of(ports).len() ==> #[trigger] action_port(plan_of(ports)[j]) == ports[j
                / 2],
    decreases ports.len(),
{
    if ports.len() > 0 {
        let init = ports.drop_last();
        lemma_plan_closes_then_forgets_each(init);
        let p = plan_of(ports);
        let n = init.len() as int;
        assert forall|i: int| 0 <= i < ports.len() implies p[2 * i] == ReapAction::Close(ports[i])
            && p[2 * i + 1] == ReapAction::Forget(ports[i]) by {
            if i < n {
                assert(init[i] == ports[i]);
            }
        }
        assert forall|j: int| 0 <= j < p.len() implies #[trigger] action_port(p[j]) == ports[j
            / 2] by {
            let i = j / 2;
            if j == 2 * i {
                assert(p[2 * i] == ReapAction::Close(ports[i]));
            } else {
                assert(j == 2 * i + 1);
                assert(p[2 * i + 1] == ReapAction::Forget(ports[i]));
            }
        }
    }
}

/// The lines `reap` prints for `outcomes`.
pub open spec fn outcome_lines_spec(outcomes: Seq<(u16, Seq<char>)>, dry_run: bool) -> Seq<Seq<char>> {
    if outcomes.len() == 0 {
        seq!["No orphaned or stale sessions found."@]
    } else {
        outcomes.map_values(
            |o: (u16, Seq<char>)|
                (if dry_run {
                    "Would reap"@
                } else {
                    "Reaped"@
                }) + " session on port "@ + decimal(o.0 as nat) + " ("@ + o.1 + ")"@,
        ).push(
            (if dry_run {
                "Found"@
            } else {
                "Reaped"@
            }) + " "@ + decimal(outcomes.len()) + " session(s)."@,
        )
    }
}

/// The lines `reap` (and `launch --reap-stale`) prints for what it reaped,
/// or, with `dry_run`, would reap.
pub fn outcome_lines(outcomes: &Vec<ReapOutcome>, dry_run: bool) -> (r: Vec<String>)
    ensures
        texts(r@) == outcome_lines_spec(port_reasons(outcomes@), dry_run),
{
    let mut lines: Vec<String> = Vec::new();
    if outcomes.len() == 0 {
        lines.push(owned("No orphaned or stale sessions found."));
        assert(texts(lines@) =~= outcome_lines_spec(port_reasons(outcomes@), dry_run));
        return lines;
    }
    let ghost ov = port_reasons(outcomes@);
    let mut k: usize = 0;
    while k < outcomes.len()
        invariant
            ov == port_reasons(outcomes@),
            0 <= k <= outcomes.len(),
            texts(lines@) == ov.take(k as int).map_values(
                |o: (u16, Seq<char>)|
                    (if dry_run {
                        "Would reap"@
                    } else {
                        "Reaped"@
                    }) + " session on port "@ + decimal(o.0 as nat) + " ("@ + o.1 + ")"@,
            ),
        decreases outcomes.len() - k,
    {
        let mut line = if dry_run {
            owned("Would reap")
        } else {
            owned("Reaped")
        };
        push_str(&mut line, " session on port ");
        push_decimal(&mut line, outcomes[k].record.port as u64);
        push_str(&mut line, " (");
        push_str(&mut line, outcomes[k].reason.as_str());
        push_str(&mut line, ")");
        let ghost before = lines@;
        lines.push(line);
        assert(ov.take(k + 1) =~= ov.take(k as int).push(ov[k as int]));
        assert(texts(lines@) =~= texts(before).push(lines@.last()@));
        k += 1;
    }
    assert(ov.take(k as int) =~= ov);
    let mut last = if dry_run {
        owned("Found")
    } else {
        owned("Reaped")
    };
    push_str(&mut last, " ");
    push_decimal(&mut last, outcomes.len() as u64);
    push_str(&mut last, " session(s).");
    let ghost before = lines@;
    lines.push(last);
    assert(texts(lines@) =~= texts(before).push(lines@.last()@));
    lines
}

/// A session whose caller is gone is reaped, whatever the age limit and
/// the time.
pub proof fn lemma_dead_caller_always_reaped(launched_at: nat, max_age: Option<nat>, now: nat)
    ensures
        reap_reason(false, launched_at, max_age, now) == Some(dead_caller_reason()),
{
}

/// A session whose caller is alive is never reaped without an age limit.
pub proof fn lemma_alive_caller_kept_without_max_age(launched_at: nat, now: nat)
    ensures
        reap_reason(true, launched_at, None, now) is None,
{
}

/// Once a live caller's session is past the age limit it stays past it:
/// a session reaped at `now` would be reaped at any later time too, and
/// one kept at `now` was kept at any earlier time.
pub proof fn lemma_age_limit_is_monotone(launched_at: nat, max_age: nat, now: nat, later: nat)
    requires
        now <= later,
    ensures
        reap_reason(true, launched_at, Some(max_age), now) is Some ==> reap_reason(
            true,
            launched_at,
            Some(max_age),
            later,
        ) is Some,
{
}

/// A session launched within `max_age` seconds of `now` is kept while its
/// caller lives.
pub proof fn lemma_young_session_kept(launched_at: nat, max_age: nat, now: nat)
    requires
        now <= launched_at + max_age,
    ensures
        reap_reason(true, launched_at, Some(max_age), now) is None,
{
}

/// With every caller alive and no age limit, a scan reaps nothing.
pub proof fn lemma_nothing_reaped_when_all_alive(records: Seq<SessionRecord>, alive: Seq<bool>, now: nat)
    requires
        alive.len() == records.len(),
        forall|i: int| 0 <= i < alive.len() ==> #[trigger] alive[i],
    ensures
        reaped(records, alive, None, now) == Seq::<(SessionRecord, Seq<char>)>::empty(),
    decreases records.len(),
{
    if records.len() > 0 {
        assert(alive.last() == alive[alive.len() - 1]);
        lemma_nothing_reaped_when_all_alive(records.drop_last(), alive.drop_last(), now);
    }
}

/// With every caller dead, a scan reaps every session, in order, each for
/// its dead caller.
pub proof fn lemma_all_reaped_when_all_dead(
    records: Seq<SessionRecord>,
    alive: Seq<bool>,
    max_age: Option<nat>,
    now: nat,
)
    requires
        alive.len() == records.len(),
        forall|i: int| 0 <= i < alive.len() ==> !#[trigger] alive[i],
    ensures
        reaped(records, alive, max_age, now) == records.map_values(
            |r: SessionRecord| (r, dead_caller_reason()),
        ),
    decreases records.len(),
{
    if records.len() > 0 {
        assert(alive.last() == alive[alive.len() - 1]);
        lemma_all_reaped_when_all_dead(records.drop_last(), alive.drop_last(), max_age, now);
        assert(records.drop_last().map_values(|r: SessionRecord| (r, dead_caller_reason())).push(
            (records.last(), dead_caller_reason()),
        ) =~= records.map_values(|r: SessionRecord| (r, dead_caller_reason())));
    }
}

} // verus!
