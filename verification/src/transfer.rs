//! The transfer of a server: what a report adds to it, and what a rule about
//! it counts.
use vstd::prelude::*;

use crate::model;
use crate::convert::u64_to_i64_saturating;
use crate::model::{Host, HostState};
use crate::text::same;

verus! {

/// What a report of the transfer counters changes: the counters remembered for
/// the next report, and the bytes to enter for the hour.
#[derive(Debug, Clone, Copy)]
pub struct TransferUpdate {
    pub snapshot: Option<(i64, i64)>,
    pub entry: Option<TransferEntry>,
}

/// Bytes to enter for the hour that starts at `hour_start`.
#[derive(Debug, Clone, Copy)]
pub struct TransferEntry {
    pub in_bytes: i64,
    pub out_bytes: i64,
    pub hour_start: u64,
}

/// `n` as the database holds it.
pub open spec fn stored(n: int) -> i64 {
    if n > i64::MAX {
        i64::MAX
    } else {
        n as i64
    }
}

/// Whether a counter has started anew since the last report.
pub open spec fn counters_reset(prev: (u64, u64), now: (u64, u64)) -> bool {
    now.0 < prev.0 || now.1 < prev.1
}

/// What a report of the transfer counters changes.
pub open spec fn transfer_change(prev: (u64, u64), current: (u64, u64), now: u64) -> TransferUpdate {
    TransferUpdate {
        snapshot: if current == prev {
            None
        } else {
            Some((stored(current.0 as int), stored(current.1 as int)))
        },
        entry: if counters_reset(prev, current) || current == prev {
            None
        } else {
            Some(
                TransferEntry {
                    in_bytes: stored(current.0 - prev.0),
                    out_bytes: stored(current.1 - prev.1),
                    hour_start: (now - now % 3600) as u64,
                },
            )
        },
    }
}

/// What a report of the transfer counters changes. Where a counter has started
/// anew nothing is entered, and where neither has moved nothing changes.
pub fn record_transfer_delta(prev: (u64, u64), current: (u64, u64), now: u64) -> (r: TransferUpdate)
    ensures
        r == transfer_change(prev, current, now),
        r.snapshot == if current == prev {
            None
        } else {
            Some((stored(current.0 as int), stored(current.1 as int)))
        },
        r.entry.is_some() == (!counters_reset(prev, current) && current != prev),
        r.entry matches Some(e) ==> {
            &&& e.in_bytes == stored(current.0 - prev.0)
            &&& e.out_bytes == stored(current.1 - prev.1)
            &&& e.hour_start % 3600 == 0
            &&& e.hour_start <= now < e.hour_start + 3600
        },
{
    let snapshot = Some((u64_to_i64_saturating(current.0), u64_to_i64_saturating(current.1)));
    if current.0 < prev.0 || current.1 < prev.1 {
        return TransferUpdate { snapshot, entry: None };
    }
    let in_delta: u64 = current.0.saturating_sub(prev.0);
    let out_delta: u64 = current.1.saturating_sub(prev.1);
    if in_delta == 0 && out_delta == 0 {
        return TransferUpdate { snapshot: None, entry: None };
    }
    let hour_start: u64 = now - (now % 3600);
    TransferUpdate {
        snapshot,
        entry: Some(
            TransferEntry {
                in_bytes: u64_to_i64_saturating(in_delta),
                out_bytes: u64_to_i64_saturating(out_delta),
                hour_start,
            },
        ),
    }
}

/// The bytes that the reports after the first enter, counter by counter, as
/// long as none of the numbers leaves the database's range.
pub open spec fn entered(reports: Seq<(u64, u64)>) -> (int, int)
    decreases reports.len(),
{
    if reports.len() < 2 {
        (0, 0)
    } else {
        let before = entered(reports.drop_last());
        let prev = reports[reports.len() - 2];
        let now = reports.last();
        if counters_reset(prev, now) {
            before
        } else {
            (before.0 + (now.0 - prev.0), before.1 + (now.1 - prev.1))
        }
    }
}

/// While no counter starts anew, what was entered is what the counters have
/// gained since the first report, however many reports there were.
pub proof fn entered_is_what_was_gained(reports: Seq<(u64, u64)>)
    requires
        reports.len() > 0,
        forall|i: int|
            1 <= i < reports.len() ==> !counters_reset(reports[i - 1], #[trigger] reports[i]),
    ensures
        entered(reports) == (
            reports.last().0 - reports.first().0,
            reports.last().1 - reports.first().1,
        ),
    decreases reports.len(),
{
    if reports.len() >= 2 {
        let front = reports.drop_last();
        assert forall|i: int| 1 <= i < front.len() implies !counters_reset(
            front[i - 1],
            #[trigger] front[i],
        ) by {
            assert(!counters_reset(reports[i - 1], reports[i]));
        }
        entered_is_what_was_gained(front);
        assert(!counters_reset(reports[reports.len() - 2], reports[reports.len() - 1]));
    }
}

/// A counter that starts anew adds nothing: there is no phantom transfer, and
/// counting goes on from the new value.
pub proof fn reset_enters_nothing(reports: Seq<(u64, u64)>, now: (u64, u64), next: (u64, u64))
    requires
        reports.len() > 0,
        counters_reset(reports.last(), now),
        !counters_reset(now, next),
    ensures
        entered(reports.push(now)) == entered(reports),
        entered(reports.push(now).push(next)) == (
            entered(reports).0 + (next.0 - now.0),
            entered(reports).1 + (next.1 - now.1),
        ),
{
    let a = reports.push(now);
    assert(a.drop_last() =~= reports);
    assert(a.push(next).drop_last() =~= a);
}

/// Which direction a rule about a cycle counts.
#[derive(Debug, Clone, Copy, PartialEq, Eq, Structural)]
pub enum TransferCycleKind {
    In,
    Out,
    All,
}

/// `n`, or the largest number where it is above.
pub open spec fn capped(n: int) -> u64 {
    if n > u64::MAX {
        u64::MAX
    } else {
        n as u64
    }
}

/// What a counter has gained since `prev`, or nothing where it has started
/// anew.
pub open spec fn gained(counter: u64, prev: u64) -> int {
    if counter < prev {
        0
    } else {
        counter - prev
    }
}

/// The transfer of a cycle: what is entered for it, and what the counters have
/// gained since the last entry.
pub open spec fn cycle_transfer(
    kind: TransferCycleKind,
    state: HostState,
    snapshot: (u64, u64),
    stored_totals: (u64, u64),
) -> u64 {
    match kind {
        TransferCycleKind::In => capped(
            stored_totals.0 + gained(state.net_in_transfer, snapshot.0),
        ),
        TransferCycleKind::Out => capped(
            stored_totals.1 + gained(state.net_out_transfer, snapshot.1),
        ),
        TransferCycleKind::All => capped(
            stored_totals.0 + stored_totals.1 + gained(state.net_in_transfer, snapshot.0) + gained(
                state.net_out_transfer,
                snapshot.1,
            ),
        ),
    }
}

/// The transfer of a cycle: what is entered for it, and what the counters have
/// gained since the last entry.
pub fn transfer_cycle_value(
    kind: TransferCycleKind,
    state: &HostState,
    snapshot: (u64, u64),
    stored_totals: (u64, u64),
) -> (r: u64)
    ensures
        r == cycle_transfer(kind, *state, snapshot, stored_totals),
{
    let current_in: u64 = state.net_in_transfer.saturating_sub(snapshot.0);
    let current_out: u64 = state.net_out_transfer.saturating_sub(snapshot.1);
    match kind {
        TransferCycleKind::In => stored_totals.0.saturating_add(current_in),
        TransferCycleKind::Out => stored_totals.1.saturating_add(current_out),
        TransferCycleKind::All => stored_totals.0.saturating_add(stored_totals.1).saturating_add(
            current_in,
        ).saturating_add(current_out),
    }
}

/// What a rule measures on a server: a number, a share of a total, the
/// transfer of a cycle, a value that is no whole number, or nothing.
#[derive(Debug, Clone, Copy, PartialEq, Eq, Structural)]
pub enum RuleValue {
    Whole(u64),
    Share { used: u64, total: u64 },
    Cycle(TransferCycleKind),
    Cpu,
    GpuMax,
    Load1,
    Load5,
    Load15,
    TemperatureMax,
    Missing,
}

/// What a rule of this kind measures on a server that reports `state` and
/// `host`; without a report nothing is measured.
pub open spec fn measured(
    kind: Seq<char>,
    state: Option<HostState>,
    host: Option<model::Host>,
) -> RuleValue {
    match state {
        None => RuleValue::Missing,
        Some(s) => if kind == "cpu"@ {
            RuleValue::Cpu
        } else if kind == "gpu_max"@ {
            RuleValue::GpuMax
        } else if kind == "memory"@ {
            match host {
                Some(h) => RuleValue::Share { used: s.mem_used, total: h.mem_total },
                None => RuleValue::Missing,
            }
        } else if kind == "swap"@ {
            match host {
                Some(h) => RuleValue::Share { used: s.swap_used, total: h.swap_total },
                None => RuleValue::Missing,
            }
        } else if kind == "disk"@ {
            match host {
                Some(h) => RuleValue::Share { used: s.disk_used, total: h.disk_total },
                None => RuleValue::Missing,
            }
        } else if kind == "net_in_speed"@ {
            RuleValue::Whole(s.net_in_speed)
        } else if kind == "net_out_speed"@ {
            RuleValue::Whole(s.net_out_speed)
        } else if kind == "net_all_speed"@ {
            RuleValue::Whole(capped(s.net_out_speed + s.net_out_speed))
        } else if kind == "transfer_in"@ {
            RuleValue::Whole(s.net_in_transfer)
        } else if kind == "transfer_out"@ {
            RuleValue::Whole(s.net_out_transfer)
        } else if kind == "transfer_all"@ {
            RuleValue::Whole(capped(s.net_out_transfer + s.net_in_transfer))
        } else if kind == "transfer_in_cycle"@ {
            RuleValue::Cycle(TransferCycleKind::In)
        } else if kind == "transfer_out_cycle"@ {
            RuleValue::Cycle(TransferCycleKind::Out)
        } else if kind == "transfer_all_cycle"@ {
            RuleValue::Cycle(TransferCycleKind::All)
        } else if kind == "load1"@ {
            RuleValue::Load1
        } else if kind == "load5"@ {
            RuleValue::Load5
        } else if kind == "load15"@ {
            RuleValue::Load15
        } else if kind == "tcp_conn_count"@ {
            RuleValue::Whole(s.tcp_conn_count)
        } else if kind == "udp_conn_count"@ {
            RuleValue::Whole(s.udp_conn_count)
        } else if kind == "process_count"@ {
            RuleValue::Whole(s.process_count)
        } else if kind == "temperature_max"@ {
            RuleValue::TemperatureMax
        } else {
            RuleValue::Missing
        },
    }
}

/// What a rule of this kind measures on a server that reports `state` and
/// `host`.
pub fn rule_value(kind: &str, state: &Option<HostState>, host: &Option<Host>) -> (r: RuleValue)
    ensures
        r == measured(kind@, *state, *host),
{
    match state {
        None => RuleValue::Missing,
        Some(s) => if same(kind, "cpu") {
            RuleValue::Cpu
        } else if same(kind, "gpu_max") {
            RuleValue::GpuMax
        } else if same(kind, "memory") {
            match host {
                Some(h) => RuleValue::Share { used: s.mem_used, total: h.mem_total },
                None => RuleValue::Missing,
            }
        } else if same(kind, "swap") {
            match host {
                Some(h) => RuleValue::Share { used: s.swap_used, total: h.swap_total },
                None => RuleValue::Missing,
            }
        } else if same(kind, "disk") {
            match host {
                Some(h) => RuleValue::Share { used: s.disk_used, total: h.disk_total },
                None => RuleValue::Missing,
            }
        } else if same(kind, "net_in_speed") {
            RuleValue::Whole(s.net_in_speed)
        } else if same(kind, "net_out_speed") {
            RuleValue::Whole(s.net_out_speed)
        } else if same(kind, "net_all_speed") {
            RuleValue::Whole(s.net_out_speed.saturating_add(s.net_out_speed))
        } else if same(kind, "transfer_in") {
            RuleValue::Whole(s.net_in_transfer)
        } else if same(kind, "transfer_out") {
            RuleValue::Whole(s.net_out_transfer)
        } else if same(kind, "transfer_all") {
            RuleValue::Whole(s.net_out_transfer.saturating_add(s.net_in_transfer))
        } else if same(kind, "transfer_in_cycle") {
            RuleValue::Cycle(TransferCycleKind::In)
        } else if same(kind, "transfer_out_cycle") {
            RuleValue::Cycle(TransferCycleKind::Out)
        } else if same(kind, "transfer_all_cycle") {
            RuleValue::Cycle(TransferCycleKind::All)
        } else if same(kind, "load1") {
            RuleValue::Load1
        } else if same(kind, "load5") {
            RuleValue::Load5
        } else if same(kind, "load15") {
            RuleValue::Load15
        } else if same(kind, "tcp_conn_count") {
            RuleValue::Whole(s.tcp_conn_count)
        } else if same(kind, "udp_conn_count") {
            RuleValue::Whole(s.udp_conn_count)
        } else if same(kind, "process_count") {
            RuleValue::Whole(s.process_count)
        } else if same(kind, "temperature_max") {
            RuleValue::TemperatureMax
        } else {
            RuleValue::Missing
        },
    }
}

/// Whether a server's past can be asked for by this name.
pub open spec fn known_metric(metric: Seq<char>) -> bool {
    ||| metric == "cpu"@
    ||| metric == "memory"@
    ||| metric == "swap"@
    ||| metric == "disk"@
    ||| metric == "net_in_speed"@
    ||| metric == "net_out_speed"@
    ||| metric == "net_in_transfer"@
    ||| metric == "net_out_transfer"@
    ||| metric == "load1"@
    ||| metric == "load5"@
    ||| metric == "load15"@
    ||| metric == "tcp_conn"@
    ||| metric == "udp_conn"@
    ||| metric == "process_count"@
    ||| metric == "temperature"@
    ||| metric == "uptime"@
    ||| metric == "gpu"@
}

/// Whether a server's past can be asked for by this name.
pub fn is_known_server_metric(metric: &str) -> (r: bool)
    ensures
        r == known_metric(metric@),
{
    same(metric, "cpu") || same(metric, "memory") || same(metric, "swap") || same(metric, "disk")
        || same(metric, "net_in_speed") || same(metric, "net_out_speed") || same(
        metric,
        "net_in_transfer",
    ) || same(metric, "net_out_transfer") || same(metric, "load1") || same(metric, "load5") || same(
        metric,
        "load15",
    ) || same(metric, "tcp_conn") || same(metric, "udp_conn") || same(metric, "process_count")
        || same(metric, "temperature") || same(metric, "uptime") || same(metric, "gpu")
}

/// A report enters what each counter has gained since the one before, in the hour
/// that holds the report, and remembers the counters; one that has not moved a
/// counter changes nothing, and one with a counter below the last enters nothing
/// but is remembered.
pub proof fn reports_enter_what_was_gained(prev: (u64, u64), current: (u64, u64), now: u64)
    requires
        current.0 <= i64::MAX,
        current.1 <= i64::MAX,
    ensures
        ({
            let change = transfer_change(prev, current, now);
            &&& match change.entry {
                Some(e) => {
                    &&& prev.0 + e.in_bytes == current.0
                    &&& prev.1 + e.out_bytes == current.1
                    &&& e.in_bytes + e.out_bytes > 0
                    &&& e.hour_start % 3600 == 0
                    &&& e.hour_start <= now < e.hour_start + 3600
                },
                None => current.0 < prev.0 || current.1 < prev.1 || current == prev,
            }
            &&& match change.snapshot {
                Some(kept) => kept.0 == current.0 && kept.1 == current.1 && current != prev,
                None => current == prev,
            }
        }),
{
}

/// What the reports of a server enter one by one is what has been entered so far.
pub proof fn entries_add_up(reports: Seq<(u64, u64)>, next: (u64, u64), now: u64)
    requires
        reports.len() > 0,
        next.0 <= i64::MAX,
        next.1 <= i64::MAX,
    ensures
        match transfer_change(reports.last(), next, now).entry {
            Some(e) => entered(reports.push(next)) == (
                entered(reports).0 + e.in_bytes,
                entered(reports).1 + e.out_bytes,
            ),
            None => entered(reports.push(next)) == entered(reports),
        },
{
    assert(reports.push(next).drop_last() =~= reports);
}

/// The transfer of a cycle in both directions is that of the one and the other.
/// Each is what was entered for it and what its counter has gained since the
/// snapshot, where the counter has not started anew; where it has, it adds
/// nothing.
pub proof fn both_directions_add_up(state: HostState, snapshot: (u64, u64), totals: (u64, u64))
    ensures
        ({
            let came = cycle_transfer(TransferCycleKind::In, state, snapshot, totals);
            let went = cycle_transfer(TransferCycleKind::Out, state, snapshot, totals);
            let both = cycle_transfer(TransferCycleKind::All, state, snapshot, totals);
            &&& came < u64::MAX && went < u64::MAX && came + went <= u64::MAX ==> both == came
                + went
            &&& both >= came && both >= went
            &&& state.net_in_transfer >= snapshot.0 && totals.0 + state.net_in_transfer <= u64::MAX
                ==> came + snapshot.0 == totals.0 + state.net_in_transfer
            &&& state.net_out_transfer >= snapshot.1 && totals.1 + state.net_out_transfer
                <= u64::MAX ==> went + snapshot.1 == totals.1 + state.net_out_transfer
            &&& state.net_in_transfer < snapshot.0 ==> came == totals.0
            &&& state.net_out_transfer < snapshot.1 ==> went == totals.1
        }),
{
}

/// Storing a report and counting from it on gives the same transfer of a cycle as
/// before it was stored.
pub proof fn storing_keeps_the_transfer(
    kind: TransferCycleKind,
    state: HostState,
    prev: (u64, u64),
    totals: (u64, u64),
    now: u64,
)
    requires
        state.net_in_transfer <= i64::MAX,
        state.net_out_transfer <= i64::MAX,
        totals.0 + totals.1 + state.net_in_transfer + state.net_out_transfer <= u64::MAX,
    ensures
        ({
            let current = (state.net_in_transfer, state.net_out_transfer);
            let change = transfer_change(prev, current, now);
            match (change.entry, change.snapshot) {
                (Some(e), Some(kept)) => cycle_transfer(kind, state, prev, totals)
                    == cycle_transfer(
                    kind,
                    state,
                    (kept.0 as u64, kept.1 as u64),
                    ((totals.0 + e.in_bytes) as u64, (totals.1 + e.out_bytes) as u64),
                ),
                _ => true,
            }
        }),
{
}

proof fn lemma_kinds_of_rules()
    ensures
        "cpu"@.len() == 3 && "cpu"@[0] == 'c',
        "gpu_max"@.len() == 7 && "gpu_max"@[0] == 'g',
        "memory"@.len() == 6 && "memory"@[0] == 'm',
        "swap"@.len() == 4 && "swap"@[0] == 's',
        "disk"@.len() == 4 && "disk"@[0] == 'd',
        "net_in_speed"@.len() == 12 && "net_in_speed"@[0] == 'n' && "net_in_speed"@[9] == 'e',
        "net_out_speed"@.len() == 13 && "net_out_speed"@[0] == 'n' && "net_out_speed"@[4] == 'o',
        "net_all_speed"@.len() == 13 && "net_all_speed"@[0] == 'n' && "net_all_speed"@[4] == 'a',
        "transfer_in"@.len() == 11 && "transfer_in"@[0] == 't',
        "transfer_out"@.len() == 12 && "transfer_out"@[0] == 't' && "transfer_out"@[9] == 'o',
        "transfer_all"@.len() == 12 && "transfer_all"@[0] == 't' && "transfer_all"@[9] == 'a',
        "transfer_in_cycle"@.len() == 17 && "transfer_in_cycle"@[0] == 't',
        "transfer_out_cycle"@.len() == 18 && "transfer_out_cycle"@[0] == 't' && "transfer_out_cycle"@[9] == 'o',
        "transfer_all_cycle"@.len() == 18 && "transfer_all_cycle"@[0] == 't' && "transfer_all_cycle"@[9] == 'a',
        "load1"@.len() == 5 && "load1"@[0] == 'l' && "load1"@[4] == '1',
        "load5"@.len() == 5 && "load5"@[0] == 'l' && "load5"@[4] == '5',
        "load15"@.len() == 6 && "load15"@[0] == 'l',
        "tcp_conn_count"@.len() == 14 && "tcp_conn_count"@[0] == 't',
        "udp_conn_count"@.len() == 14 && "udp_conn_count"@[0] == 'u',
        "process_count"@.len() == 13 && "process_count"@[0] == 'p' && "process_count"@[4] == 'e',
        "temperature_max"@.len() == 15 && "temperature_max"@[0] == 't',
{
    reveal_strlit("cpu");
    reveal_strlit("gpu_max");
    reveal_strlit("memory");
    reveal_strlit("swap");
    reveal_strlit("disk");
    reveal_strlit("net_in_speed");
    reveal_strlit("net_out_speed");
    reveal_strlit("net_all_speed");
    reveal_strlit("transfer_in");
    reveal_strlit("transfer_out");
    reveal_strlit("transfer_all");
    reveal_strlit("transfer_in_cycle");
    reveal_strlit("transfer_out_cycle");
    reveal_strlit("transfer_all_cycle");
    reveal_strlit("load1");
    reveal_strlit("load5");
    reveal_strlit("load15");
    reveal_strlit("tcp_conn_count");
    reveal_strlit("udp_conn_count");
    reveal_strlit("process_count");
    reveal_strlit("temperature_max");
}

/// A rule about memory, swap or disk measures the share of it that is used, and
/// nothing where the size is not known. A rule about a speed, a counter or a count
/// measures that of the report. The transfer in both directions is the one and
/// the other together, and a rule about a cycle counts the direction that its
/// kind names.
pub proof fn rules_measure_what_they_name(s: HostState, host: Option<model::Host>)
    ensures
        ({
            let m = |kind: Seq<char>| measured(kind, Some(s), host);
            &&& host matches Some(h) ==> {
                &&& m("memory"@) == (RuleValue::Share { used: s.mem_used, total: h.mem_total })
                &&& m("swap"@) == (RuleValue::Share { used: s.swap_used, total: h.swap_total })
                &&& m("disk"@) == (RuleValue::Share { used: s.disk_used, total: h.disk_total })
            }
            &&& host is None ==> m("memory"@) == RuleValue::Missing && m("swap"@)
                == RuleValue::Missing && m("disk"@) == RuleValue::Missing
            &&& m("net_in_speed"@) == RuleValue::Whole(s.net_in_speed)
            &&& m("net_out_speed"@) == RuleValue::Whole(s.net_out_speed)
            &&& m("net_all_speed"@) matches RuleValue::Whole(n) && (2 * s.net_out_speed <= u64::MAX
                ==> n == 2 * s.net_out_speed)
            &&& m("transfer_in"@) == RuleValue::Whole(s.net_in_transfer)
            &&& m("transfer_out"@) == RuleValue::Whole(s.net_out_transfer)
            &&& m("transfer_all"@) matches RuleValue::Whole(n) && (s.net_in_transfer
                + s.net_out_transfer <= u64::MAX ==> n == s.net_in_transfer + s.net_out_transfer)
            &&& m("tcp_conn_count"@) == RuleValue::Whole(s.tcp_conn_count)
            &&& m("udp_conn_count"@) == RuleValue::Whole(s.udp_conn_count)
            &&& m("process_count"@) == RuleValue::Whole(s.process_count)
            &&& m("transfer_in_cycle"@) == RuleValue::Cycle(TransferCycleKind::In)
            &&& m("transfer_out_cycle"@) == RuleValue::Cycle(TransferCycleKind::Out)
            &&& m("transfer_all_cycle"@) == RuleValue::Cycle(TransferCycleKind::All)
            &&& m("cpu"@) == RuleValue::Cpu
            &&& m("gpu_max"@) == RuleValue::GpuMax
            &&& m("temperature_max"@) == RuleValue::TemperatureMax
            &&& m("load1"@) == RuleValue::Load1
            &&& m("load5"@) == RuleValue::Load5
            &&& m("load15"@) == RuleValue::Load15
        }),
{
    lemma_kinds_of_rules();
}

/// Without a report nothing is measured, whatever the rule.
pub proof fn nothing_is_measured_without_a_report(kind: Seq<char>, host: Option<model::Host>)
    ensures
        measured(kind, None, host) == RuleValue::Missing,
{
}

} // verus!
