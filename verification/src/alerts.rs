//! The alert watch: from the readings of each round to incidents and their end.
use std::collections::HashMap;

use vstd::prelude::*;

use crate::{convert, cycle, json, moment, rules};
use crate::convert::wrap_i64;
use crate::cycle::{rule_cycle_is_countable, transfer_cycle_end, transfer_cycle_start};
use crate::json::{Json, u64_field};
use crate::model::{AlertRuleResource, CronResource, PublicServer};
use crate::moment::calendar_holds;
use crate::rules::{
    alert_check, is_offline_rule, is_transfer_cycle_rule, rule_excludes_server, rule_type,
};

verus! {

/// The trigger mode in which every failed round is an incident.
pub const ALERT_MODE_ALWAYS_TRIGGER: u8 = 0;

pub const RULE_CHECK_FAIL: u8 = 1;

pub const RULE_CHECK_PASS: u8 = 2;

/// The cover of a scheduled task that only alerts start.
pub const CRON_COVER_ALERT_TRIGGER: u8 = 2;

/// What was measured for a rule on a server: nothing, or a value, of which it
/// is told whether it is within the rule's bounds, what it is as a whole number
/// and, for a rule about a cycle, when to measure again.
#[derive(Debug, Clone, Copy)]
pub enum RuleReading {
    Missing,
    Measured { within: bool, transfer: u64, next_update: u64 },
}

/// The reading of the rule number `index`.
pub open spec fn reading_at(readings: Seq<RuleReading>, index: int) -> RuleReading {
    if 0 <= index < readings.len() {
        readings[index]
    } else {
        RuleReading::Missing
    }
}

/// A measured cycle: until when the measure holds, and whether it was within
/// the bounds.
#[derive(Debug, Clone, Copy)]
pub struct TransferCheck {
    pub next: u64,
    pub passed: bool,
}

/// The transfer of a cycle as it is published, by server.
#[derive(Debug, Clone)]
pub struct CycleTransferStats {
    pub name: String,
    pub from: u64,
    pub to: u64,
    pub max: u64,
    pub min: u64,
    pub server_name: HashMap<u64, String>,
    pub transfer: HashMap<u64, u64>,
    pub next_update: HashMap<u64, u64>,
}

/// What a `CycleTransferStats` holds.
pub struct StatsView {
    pub name: Seq<char>,
    pub from: u64,
    pub to: u64,
    pub max: u64,
    pub min: u64,
    pub server_name: Map<u64, Seq<char>>,
    pub transfer: Map<u64, u64>,
    pub next_update: Map<u64, u64>,
}

/// The texts of a map.
pub open spec fn names(m: Map<u64, String>) -> Map<u64, Seq<char>> {
    m.map_values(|s: String| s@)
}

proof fn lemma_names_insert(m: Map<u64, String>, k: u64, s: String)
    ensures
        names(m.insert(k, s)) == names(m).insert(k, s@),
{
    assert(names(m.insert(k, s)) =~= names(m).insert(k, s@));
}

impl View for CycleTransferStats {
    type V = StatsView;

    open spec fn view(&self) -> StatsView {
        StatsView {
            name: self.name@,
            from: self.from,
            to: self.to,
            max: self.max,
            min: self.min,
            server_name: names(self.server_name@),
            transfer: self.transfer@,
            next_update: self.next_update@,
        }
    }
}

pub open spec fn view_opt(stats: Option<CycleTransferStats>) -> Option<StatsView> {
    match stats {
        Some(s) => Some(s@),
        None => None,
    }
}

/// The statistics with the entries of the server as they were last round.
pub open spec fn with_cached(stats: StatsView, cached: Option<StatsView>, server_id: u64) -> StatsView {
    match cached {
        None => stats,
        Some(c) => StatsView {
            from: c.from,
            to: c.to,
            server_name: if c.server_name.contains_key(server_id) {
                stats.server_name.insert(server_id, c.server_name[server_id])
            } else {
                stats.server_name
            },
            transfer: if c.transfer.contains_key(server_id) {
                stats.transfer.insert(server_id, c.transfer[server_id])
            } else {
                stats.transfer
            },
            next_update: if c.next_update.contains_key(server_id) {
                stats.next_update.insert(server_id, c.next_update[server_id])
            } else {
                stats.next_update
            },
            ..stats
        },
    }
}

/// Takes over the entries of the server from last round.
pub fn copy_cached_cycle_transfer_stats(
    cached: Option<&CycleTransferStats>,
    current: &mut CycleTransferStats,
    server_id: u64,
)
    ensures
        final(current)@ == with_cached(
            old(current)@,
            match cached {
                Some(c) => Some(c@),
                None => None,
            },
            server_id,
        ),
{
    broadcast use vstd::std_specs::hash::group_hash_axioms;

    match cached {
        None => {},
        Some(c) => {
            current.from = c.from;
            current.to = c.to;
            match c.server_name.get(&server_id) {
                Some(name) => {
                    let copy = name.clone();
                    proof {
                        lemma_names_insert(current.server_name@, server_id, copy);
                    }
                    current.server_name.insert(server_id, copy);
                },
                None => {},
            }
            match c.transfer.get(&server_id) {
                Some(t) => {
                    current.transfer.insert(server_id, *t);
                },
                None => {},
            }
            match c.next_update.get(&server_id) {
                Some(t) => {
                    current.next_update.insert(server_id, *t);
                },
                None => {},
            }
        },
    }
}

/// Whether the calendar holds the second with the bits of `n`.
pub open spec fn dated(n: u64) -> bool {
    moment::in_calendar(convert::wrapped(n))
}

/// The second, where the calendar holds it.
pub open spec fn dated_opt(n: Option<u64>) -> Option<u64> {
    match n {
        Some(s) => if dated(s) {
            Some(s)
        } else {
            None
        },
        None => None,
    }
}

fn dated_second(n: Option<u64>) -> (r: Option<u64>)
    ensures
        r == dated_opt(n),
{
    match n {
        Some(s) => if calendar_holds(wrap_i64(s)) {
            Some(s)
        } else {
            None
        },
        None => None,
    }
}

/// The statistics with a new measure of the server.
pub open spec fn with_measure(
    stats: StatsView,
    rule: Json,
    server: PublicServer,
    transfer: u64,
    next_update: u64,
    now: u64,
) -> StatsView {
    StatsView {
        from: match dated_opt(cycle::cycle_begin(rule, now)) {
            Some(s) => s,
            None => stats.from,
        },
        to: match dated_opt(cycle::cycle_finish(rule, now)) {
            Some(s) => s,
            None => stats.to,
        },
        server_name: stats.server_name.insert(server.id, server.name@),
        transfer: stats.transfer.insert(server.id, transfer),
        next_update: if dated(next_update) {
            stats.next_update.insert(server.id, next_update)
        } else {
            stats.next_update
        },
        ..stats
    }
}

/// Enters a new measure of the server.
pub fn update_cycle_transfer_stats(
    rule: &Json,
    stats: &mut CycleTransferStats,
    server: &PublicServer,
    transfer: u64,
    next_update_unix: u64,
    now_unix: u64,
)
    requires
        cycle::cycle_is_countable(*rule),
    ensures
        final(stats)@ == with_measure(
            old(stats)@,
            *rule,
            *server,
            transfer,
            next_update_unix,
            now_unix,
        ),
{
    broadcast use vstd::std_specs::hash::group_hash_axioms;

    match dated_second(transfer_cycle_start(rule, now_unix)) {
        Some(from) => {
            stats.from = from;
        },
        None => {},
    }
    match dated_second(transfer_cycle_end(rule, now_unix)) {
        Some(to) => {
            stats.to = to;
        },
        None => {},
    }
    let copy = server.name.clone();
    proof {
        lemma_names_insert(stats.server_name@, server.id, copy);
    }
    stats.server_name.insert(server.id, copy);
    stats.transfer.insert(server.id, transfer);
    match dated_second(Some(next_update_unix)) {
        Some(t) => {
            stats.next_update.insert(server.id, t);
        },
        None => {},
    }
}

/// The first rule from number `i` on that counts a cycle, or the number of
/// rules.
pub open spec fn first_cycle_rule(rules: Seq<Json>, i: int) -> int
    decreases rules.len() - i,
{
    if i >= rules.len() {
        rules.len() as int
    } else if rules::counts_cycle(rules::kind_of(rules[i])) {
        i
    } else {
        first_cycle_rule(rules, i + 1)
    }
}

/// The statistics that an alert starts a round with: none where it has no rule
/// about a cycle or the cycle has no dates.
pub open spec fn fresh_stats(alert: AlertRuleResource, now: u64) -> Option<StatsView> {
    let i = first_cycle_rule(alert.rules@, 0);
    if i >= alert.rules@.len() {
        None
    } else {
        let rule = alert.rules@[i];
        match (dated_opt(cycle::cycle_begin(rule, now)), dated_opt(cycle::cycle_finish(rule, now))) {
            (Some(from), Some(to)) => Some(
                StatsView {
                    name: alert.name@,
                    from,
                    to,
                    max: json::u64_member(rule, "max"@),
                    min: json::u64_member(rule, "min"@),
                    server_name: Map::empty(),
                    transfer: Map::empty(),
                    next_update: Map::empty(),
                },
            ),
            _ => None,
        }
    }
}

/// Whether the cycle of a rule can be counted, where the rule is about one.
pub open spec fn rule_is_countable(rule: Json) -> bool {
    rules::counts_cycle(rules::kind_of(rule)) ==> cycle::cycle_is_countable(rule)
}

/// Whether the cycles that the rules of an alert are about can be counted.
pub open spec fn alert_is_countable(alert: AlertRuleResource) -> bool {
    forall|i: int| 0 <= i < alert.rules@.len() ==> rule_is_countable(#[trigger] alert.rules@[i])
}

/// Whether the cycles that the rules of an alert are about can be counted.
pub fn cycles_are_countable(alert: &AlertRuleResource) -> (r: bool)
    ensures
        r == alert_is_countable(*alert),
{
    let mut i: usize = 0;
    while i < alert.rules.len()
        invariant
            i <= alert.rules@.len(),
            forall|k: int| 0 <= k < i ==> rule_is_countable(#[trigger] alert.rules@[k]),
        decreases alert.rules@.len() - i,
    {
        let rule = &alert.rules[i];
        if is_transfer_cycle_rule(rule_type(rule)) && !rule_cycle_is_countable(rule) {
            proof {
                assert(!rule_is_countable(alert.rules@[i as int]));
            }
            return false;
        }
        i += 1;
    }
    true
}

/// The statistics that an alert starts a round with.
pub fn ensure_alert_cycle_transfer_stats(alert: &AlertRuleResource, now_unix: u64) -> (r: Option<
    CycleTransferStats,
>)
    requires
        alert_is_countable(*alert),
    ensures
        view_opt(r) == fresh_stats(*alert, now_unix),
{
    broadcast use vstd::std_specs::hash::group_hash_axioms;

    let mut i: usize = 0;
    while i < alert.rules.len() && !is_transfer_cycle_rule(rule_type(&alert.rules[i]))
        invariant
            i <= alert.rules@.len(),
            first_cycle_rule(alert.rules@, i as int) == first_cycle_rule(alert.rules@, 0),
        decreases alert.rules@.len() - i,
    {
        i += 1;
    }
    if i == alert.rules.len() {
        return None;
    }
    let rule = &alert.rules[i];
    let from: u64 = match dated_second(transfer_cycle_start(rule, now_unix)) {
        Some(s) => s,
        None => {
            return None;
        },
    };
    let to: u64 = match dated_second(transfer_cycle_end(rule, now_unix)) {
        Some(s) => s,
        None => {
            return None;
        },
    };
    let stats = CycleTransferStats {
        name: alert.name.clone(),
        from,
        to,
        max: u64_field(rule, "max"),
        min: u64_field(rule, "min"),
        server_name: HashMap::new(),
        transfer: HashMap::new(),
        next_update: HashMap::new(),
    };
    proof {
        assert(stats@.server_name =~= Map::empty());
    }
    Some(stats)
}

/// What is remembered of an alert on a server between two rounds: the newest
/// readings, the last outcome and the measured cycles.
pub struct AlertTrack {
    pub samples: Vec<Vec<bool>>,
    pub prev: u8,
    pub checks: HashMap<usize, TransferCheck>,
}

/// What an `AlertTrack` holds.
pub struct TrackView {
    pub samples: Seq<Seq<bool>>,
    pub prev: u8,
    pub checks: Map<usize, TransferCheck>,
}

impl View for AlertTrack {
    type V = TrackView;

    open spec fn view(&self) -> TrackView {
        TrackView { samples: rules::rows(self.samples@), prev: self.prev, checks: self.checks@ }
    }
}

/// Nothing remembered.
pub open spec fn new_track() -> TrackView {
    TrackView { samples: seq![], prev: 0, checks: Map::empty() }
}

/// Whether a server that reported last at `last_active` counts as online.
pub open spec fn online(last_active: u64, now: u64) -> bool {
    last_active != 0 && now - last_active <= 6
}

/// What one rule makes of a server in this round: whether it passes, the
/// measured cycles and the statistics.
pub open spec fn rule_step(
    rule: Json,
    index: usize,
    server: PublicServer,
    reading: RuleReading,
    now: u64,
    checks: Map<usize, TransferCheck>,
    stats: Option<StatsView>,
    cached: Option<StatsView>,
) -> (bool, Map<usize, TransferCheck>, Option<StatsView>) {
    if rules::excludes(rule, server.id) {
        (true, checks, stats)
    } else if rules::kind_of(rule) == "offline"@ {
        (online(server.last_active, now), checks, stats)
    } else if rules::counts_cycle(rules::kind_of(rule))
        && checks.contains_key(index) && checks[index].next
        > now {
        (
            checks[index].passed,
            checks,
            match stats {
                Some(s) => Some(with_cached(s, cached, server.id)),
                None => None,
            },
        )
    } else {
        match reading {
            RuleReading::Missing => (true, checks, stats),
            RuleReading::Measured { within, transfer, next_update } => if rules::counts_cycle(
                rules::kind_of(rule),
            ) {
                (
                    within,
                    checks.insert(index, TransferCheck { next: next_update, passed: within }),
                    match stats {
                        Some(s) => Some(
                            with_measure(s, rule, server, transfer, next_update, now),
                        ),
                        None => None,
                    },
                )
            } else {
                (within, checks, stats)
            },
        }
    }
}

/// What one rule makes of a server in this round. A rule that is not about the
/// server passes. The offline rule looks at when the server reported last. A
/// rule about a cycle keeps its measure until the time it set; any other rule
/// goes by its reading, and passes where there is none.
pub fn rule_snapshot(
    rule: &Json,
    rule_index: usize,
    server: &PublicServer,
    reading: RuleReading,
    now_unix: u64,
    checks: &mut HashMap<usize, TransferCheck>,
    stats: &mut Option<CycleTransferStats>,
    cached: Option<&CycleTransferStats>,
) -> (r: bool)
    requires
        rule_is_countable(*rule),
    ensures
        (r, final(checks)@, view_opt(*final(stats))) == rule_step(
            *rule,
            rule_index,
            *server,
            reading,
            now_unix,
            old(checks)@,
            view_opt(*old(stats)),
            match cached {
                Some(c) => Some(c@),
                None => None,
            },
        ),
{
    broadcast use vstd::std_specs::hash::group_hash_axioms;

    if rule_excludes_server(rule, server.id) {
        return true;
    }
    let kind = rule_type(rule);
    if is_offline_rule(kind) {
        return server.last_active != 0 && now_unix.saturating_sub(server.last_active) <= 6;
    }
    let cycle: bool = is_transfer_cycle_rule(kind);
    if cycle {
        let known: Option<TransferCheck> = match checks.get(&rule_index) {
            Some(c) => Some(*c),
            None => None,
        };
        match known {
            Some(c) => {
                if c.next > now_unix {
                    let taken = stats.take();
                    match taken {
                        Some(mut s) => {
                            copy_cached_cycle_transfer_stats(cached, &mut s, server.id);
                            *stats = Some(s);
                        },
                        None => {},
                    }
                    return c.passed;
                }
            },
            None => {},
        }
    }
    match reading {
        RuleReading::Missing => true,
        RuleReading::Measured { within, transfer, next_update } => {
            if cycle {
                checks.insert(rule_index, TransferCheck { next: next_update, passed: within });
                let taken = stats.take();
                match taken {
                    Some(mut s) => {
                        update_cycle_transfer_stats(
                            rule,
                            &mut s,
                            server,
                            transfer,
                            next_update,
                            now_unix,
                        );
                        *stats = Some(s);
                    },
                    None => {},
                }
            }
            within
        },
    }
}

/// What the first `k` rules of an alert make of a server in this round.
pub open spec fn snapshot_fold(
    alert: AlertRuleResource,
    server: PublicServer,
    readings: Seq<RuleReading>,
    now: u64,
    checks: Map<usize, TransferCheck>,
    stats: Option<StatsView>,
    cached: Option<StatsView>,
    k: nat,
) -> (Seq<bool>, Map<usize, TransferCheck>, Option<StatsView>)
    decreases k,
{
    if k == 0 {
        (seq![], checks, stats)
    } else {
        let before = snapshot_fold(
            alert,
            server,
            readings,
            now,
            checks,
            stats,
            cached,
            (k - 1) as nat,
        );
        let step = rule_step(
            alert.rules@[k - 1],
            (k - 1) as usize,
            server,
            reading_at(readings, k - 1),
            now,
            before.1,
            before.2,
            cached,
        );
        (before.0.push(step.0), step.1, step.2)
    }
}

/// What the rules of an alert make of a server in this round, one by one.
pub fn alert_snapshot(
    alert: &AlertRuleResource,
    server: &PublicServer,
    readings: &Vec<RuleReading>,
    now_unix: u64,
    checks: &mut HashMap<usize, TransferCheck>,
    stats: &mut Option<CycleTransferStats>,
    cached: Option<&CycleTransferStats>,
) -> (r: Vec<bool>)
    requires
        alert_is_countable(*alert),
    ensures
        (r@, final(checks)@, view_opt(*final(stats))) == snapshot_fold(
            *alert,
            *server,
            readings@,
            now_unix,
            old(checks)@,
            view_opt(*old(stats)),
            match cached {
                Some(c) => Some(c@),
                None => None,
            },
            alert.rules@.len(),
        ),
{
    let mut point: Vec<bool> = Vec::new();
    let ghost checks0 = checks@;
    let ghost stats0 = view_opt(*stats);
    let ghost cached_view = match cached {
        Some(c) => Some(c@),
        None => None,
    };
    let mut i: usize = 0;
    while i < alert.rules.len()
        invariant
            i <= alert.rules@.len(),
            alert_is_countable(*alert),
            cached_view == (match cached {
                Some(c) => Some(c@),
                None => None,
            }),
            (point@, checks@, view_opt(*stats)) == snapshot_fold(
                *alert,
                *server,
                readings@,
                now_unix,
                checks0,
                stats0,
                cached_view,
                i as nat,
            ),
        decreases alert.rules@.len() - i,
    {
        let reading: RuleReading = if i < readings.len() {
            readings[i]
        } else {
            RuleReading::Missing
        };
        let ok: bool = rule_snapshot(
            &alert.rules[i],
            i,
            server,
            reading,
            now_unix,
            checks,
            stats,
            cached,
        );
        point.push(ok);
        i += 1;
    }
    point
}

/// How an alert stands on a server after a round.
#[derive(Debug, Clone, Copy, PartialEq, Eq, Structural)]
pub enum Outcome {
    Quiet,
    Incident,
    Resolved,
}

/// What a round makes of the readings of an alert on a server: what is
/// remembered, and whether an incident begins or ends. A failed round is an
/// incident where the one before did not fail, and always in the mode that
/// triggers always. Only as many readings are kept as the rules look back on.
pub open spec fn track_after(
    track: TrackView,
    alert: AlertRuleResource,
    point: Seq<bool>,
    checks: Map<usize, TransferCheck>,
) -> (TrackView, Outcome) {
    let samples = track.samples.push(point);
    let v = rules::verdict(alert.rules@, samples, alert.rules@.len());
    let kept = if v.0 < samples.len() {
        samples.skip(samples.len() - v.0)
    } else {
        samples
    };
    if v.1 {
        (
            TrackView { samples: kept, prev: RULE_CHECK_PASS, checks },
            if track.prev == RULE_CHECK_FAIL {
                Outcome::Resolved
            } else {
                Outcome::Quiet
            },
        )
    } else if alert.trigger_mode == ALERT_MODE_ALWAYS_TRIGGER || track.prev != RULE_CHECK_FAIL {
        (TrackView { samples: kept, prev: RULE_CHECK_FAIL, checks }, Outcome::Incident)
    } else {
        (TrackView { samples: kept, prev: track.prev, checks }, Outcome::Quiet)
    }
}

/// Enters the readings of a round.
pub fn advance_track(track: &mut AlertTrack, alert: &AlertRuleResource, point: Vec<bool>) -> (r:
    Outcome)
    ensures
        (final(track)@, r) == track_after(old(track)@, *alert, point@, old(track).checks@),
{
    let ghost before = track@;
    let ghost row = point@;
    track.samples.push(point);
    proof {
        assert(rules::rows(track.samples@) =~= before.samples.push(row));
    }
    let check = alert_check(&alert.rules, &track.samples);
    let keep: u64 = check.0;
    let outcome = if !check.1 {
        if alert.trigger_mode == ALERT_MODE_ALWAYS_TRIGGER || track.prev != RULE_CHECK_FAIL {
            track.prev = RULE_CHECK_FAIL;
            Outcome::Incident
        } else {
            Outcome::Quiet
        }
    } else {
        let was: u8 = track.prev;
        track.prev = RULE_CHECK_PASS;
        if was == RULE_CHECK_FAIL {
            Outcome::Resolved
        } else {
            Outcome::Quiet
        }
    };
    if keep < track.samples.len() as u64 {
        let from: usize = track.samples.len() - keep as usize;
        let ghost all = track.samples@;
        let newest = track.samples.split_off(from);
        proof {
            assert(rules::rows(newest@) =~= rules::rows(all).skip(from as int));
        }
        track.samples = newest;
    }
    outcome
}

/// A message to a notification group about an alert on a server, and the
/// scheduled tasks to start there.
pub struct AlertAction {
    pub server_id: u64,
    pub notification_group_id: u64,
    pub message: String,
    pub trigger_crons: Vec<u64>,
}

/// What an `AlertAction` holds.
pub struct ActionView {
    pub server_id: u64,
    pub notification_group_id: u64,
    pub message: Seq<char>,
    pub trigger_crons: Seq<u64>,
}

impl View for AlertAction {
    type V = ActionView;

    open spec fn view(&self) -> ActionView {
        ActionView {
            server_id: self.server_id,
            notification_group_id: self.notification_group_id,
            message: self.message@,
            trigger_crons: self.trigger_crons@,
        }
    }
}

/// The actions that `v` holds.
pub open spec fn action_views(v: Seq<AlertAction>) -> Seq<ActionView> {
    v.map_values(|a: AlertAction| a@)
}

/// Whether an alert may start the task: it is one of the alert's, alerts start
/// it, and it belongs to the alert's owner or the owner is an administrator.
pub open spec fn alert_starts(
    cron: CronResource,
    ids: Seq<u64>,
    owner: u64,
    owner_is_admin: bool,
) -> bool {
    ids.contains(cron.id) && cron.cover == CRON_COVER_ALERT_TRIGGER && (owner_is_admin
        || cron.user_id == owner)
}

/// The numbers of those of `crons` that an alert may start.
pub open spec fn alert_tasks(
    crons: Seq<CronResource>,
    ids: Seq<u64>,
    owner: u64,
    owner_is_admin: bool,
) -> Seq<u64>
    decreases crons.len(),
{
    if crons.len() == 0 {
        seq![]
    } else {
        let rest = alert_tasks(crons.drop_last(), ids, owner, owner_is_admin);
        if alert_starts(crons.last(), ids, owner, owner_is_admin) {
            rest.push(crons.last().id)
        } else {
            rest
        }
    }
}

/// Whether `id` is among `ids`.
pub fn contains_id(ids: &[u64], id: u64) -> (r: bool)
    ensures
        r == ids@.contains(id),
{
    let mut i: usize = 0;
    while i < ids.len()
        invariant
            i <= ids@.len(),
            forall|k: int| 0 <= k < i ==> ids@[k] != id,
        decreases ids@.len() - i,
    {
        if ids[i] == id {
            return true;
        }
        i += 1;
    }
    false
}

fn alert_task_ids(crons: &Vec<CronResource>, ids: &Vec<u64>, owner: u64, owner_is_admin: bool) -> (r:
    Vec<u64>)
    ensures
        r@ == alert_tasks(crons@, ids@, owner, owner_is_admin),
{
    let mut out: Vec<u64> = Vec::new();
    let mut i: usize = 0;
    while i < crons.len()
        invariant
            i <= crons@.len(),
            out@ == alert_tasks(crons@.take(i as int), ids@, owner, owner_is_admin),
        decreases crons@.len() - i,
    {
        proof {
            assert(crons@.take(i + 1).drop_last() =~= crons@.take(i as int));
        }
        let cron = &crons[i];
        if contains_id(ids, cron.id) && cron.cover == CRON_COVER_ALERT_TRIGGER && (owner_is_admin
            || cron.user_id == owner) {
            out.push(cron.id);
        }
        i += 1;
    }
    proof {
        assert(crons@.take(crons@.len() as int) =~= crons@);
    }
    out
}

/// The action of an alert with the given word for what happened and the given
/// tasks to start.
pub open spec fn action_of(
    status: Seq<char>,
    alert: AlertRuleResource,
    server: PublicServer,
    crons: Seq<CronResource>,
    ids: Seq<u64>,
    owner_is_admin: bool,
) -> ActionView {
    ActionView {
        server_id: server.id,
        notification_group_id: alert.notification_group_id,
        message: "["@ + status + "] "@ + server.name@ + " "@ + alert.name@,
        trigger_crons: alert_tasks(crons, ids, alert.user_id, owner_is_admin),
    }
}

/// The action that an outcome asks for.
pub open spec fn action_for(
    outcome: Outcome,
    alert: AlertRuleResource,
    server: PublicServer,
    crons: Seq<CronResource>,
    owner_is_admin: bool,
) -> Seq<ActionView> {
    match outcome {
        Outcome::Quiet => seq![],
        Outcome::Incident => seq![
            action_of(
                "Incident"@,
                alert,
                server,
                crons,
                alert.fail_trigger_tasks@,
                owner_is_admin,
            ),
        ],
        Outcome::Resolved => seq![
            action_of(
                "Resolved"@,
                alert,
                server,
                crons,
                alert.recover_trigger_tasks@,
                owner_is_admin,
            ),
        ],
    }
}

impl AlertAction {
    fn of(
        status: &str,
        alert: &AlertRuleResource,
        server: &PublicServer,
        crons: &Vec<CronResource>,
        trigger_task_ids: &Vec<u64>,
        alert_owner_is_admin: bool,
    ) -> (r: AlertAction)
        ensures
            r@ == action_of(
                status@,
                *alert,
                *server,
                crons@,
                trigger_task_ids@,
                alert_owner_is_admin,
            ),
    {
        let mut message = "[".to_owned();
        message.append(status);
        message.append("] ");
        message.append(server.name.as_str());
        message.append(" ");
        message.append(alert.name.as_str());
        AlertAction {
            server_id: server.id,
            notification_group_id: alert.notification_group_id,
            message,
            trigger_crons: alert_task_ids(
                crons,
                trigger_task_ids,
                alert.user_id,
                alert_owner_is_admin,
            ),
        }
    }

    /// The action at the start of an incident.
    pub fn incident(
        alert: &AlertRuleResource,
        server: &PublicServer,
        crons: &Vec<CronResource>,
        alert_owner_is_admin: bool,
    ) -> (r: AlertAction)
        ensures
            seq![r@] == action_for(
                Outcome::Incident,
                *alert,
                *server,
                crons@,
                alert_owner_is_admin,
            ),
    {
        AlertAction::of(
            "Incident",
            alert,
            server,
            crons,
            &alert.fail_trigger_tasks,
            alert_owner_is_admin,
        )
    }

    /// The action at the end of an incident.
    pub fn resolved(
        alert: &AlertRuleResource,
        server: &PublicServer,
        crons: &Vec<CronResource>,
        alert_owner_is_admin: bool,
    ) -> (r: AlertAction)
        ensures
            seq![r@] == action_for(
                Outcome::Resolved,
                *alert,
                *server,
                crons@,
                alert_owner_is_admin,
            ),
    {
        AlertAction::of(
            "Resolved",
            alert,
            server,
            crons,
            &alert.recover_trigger_tasks,
            alert_owner_is_admin,
        )
    }
}

/// What is remembered of the servers of one alert.
pub open spec fn track_views(m: Map<u64, AlertTrack>) -> Map<u64, TrackView> {
    m.map_values(|t: AlertTrack| t@)
}

/// What is remembered of a server.
pub open spec fn track_of(tracks: Map<u64, TrackView>, server_id: u64) -> TrackView {
    if tracks.contains_key(server_id) {
        tracks[server_id]
    } else {
        new_track()
    }
}

/// The readings of the server number `j`.
pub open spec fn readings_of(readings: Seq<Vec<RuleReading>>, j: int) -> Seq<RuleReading> {
    if 0 <= j < readings.len() {
        readings[j]@
    } else {
        seq![]
    }
}

/// How far the round of an alert has come: what is remembered of each server,
/// the actions so far and the statistics.
pub struct AlertRound {
    pub tracks: Map<u64, TrackView>,
    pub actions: Seq<ActionView>,
    pub stats: Option<StatsView>,
}

/// The round of an alert with one more server. An alert is not about the
/// servers of others, unless its owner is an administrator.
pub open spec fn round_step(
    round: AlertRound,
    alert: AlertRuleResource,
    server: PublicServer,
    readings: Seq<RuleReading>,
    now: u64,
    crons: Seq<CronResource>,
    owner_is_admin: bool,
    cached: Option<StatsView>,
) -> AlertRound {
    if alert.user_id != server.user_id && !owner_is_admin {
        round
    } else {
        let track = track_of(round.tracks, server.id);
        let snap = snapshot_fold(
            alert,
            server,
            readings,
            now,
            track.checks,
            round.stats,
            cached,
            alert.rules@.len(),
        );
        let after = track_after(track, alert, snap.0, snap.1);
        AlertRound {
            tracks: round.tracks.insert(server.id, after.0),
            actions: round.actions + action_for(after.1, alert, server, crons, owner_is_admin),
            stats: snap.2,
        }
    }
}

/// The round of an alert over the first `k` servers.
pub open spec fn round_fold(
    start: AlertRound,
    alert: AlertRuleResource,
    servers: Seq<PublicServer>,
    readings: Seq<Vec<RuleReading>>,
    now: u64,
    crons: Seq<CronResource>,
    owner_is_admin: bool,
    cached: Option<StatsView>,
    k: nat,
) -> AlertRound
    decreases k,
{
    if k == 0 {
        start
    } else {
        round_step(
            round_fold(
                start,
                alert,
                servers,
                readings,
                now,
                crons,
                owner_is_admin,
                cached,
                (k - 1) as nat,
            ),
            alert,
            servers[k - 1],
            readings_of(readings, k - 1),
            now,
            crons,
            owner_is_admin,
            cached,
        )
    }
}

fn tick_server(
    alert: &AlertRuleResource,
    server: &PublicServer,
    readings: &Vec<RuleReading>,
    now_unix: u64,
    crons: &Vec<CronResource>,
    owner_is_admin: bool,
    tracks: &mut HashMap<u64, AlertTrack>,
    actions: &mut Vec<AlertAction>,
    stats: &mut Option<CycleTransferStats>,
    cached: Option<&CycleTransferStats>,
)
    requires
        alert_is_countable(*alert),
    ensures
        (AlertRound {
            tracks: track_views(final(tracks)@),
            actions: action_views(final(actions)@),
            stats: view_opt(*final(stats)),
        }) == round_step(
            (AlertRound {
                tracks: track_views(old(tracks)@),
                actions: action_views(old(actions)@),
                stats: view_opt(*old(stats)),
            }),
            *alert,
            *server,
            readings@,
            now_unix,
            crons@,
            owner_is_admin,
            match cached {
                Some(c) => Some(c@),
                None => None,
            },
        ),
{
    broadcast use vstd::std_specs::hash::group_hash_axioms;

    if alert.user_id != server.user_id && !owner_is_admin {
        return;
    }
    let ghost tracks0 = tracks@;
    let ghost actions0 = actions@;
    let mut track: AlertTrack = match tracks.remove(&server.id) {
        Some(t) => t,
        None => AlertTrack { samples: Vec::new(), prev: 0, checks: HashMap::new() },
    };
    proof {
        if !tracks0.contains_key(server.id) {
            assert(track@.samples =~= new_track().samples);
            assert(track@.checks =~= new_track().checks);
        }
        assert(track@ == track_of(track_views(tracks0), server.id));
    }
    let ghost before = track@;
    let point = alert_snapshot(
        alert,
        server,
        readings,
        now_unix,
        &mut track.checks,
        stats,
        cached,
    );
    let ghost mid = track@;
    let outcome = advance_track(&mut track, alert, point);
    let ghost after = track@;
    proof {
        assert(mid.samples == before.samples && mid.prev == before.prev);
        assert((after, outcome) == track_after(before, *alert, point@, mid.checks));
        assert(track_views(tracks0.remove(server.id).insert(server.id, track)) =~= track_views(
            tracks0,
        ).insert(server.id, after));
    }
    tracks.insert(server.id, track);
    match outcome {
        Outcome::Quiet => {
            proof {
                assert(action_views(actions@) =~= action_views(actions0) + action_for(
                    outcome,
                    *alert,
                    *server,
                    crons@,
                    owner_is_admin,
                ));
            }
        },
        Outcome::Incident => {
            let action = AlertAction::incident(alert, server, crons, owner_is_admin);
            proof {
                assert(action_views(actions0.push(action)) =~= action_views(actions0) + seq![
                    action@,
                ]);
            }
            actions.push(action);
        },
        Outcome::Resolved => {
            let action = AlertAction::resolved(alert, server, crons, owner_is_admin);
            proof {
                assert(action_views(actions0.push(action)) =~= action_views(actions0) + seq![
                    action@,
                ]);
            }
            actions.push(action);
        },
    }
}

/// One round of an alert over all servers: enters the readings, adds the
/// actions that follow, and carries on the statistics of its cycle.
pub fn tick_alert(
    alert: &AlertRuleResource,
    servers: &Vec<PublicServer>,
    readings: &Vec<Vec<RuleReading>>,
    now_unix: u64,
    crons: &Vec<CronResource>,
    owner_is_admin: bool,
    tracks: &mut HashMap<u64, AlertTrack>,
    actions: &mut Vec<AlertAction>,
    stats: &mut Option<CycleTransferStats>,
    cached: Option<&CycleTransferStats>,
)
    requires
        alert_is_countable(*alert),
    ensures
        (AlertRound {
            tracks: track_views(final(tracks)@),
            actions: action_views(final(actions)@),
            stats: view_opt(*final(stats)),
        }) == round_fold(
            (AlertRound {
                tracks: track_views(old(tracks)@),
                actions: action_views(old(actions)@),
                stats: view_opt(*old(stats)),
            }),
            *alert,
            servers@,
            readings@,
            now_unix,
            crons@,
            owner_is_admin,
            match cached {
                Some(c) => Some(c@),
                None => None,
            },
            servers@.len(),
        ),
{
    let ghost start = AlertRound {
        tracks: track_views(tracks@),
        actions: action_views(actions@),
        stats: view_opt(*stats),
    };
    let ghost cached_view = match cached {
        Some(c) => Some(c@),
        None => None,
    };
    let none: Vec<RuleReading> = Vec::new();
    let mut j: usize = 0;
    while j < servers.len()
        invariant
            j <= servers@.len(),
            alert_is_countable(*alert),
            none@ == Seq::<RuleReading>::empty(),
            cached_view == (match cached {
                Some(c) => Some(c@),
                None => None,
            }),
            (AlertRound {
                tracks: track_views(tracks@),
                actions: action_views(actions@),
                stats: view_opt(*stats),
            }) == round_fold(
                start,
                *alert,
                servers@,
                readings@,
                now_unix,
                crons@,
                owner_is_admin,
                cached_view,
                j as nat,
            ),
        decreases servers@.len() - j,
    {
        let row: &Vec<RuleReading> = if j < readings.len() {
            &readings[j]
        } else {
            &none
        };
        tick_server(
            alert,
            &servers[j],
            row,
            now_unix,
            crons,
            owner_is_admin,
            tracks,
            actions,
            stats,
            cached,
        );
        j += 1;
    }
}

/// What is remembered between two rounds: of each alert and server, and the
/// statistics that were published last.
pub struct AlertRuntime {
    pub tracks: HashMap<u64, HashMap<u64, AlertTrack>>,
    pub cycle_transfer_stats: HashMap<u64, CycleTransferStats>,
}

/// What is remembered of all alerts.
pub open spec fn all_track_views(m: Map<u64, HashMap<u64, AlertTrack>>) -> Map<
    u64,
    Map<u64, TrackView>,
> {
    m.map_values(|t: HashMap<u64, AlertTrack>| track_views(t@))
}

/// The published statistics.
pub open spec fn stats_views(m: Map<u64, CycleTransferStats>) -> Map<u64, StatsView> {
    m.map_values(|c: CycleTransferStats| c@)
}

/// How far a round has come.
pub struct TickView {
    pub tracks: Map<u64, Map<u64, TrackView>>,
    pub actions: Seq<ActionView>,
    pub cycle: Map<u64, StatsView>,
}

/// Whether an alert is watched: it is switched on and has rules.
pub open spec fn watched(alert: AlertRuleResource) -> bool {
    alert.enable == Some(true) && alert.rules@.len() > 0
}

/// Whether an alert is watched.
pub fn alert_enabled(alert: &AlertRuleResource) -> (r: bool)
    ensures
        r == watched(*alert),
{
    match alert.enable {
        Some(on) => on && alert.rules.len() > 0,
        None => false,
    }
}

/// What is remembered of an alert.
pub open spec fn tracks_of(tracks: Map<u64, Map<u64, TrackView>>, id: u64) -> Map<u64, TrackView> {
    if tracks.contains_key(id) {
        tracks[id]
    } else {
        Map::empty()
    }
}

/// The entry of a map, where there is one.
pub open spec fn entry(m: Map<u64, StatsView>, id: u64) -> Option<StatsView> {
    if m.contains_key(id) {
        Some(m[id])
    } else {
        None
    }
}

/// The round with one more alert. Its statistics start afresh, unless an alert
/// with the same number has been there in this round.
pub open spec fn tick_step(
    state: TickView,
    alert: AlertRuleResource,
    owner_is_admin: bool,
    servers: Seq<PublicServer>,
    readings: Seq<Vec<RuleReading>>,
    now: u64,
    crons: Seq<CronResource>,
    published: Map<u64, StatsView>,
) -> TickView {
    if !watched(alert) {
        state
    } else {
        let end = round_fold(
            AlertRound {
                tracks: tracks_of(state.tracks, alert.id),
                actions: state.actions,
                stats: match entry(state.cycle, alert.id) {
                    Some(s) => Some(s),
                    None => fresh_stats(alert, now),
                },
            },
            alert,
            servers,
            readings,
            now,
            crons,
            owner_is_admin,
            entry(published, alert.id),
            servers.len(),
        );
        TickView {
            tracks: state.tracks.insert(alert.id, end.tracks),
            actions: end.actions,
            cycle: match end.stats {
                Some(s) => state.cycle.insert(alert.id, s),
                None => state.cycle.remove(alert.id),
            },
        }
    }
}

/// Whether the owner of the alert number `i` is an administrator.
pub open spec fn admin_at(admins: Seq<bool>, i: int) -> bool {
    0 <= i < admins.len() && admins[i]
}

/// The readings for the alert number `i`.
pub open spec fn alert_readings(readings: Seq<Vec<Vec<RuleReading>>>, i: int) -> Seq<
    Vec<RuleReading>,
> {
    if 0 <= i < readings.len() {
        readings[i]@
    } else {
        seq![]
    }
}

/// The round over the first `k` alerts.
pub open spec fn tick_fold(
    start: TickView,
    alerts: Seq<AlertRuleResource>,
    admins: Seq<bool>,
    servers: Seq<PublicServer>,
    readings: Seq<Vec<Vec<RuleReading>>>,
    now: u64,
    crons: Seq<CronResource>,
    published: Map<u64, StatsView>,
    k: nat,
) -> TickView
    decreases k,
{
    if k == 0 {
        start
    } else {
        tick_step(
            tick_fold(
                start,
                alerts,
                admins,
                servers,
                readings,
                now,
                crons,
                published,
                (k - 1) as nat,
            ),
            alerts[k - 1],
            admin_at(admins, k - 1),
            servers,
            alert_readings(readings, k - 1),
            now,
            crons,
            published,
        )
    }
}

/// One round of all alerts: enters the readings of every alert on every
/// server, publishes the statistics of the cycles, and gives the actions that
/// follow in the order of alerts and servers.
pub fn tick_alerts(
    runtime: &mut AlertRuntime,
    alerts: &Vec<AlertRuleResource>,
    admins: &Vec<bool>,
    servers: &Vec<PublicServer>,
    readings: &Vec<Vec<Vec<RuleReading>>>,
    crons: &Vec<CronResource>,
    now_unix: u64,
) -> (r: Vec<AlertAction>)
    requires
        forall|i: int|
            0 <= i < alerts@.len() && watched(#[trigger] alerts@[i]) ==> alert_is_countable(
                alerts@[i],
            ),
    ensures
        (TickView {
            tracks: all_track_views(final(runtime).tracks@),
            actions: action_views(r@),
            cycle: stats_views(final(runtime).cycle_transfer_stats@),
        }) == tick_fold(
            (TickView {
                tracks: all_track_views(old(runtime).tracks@),
                actions: seq![],
                cycle: Map::empty(),
            }),
            alerts@,
            admins@,
            servers@,
            readings@,
            now_unix,
            crons@,
            stats_views(old(runtime).cycle_transfer_stats@),
            alerts@.len(),
        ),
{
    broadcast use vstd::std_specs::hash::group_hash_axioms;

    let mut actions: Vec<AlertAction> = Vec::new();
    let mut cycle: HashMap<u64, CycleTransferStats> = HashMap::new();
    let ghost published = stats_views(runtime.cycle_transfer_stats@);
    let ghost old_stats = runtime.cycle_transfer_stats;
    let ghost start = TickView {
        tracks: all_track_views(runtime.tracks@),
        actions: Seq::<ActionView>::empty(),
        cycle: Map::<u64, StatsView>::empty(),
    };
    proof {
        assert(action_views(actions@) =~= Seq::<ActionView>::empty());
        assert(stats_views(cycle@) =~= Map::<u64, StatsView>::empty());
    }
    let none: Vec<Vec<RuleReading>> = Vec::new();
    let mut i: usize = 0;
    while i < alerts.len()
        invariant
            i <= alerts@.len(),
            forall|i: int|
                0 <= i < alerts@.len() && watched(#[trigger] alerts@[i]) ==> alert_is_countable(
                    alerts@[i],
                ),
            none@ == Seq::<Vec<RuleReading>>::empty(),
            runtime.cycle_transfer_stats == old_stats,
            published == stats_views(old_stats@),
            (TickView {
                tracks: all_track_views(runtime.tracks@),
                actions: action_views(actions@),
                cycle: stats_views(cycle@),
            }) == tick_fold(
                start,
                alerts@,
                admins@,
                servers@,
                readings@,
                now_unix,
                crons@,
                published,
                i as nat,
            ),
        decreases alerts@.len() - i,
    {
        let alert = &alerts[i];
        let ghost state = TickView {
            tracks: all_track_views(runtime.tracks@),
            actions: action_views(actions@),
            cycle: stats_views(cycle@),
        };
        if alert_enabled(alert) {
            let admin: bool = i < admins.len() && admins[i];
            let rows: &Vec<Vec<RuleReading>> = if i < readings.len() {
                &readings[i]
            } else {
                &none
            };
            let ghost tracks0 = runtime.tracks@;
            let ghost cycle0 = cycle@;
            let mut tracks: HashMap<u64, AlertTrack> = match runtime.tracks.remove(&alert.id) {
                Some(t) => t,
                None => HashMap::new(),
            };
            proof {
                assert(track_views(tracks@) =~= tracks_of(state.tracks, alert.id));
            }
            let mut stats: Option<CycleTransferStats> = match cycle.remove(&alert.id) {
                Some(s) => Some(s),
                None => ensure_alert_cycle_transfer_stats(alert, now_unix),
            };
            let cached = runtime.cycle_transfer_stats.get(&alert.id);
            tick_alert(
                alert,
                servers,
                rows,
                now_unix,
                crons,
                admin,
                &mut tracks,
                &mut actions,
                &mut stats,
                cached,
            );
            let ghost tracks_end = tracks;
            runtime.tracks.insert(alert.id, tracks);
            proof {
                assert(all_track_views(tracks0.remove(alert.id).insert(alert.id, tracks_end))
                    =~= state.tracks.insert(alert.id, track_views(tracks_end@)));
            }
            match stats {
                Some(s) => {
                    let ghost end = s;
                    cycle.insert(alert.id, s);
                    proof {
                        assert(stats_views(cycle0.remove(alert.id).insert(alert.id, end))
                            =~= state.cycle.insert(alert.id, end@));
                    }
                },
                None => {
                    proof {
                        assert(stats_views(cycle0.remove(alert.id)) =~= state.cycle.remove(
                            alert.id,
                        ));
                    }
                },
            }
        }
        i += 1;
    }
    runtime.cycle_transfer_stats = cycle;
    actions
}

/// Outside the mode that triggers always, an incident is told once: while an
/// alert keeps failing on a server there is no other.
pub proof fn incident_is_told_once(
    track: TrackView,
    alert: AlertRuleResource,
    point: Seq<bool>,
    checks: Map<usize, TransferCheck>,
)
    requires
        alert.trigger_mode != ALERT_MODE_ALWAYS_TRIGGER,
        track.prev == RULE_CHECK_FAIL,
    ensures
        track_after(track, alert, point, checks).1 != Outcome::Incident,
{
}

/// What is resolved was an incident before, and is none any more.
pub proof fn resolved_follows_an_incident(
    track: TrackView,
    alert: AlertRuleResource,
    point: Seq<bool>,
    checks: Map<usize, TransferCheck>,
)
    requires
        track_after(track, alert, point, checks).1 == Outcome::Resolved,
    ensures
        track.prev == RULE_CHECK_FAIL,
        track_after(track, alert, point, checks).0.prev == RULE_CHECK_PASS,
{
}

/// No more readings are kept than the rules look back on.
pub proof fn kept_readings_are_bounded(
    track: TrackView,
    alert: AlertRuleResource,
    point: Seq<bool>,
    checks: Map<usize, TransferCheck>,
)
    ensures
        track_after(track, alert, point, checks).0.samples.len() <= rules::verdict(
            alert.rules@,
            track.samples.push(point),
            alert.rules@.len(),
        ).0,
{
}

/// An alert whose owner is no administrator leads to nothing on the servers of
/// others.
pub proof fn servers_of_others_are_left_alone(
    round: AlertRound,
    alert: AlertRuleResource,
    server: PublicServer,
    readings: Seq<RuleReading>,
    now: u64,
    crons: Seq<CronResource>,
    cached: Option<StatsView>,
)
    requires
        alert.user_id != server.user_id,
    ensures
        round_step(round, alert, server, readings, now, crons, false, cached) == round,
{
}

/// A task that an alert starts is one of those it names, waits for alerts, and
/// belongs to the alert's owner or was started by an administrator.
pub proof fn alert_tasks_are_permitted(
    crons: Seq<CronResource>,
    ids: Seq<u64>,
    owner: u64,
    owner_is_admin: bool,
    i: int,
)
    requires
        0 <= i < alert_tasks(crons, ids, owner, owner_is_admin).len(),
    ensures
        exists|c: int|
            0 <= c < crons.len() && #[trigger] crons[c].id == alert_tasks(
                crons,
                ids,
                owner,
                owner_is_admin,
            )[i] && alert_starts(crons[c], ids, owner, owner_is_admin),
    decreases crons.len(),
{
    if crons.len() > 0 {
        let rest = alert_tasks(crons.drop_last(), ids, owner, owner_is_admin);
        if i < rest.len() {
            alert_tasks_are_permitted(crons.drop_last(), ids, owner, owner_is_admin, i);
            let c = choose|c: int|
                0 <= c < crons.drop_last().len() && #[trigger] crons.drop_last()[c].id == rest[i]
                    && alert_starts(crons.drop_last()[c], ids, owner, owner_is_admin);
            assert(crons[c].id == rest[i]);
        } else {
            assert(crons[crons.len() - 1].id == crons.last().id);
        }
    }
}

/// What rounds at the seconds `nows` leave behind, one after the other, with all
/// that they are about unchanged, and the actions that follow from them all.
pub open spec fn after_rounds(
    start: TickView,
    alerts: Seq<AlertRuleResource>,
    admins: Seq<bool>,
    servers: Seq<PublicServer>,
    readings: Seq<Vec<Vec<RuleReading>>>,
    crons: Seq<CronResource>,
    nows: Seq<u64>,
) -> TickView
    decreases nows.len(),
{
    if nows.len() == 0 {
        start
    } else {
        let before = after_rounds(
            start,
            alerts,
            admins,
            servers,
            readings,
            crons,
            nows.drop_last(),
        );
        let round = tick_fold(
            TickView { tracks: before.tracks, actions: seq![], cycle: Map::empty() },
            alerts,
            admins,
            servers,
            readings,
            nows.last(),
            crons,
            before.cycle,
            alerts.len(),
        );
        TickView {
            tracks: round.tracks,
            actions: before.actions + round.actions,
            cycle: round.cycle,
        }
    }
}

/// Nothing remembered, told or published.
pub open spec fn fresh_start() -> TickView {
    TickView { tracks: Map::empty(), actions: seq![], cycle: Map::empty() }
}

/// Whether an alert is watched on a server that fails its one rule, which looks at
/// the newest reading only.
pub open spec fn fails_at_once(
    alert: AlertRuleResource,
    owner_is_admin: bool,
    server: PublicServer,
    reading: RuleReading,
) -> bool {
    let rule = alert.rules@[0];
    &&& watched(alert)
    &&& alert.rules@.len() == 1
    &&& !rules::counts_cycle(rules::kind_of(rule))
    &&& rules::kind_of(rule) != "offline"@
    &&& rules::duration_of(rule) == 1
    &&& !rules::excludes(rule, server.id)
    &&& alert.user_id == server.user_id || owner_is_admin
    &&& reading matches RuleReading::Measured { within, .. } && !within
}

/// A failed reading of such an alert, whatever is remembered of it as long as that
/// is one reading at most.
proof fn lemma_failed_reading(
    track: TrackView,
    alert: AlertRuleResource,
    owner_is_admin: bool,
    server: PublicServer,
    reading: RuleReading,
    checks: Map<usize, TransferCheck>,
)
    requires
        fails_at_once(alert, owner_is_admin, server, reading),
        track.samples.len() <= 1,
    ensures
        ({
            let after = track_after(track, alert, seq![false], checks);
            &&& after.0.samples.len() == 1
            &&& after.0.prev == RULE_CHECK_FAIL
            &&& after.1 == if alert.trigger_mode == ALERT_MODE_ALWAYS_TRIGGER || track.prev
                != RULE_CHECK_FAIL {
                Outcome::Incident
            } else {
                Outcome::Quiet
            }
        }),
{
    let samples = track.samples.push(seq![false]);
    let newest = samples.skip(samples.len() - 1);
    assert(newest =~= seq![seq![false]]);
    assert(newest.drop_last() =~= seq![]);
    reveal_with_fuel(rules::failures, 2);
    assert(rules::failures(newest, 0) == 1);
    reveal_with_fuel(rules::verdict, 2);
    assert(rules::verdict(alert.rules@, samples, 1) == (1u64, false));
}

proof fn lemma_failing_rounds(
    alert: AlertRuleResource,
    owner_is_admin: bool,
    server: PublicServer,
    readings: Seq<Vec<Vec<RuleReading>>>,
    crons: Seq<CronResource>,
    nows: Seq<u64>,
)
    requires
        fails_at_once(
            alert,
            owner_is_admin,
            server,
            reading_at(readings_of(alert_readings(readings, 0), 0), 0),
        ),
    ensures
        ({
            let end = after_rounds(
                fresh_start(),
                seq![alert],
                seq![owner_is_admin],
                seq![server],
                readings,
                crons,
                nows,
            );
            let track = track_of(tracks_of(end.tracks, alert.id), server.id);
            let action = action_of(
                "Incident"@,
                alert,
                server,
                crons,
                alert.fail_trigger_tasks@,
                owner_is_admin,
            );
            &&& track.samples.len() <= 1
            &&& nows.len() == 0 ==> track.prev != RULE_CHECK_FAIL
            &&& nows.len() > 0 ==> track.prev == RULE_CHECK_FAIL
            &&& end.actions == Seq::new(
                if alert.trigger_mode == ALERT_MODE_ALWAYS_TRIGGER || nows.len() == 0 {
                    nows.len()
                } else {
                    1
                },
                |i: int| action,
            )
        }),
    decreases nows.len(),
{
    let alerts = seq![alert];
    let admins = seq![owner_is_admin];
    let servers = seq![server];
    let action = action_of(
        "Incident"@,
        alert,
        server,
        crons,
        alert.fail_trigger_tasks@,
        owner_is_admin,
    );
    if nows.len() == 0 {
        assert(fresh_start().actions =~= Seq::new(0, |i: int| action));
    } else {
        lemma_failing_rounds(alert, owner_is_admin, server, readings, crons, nows.drop_last());
        let before = after_rounds(
            fresh_start(),
            alerts,
            admins,
            servers,
            readings,
            crons,
            nows.drop_last(),
        );
        let start = TickView { tracks: before.tracks, actions: seq![], cycle: Map::empty() };
        let now = nows.last();
        let published = before.cycle;
        let given = alert_readings(readings, 0);
        let row = readings_of(given, 0);
        reveal_with_fuel(tick_fold, 2);
        let round = tick_fold(
            start,
            alerts,
            admins,
            servers,
            readings,
            now,
            crons,
            published,
            alerts.len(),
        );
        assert(round == tick_step(
            start,
            alert,
            owner_is_admin,
            servers,
            given,
            now,
            crons,
            published,
        ));
        let first = AlertRound {
            tracks: tracks_of(start.tracks, alert.id),
            actions: start.actions,
            stats: fresh_stats(alert, now),
        };
        let cached = entry(published, alert.id);
        reveal_with_fuel(round_fold, 2);
        let end = round_fold(
            first,
            alert,
            servers,
            given,
            now,
            crons,
            owner_is_admin,
            cached,
            servers.len(),
        );
        assert(end == round_step(first, alert, server, row, now, crons, owner_is_admin, cached));
        let track = track_of(first.tracks, server.id);
        reveal_with_fuel(snapshot_fold, 2);
        let snap = snapshot_fold(alert, server, row, now, track.checks, first.stats, cached, 1);
        assert(snap.0 =~= seq![false]);
        lemma_failed_reading(
            track,
            alert,
            owner_is_admin,
            server,
            reading_at(row, 0),
            snap.1,
        );
        let after = track_after(track, alert, snap.0, snap.1);
        assert(track_of(tracks_of(round.tracks, alert.id), server.id) == after.0);
        assert(round.actions =~= action_for(after.1, alert, server, crons, owner_is_admin));
        let all = before.actions + round.actions;
        let n = if alert.trigger_mode == ALERT_MODE_ALWAYS_TRIGGER {
            nows.len()
        } else {
            1
        };
        assert(all =~= Seq::new(n, |i: int| action));
    }
}

/// An alert that fails in every round from the first on is told of in every round in
/// the mode that triggers always, and otherwise in the first round only.
pub proof fn failing_rounds_are_told(
    alert: AlertRuleResource,
    owner_is_admin: bool,
    server: PublicServer,
    readings: Seq<Vec<Vec<RuleReading>>>,
    crons: Seq<CronResource>,
    nows: Seq<u64>,
)
    requires
        nows.len() > 0,
        fails_at_once(
            alert,
            owner_is_admin,
            server,
            reading_at(readings_of(alert_readings(readings, 0), 0), 0),
        ),
    ensures
        after_rounds(
            fresh_start(),
            seq![alert],
            seq![owner_is_admin],
            seq![server],
            readings,
            crons,
            nows,
        ).actions == Seq::new(
            if alert.trigger_mode == ALERT_MODE_ALWAYS_TRIGGER {
                nows.len()
            } else {
                1
            },
            |i: int|
                action_of(
                    "Incident"@,
                    alert,
                    server,
                    crons,
                    alert.fail_trigger_tasks@,
                    owner_is_admin,
                ),
        ),
{
    lemma_failing_rounds(alert, owner_is_admin, server, readings, crons, nows);
}

/// A round that fails is an incident where the one before did not fail, and in
/// the mode that triggers always in any case. A round that passes ends the
/// incident of the one before, if that failed. The last outcome is remembered.
pub proof fn incidents_begin_and_end_with_the_verdict(
    track: TrackView,
    alert: AlertRuleResource,
    point: Seq<bool>,
    checks: Map<usize, TransferCheck>,
)
    ensures
        ({
            let passes = rules::verdict(
                alert.rules@,
                track.samples.push(point),
                alert.rules@.len(),
            ).1;
            let after = track_after(track, alert, point, checks);
            &&& after.1 == Outcome::Incident <==> !passes && (alert.trigger_mode == 0 || track.prev
                != RULE_CHECK_FAIL)
            &&& after.1 == Outcome::Resolved <==> passes && track.prev == RULE_CHECK_FAIL
            &&& after.0.prev == RULE_CHECK_FAIL <==> !passes
            &&& after.0.checks == checks
        }),
{
}

/// The newest readings are kept, that of this round among them, in their order
/// and without a gap; readings go only where more are there than the rules look
/// back on.
pub proof fn newest_readings_are_kept(
    track: TrackView,
    alert: AlertRuleResource,
    point: Seq<bool>,
    checks: Map<usize, TransferCheck>,
)
    requires
        rules::verdict(alert.rules@, track.samples.push(point), alert.rules@.len()).0 >= 1,
    ensures
        ({
            let all = track.samples.push(point);
            let kept = track_after(track, alert, point, checks).0.samples;
            let wanted = rules::verdict(alert.rules@, all, alert.rules@.len()).0;
            &&& kept.last() == point
            &&& kept.is_suffix_of(all)
            &&& kept.len() == if all.len() <= wanted {
                all.len() as int
            } else {
                wanted as int
            }
        }),
{
    let all = track.samples.push(point);
    let kept = track_after(track, alert, point, checks).0.samples;
    assert(kept =~= all.skip(all.len() - kept.len()));
}

/// An incident starts the alert's tasks for failure and its end those for
/// recovery: of the tasks that wait for alerts, all that the alert names and its
/// owner may start, and no other. Both are told to the alert's notification
/// group, about the server.
pub proof fn incidents_start_tasks_for_failure(
    alert: AlertRuleResource,
    server: PublicServer,
    crons: Seq<CronResource>,
    owner_is_admin: bool,
)
    ensures
        ({
            let begun = action_for(Outcome::Incident, alert, server, crons, owner_is_admin);
            let ended = action_for(Outcome::Resolved, alert, server, crons, owner_is_admin);
            let quiet = action_for(Outcome::Quiet, alert, server, crons, owner_is_admin);
            let permitted = |c: CronResource|
                c.cover == 2 && (owner_is_admin || c.user_id == alert.user_id);
            &&& quiet.len() == 0
            &&& begun.len() == 1
            &&& ended.len() == 1
            &&& begun[0].server_id == server.id && ended[0].server_id == server.id
            &&& begun[0].notification_group_id == alert.notification_group_id
            &&& ended[0].notification_group_id == alert.notification_group_id
            &&& forall|id: u64| #[trigger]
                begun[0].trigger_crons.contains(id) <==> alert.fail_trigger_tasks@.contains(id)
                    && exists|c: int|
                    0 <= c < crons.len() && (#[trigger] crons[c]).id == id && permitted(crons[c])
            &&& forall|id: u64| #[trigger]
                ended[0].trigger_crons.contains(id) <==> alert.recover_trigger_tasks@.contains(id)
                    && exists|c: int|
                    0 <= c < crons.len() && (#[trigger] crons[c]).id == id && permitted(crons[c])
        }),
{
    let begun = action_for(Outcome::Incident, alert, server, crons, owner_is_admin)[0];
    let ended = action_for(Outcome::Resolved, alert, server, crons, owner_is_admin)[0];
    assert forall|id: u64| #[trigger]
        begun.trigger_crons.contains(id) <==> alert.fail_trigger_tasks@.contains(id) && exists|
            c: int,
        |
            0 <= c < crons.len() && (#[trigger] crons[c]).id == id && crons[c].cover == 2 && (
            owner_is_admin || crons[c].user_id == alert.user_id) by {
        lemma_alert_task(crons, alert.fail_trigger_tasks@, alert.user_id, owner_is_admin, id);
    }
    assert forall|id: u64| #[trigger]
        ended.trigger_crons.contains(id) <==> alert.recover_trigger_tasks@.contains(id) && exists|
            c: int,
        |
            0 <= c < crons.len() && (#[trigger] crons[c]).id == id && crons[c].cover == 2 && (
            owner_is_admin || crons[c].user_id == alert.user_id) by {
        lemma_alert_task(crons, alert.recover_trigger_tasks@, alert.user_id, owner_is_admin, id);
    }
}

proof fn lemma_alert_task(
    crons: Seq<CronResource>,
    ids: Seq<u64>,
    owner: u64,
    owner_is_admin: bool,
    id: u64,
)
    ensures
        alert_tasks(crons, ids, owner, owner_is_admin).contains(id) <==> ids.contains(id) && exists|
            c: int,
        |
            0 <= c < crons.len() && (#[trigger] crons[c]).id == id && crons[c].cover == 2 && (
            owner_is_admin || crons[c].user_id == owner),
    decreases crons.len(),
{
    if crons.len() > 0 {
        let front = crons.drop_last();
        let rest = alert_tasks(front, ids, owner, owner_is_admin);
        let all = alert_tasks(crons, ids, owner, owner_is_admin);
        lemma_alert_task(front, ids, owner, owner_is_admin, id);
        let last = crons[crons.len() - 1];
        if all.contains(id) {
            let k = choose|k: int| 0 <= k < all.len() && all[k] == id;
            if k < rest.len() {
                assert(rest[k] == id);
                let c = choose|c: int|
                    0 <= c < front.len() && (#[trigger] front[c]).id == id && front[c].cover == 2
                        && (owner_is_admin || front[c].user_id == owner);
                assert(crons[c].id == id);
            } else {
                assert(last.id == id);
            }
        }
        if ids.contains(id) && exists|c: int|
            0 <= c < crons.len() && (#[trigger] crons[c]).id == id && crons[c].cover == 2 && (
            owner_is_admin || crons[c].user_id == owner) {
            let c = choose|c: int|
                0 <= c < crons.len() && (#[trigger] crons[c]).id == id && crons[c].cover == 2 && (
                owner_is_admin || crons[c].user_id == owner);
            if c < front.len() {
                assert(front[c].id == id);
                let k = choose|k: int| 0 <= k < rest.len() && rest[k] == id;
                assert(all[k] == id);
            } else {
                assert(all[all.len() - 1] == id);
            }
        }
    }
}

/// A server is online to a rule about reporting as long as it reported within the
/// last six seconds, and not where it never did.
pub proof fn servers_are_offline_after_six_seconds(
    rule: Json,
    kind: String,
    index: usize,
    server: PublicServer,
    reading: RuleReading,
    now: u64,
    checks: Map<usize, TransferCheck>,
    stats: Option<StatsView>,
    cached: Option<StatsView>,
)
    requires
        json::member(rule, "type"@) == Some(Json::Text(kind)),
        kind@ == "offline"@,
        !rules::excludes(rule, server.id),
    ensures
        ({
            let step = rule_step(rule, index, server, reading, now, checks, stats, cached);
            &&& server.last_active == 0 ==> !step.0
            &&& server.last_active > 0 && now <= server.last_active + 6 ==> step.0
            &&& now > server.last_active + 6 ==> !step.0
            &&& step.1 == checks && step.2 == stats
        }),
{
}

/// A rule passes on a server that it is not about, and where nothing was measured;
/// else it goes by what was measured. Only a measured cycle is kept, until the
/// time for the next measure, and counts until then.
pub proof fn rules_go_by_what_was_measured(
    rule: Json,
    index: usize,
    server: PublicServer,
    reading: RuleReading,
    now: u64,
    checks: Map<usize, TransferCheck>,
    stats: Option<StatsView>,
    cached: Option<StatsView>,
)
    requires
        rules::kind_of(rule) != "offline"@,
    ensures
        ({
            let step = rule_step(rule, index, server, reading, now, checks, stats, cached);
            let about_cycle = "_cycle"@.is_suffix_of(rules::kind_of(rule));
            let held = about_cycle && checks.contains_key(index) && now < checks[index].next;
            &&& rules::excludes(rule, server.id) ==> step.0 && step.1 == checks && step.2 == stats
            &&& !rules::excludes(rule, server.id) ==> {
                &&& held ==> step.0 == checks[index].passed && step.1 == checks
                &&& !held && reading is Missing ==> step.0 && step.1 == checks && step.2 == stats
                &&& !held ==> (reading matches RuleReading::Measured { within, transfer, next_update }
                    ==> {
                    &&& step.0 == within
                    &&& !about_cycle ==> step.1 == checks && step.2 == stats
                    &&& about_cycle ==> step.1.contains_key(index) && step.1[index].passed == within
                        && step.1[index].next == next_update && step.1.remove(index)
                        == checks.remove(index)
                    &&& about_cycle ==> (step.2 matches Some(s) ==> s.transfer.contains_key(
                        server.id,
                    ) && s.transfer[server.id] == transfer && s.server_name.contains_key(server.id)
                        && s.server_name[server.id] == server.name@)
                })
            }
        }),
{
    let step = rule_step(rule, index, server, reading, now, checks, stats, cached);
    assert(step.1.remove(index) =~= checks.remove(index));
}

/// A measure is published for its own server, under the dates of the cycle that
/// holds the time of the measure; what is published of other servers stays.
pub proof fn measures_are_published_for_their_server(
    stats: StatsView,
    rule: Json,
    server: PublicServer,
    transfer: u64,
    next_update: u64,
    now: u64,
    other: u64,
)
    requires
        other != server.id,
    ensures
        ({
            let after = with_measure(stats, rule, server, transfer, next_update, now);
            &&& after.name == stats.name && after.max == stats.max && after.min == stats.min
            &&& after.transfer.contains_key(server.id) && after.transfer[server.id] == transfer
            &&& after.server_name[server.id] == server.name@
            &&& next_update <= moment::LAST_SECOND ==> after.next_update.contains_key(server.id)
                && after.next_update[server.id] == next_update
            &&& cycle::cycle_begin(rule, now) matches Some(begin) ==> (begin <= moment::LAST_SECOND
                ==> after.from == begin)
            &&& cycle::cycle_finish(rule, now) matches Some(end) ==> (end <= moment::LAST_SECOND
                ==> after.to == end)
            &&& after.transfer.contains_key(other) == stats.transfer.contains_key(other)
            &&& stats.transfer.contains_key(other) ==> after.transfer[other]
                == stats.transfer[other]
            &&& after.server_name.contains_key(other) == stats.server_name.contains_key(other)
            &&& stats.server_name.contains_key(other) ==> after.server_name[other]
                == stats.server_name[other]
        }),
{
}

/// What was published of a server last round stays published while its measure
/// holds, with the dates of last round.
pub proof fn held_measures_stay_published(
    stats: StatsView,
    cached: StatsView,
    server_id: u64,
    other: u64,
)
    requires
        other != server_id,
    ensures
        ({
            let after = with_cached(stats, Some(cached), server_id);
            &&& after.from == cached.from && after.to == cached.to
            &&& cached.transfer.contains_key(server_id) ==> after.transfer.contains_key(server_id)
                && after.transfer[server_id] == cached.transfer[server_id]
            &&& cached.server_name.contains_key(server_id) ==> after.server_name.contains_key(
                server_id,
            ) && after.server_name[server_id] == cached.server_name[server_id]
            &&& cached.next_update.contains_key(server_id) ==> after.next_update.contains_key(
                server_id,
            ) && after.next_update[server_id] == cached.next_update[server_id]
            &&& after.transfer.contains_key(other) == stats.transfer.contains_key(other)
            &&& stats.transfer.contains_key(other) ==> after.transfer[other]
                == stats.transfer[other]
            &&& with_cached(stats, None, server_id) == stats
        }),
{
}

proof fn lemma_first_cycle_rule(rules: Seq<Json>, from: int, i: int)
    requires
        0 <= from <= i < rules.len(),
        rules::counts_cycle(rules::kind_of(rules[i])),
        forall|k: int| from <= k < i ==> !rules::counts_cycle(rules::kind_of(#[trigger] rules[k])),
    ensures
        first_cycle_rule(rules, from) == i,
    decreases i - from,
{
    if from < i {
        lemma_first_cycle_rule(rules, from + 1, i);
    }
}

/// The statistics of an alert are about its first rule that counts a cycle: they
/// start with the dates of that cycle and the rule's bounds, and tell of no server
/// yet.
pub proof fn statistics_are_about_the_first_cycle(
    alert: AlertRuleResource,
    i: int,
    now: u64,
    begin: u64,
    end: u64,
)
    requires
        0 <= i < alert.rules@.len(),
        "_cycle"@.is_suffix_of(rules::kind_of(alert.rules@[i])),
        forall|k: int|
            0 <= k < i ==> !"_cycle"@.is_suffix_of(rules::kind_of(#[trigger] alert.rules@[k])),
        cycle::cycle_begin(alert.rules@[i], now) == Some(begin),
        cycle::cycle_finish(alert.rules@[i], now) == Some(end),
        begin <= moment::LAST_SECOND,
        end <= moment::LAST_SECOND,
    ensures
        fresh_stats(alert, now) matches Some(s) && {
            &&& s.from == begin && s.to == end
            &&& s.name == alert.name@
            &&& json::member(alert.rules@[i], "max"@) matches Some(Json::Unsigned(n)) ==> s.max == n
            &&& json::member(alert.rules@[i], "min"@) matches Some(Json::Unsigned(n)) ==> s.min == n
            &&& s.transfer.dom().is_empty() && s.server_name.dom().is_empty()
        },
{
    lemma_first_cycle_rule(alert.rules@, 0, i);
}

/// Alerts that are switched off or have no rules lead to nothing; those of the
/// others that are the owner's, or an administrator's, are entered for every
/// server, and what is remembered of the other servers stays.
pub proof fn rounds_enter_every_server_they_are_about(
    round: AlertRound,
    alert: AlertRuleResource,
    server: PublicServer,
    readings: Seq<RuleReading>,
    now: u64,
    crons: Seq<CronResource>,
    owner_is_admin: bool,
    cached: Option<StatsView>,
    other: u64,
)
    requires
        owner_is_admin || alert.user_id == server.user_id,
        other != server.id,
    ensures
        ({
            let after = round_step(
                round,
                alert,
                server,
                readings,
                now,
                crons,
                owner_is_admin,
                cached,
            );
            let before = track_of(round.tracks, server.id);
            let snap = snapshot_fold(
                alert,
                server,
                readings,
                now,
                before.checks,
                round.stats,
                cached,
                alert.rules@.len(),
            );
            let entered = track_after(before, alert, snap.0, snap.1);
            &&& track_of(after.tracks, server.id) == entered.0
            &&& track_of(after.tracks, other) == track_of(round.tracks, other)
            &&& after.actions.len() == round.actions.len() + (if entered.1 == Outcome::Quiet {
                0int
            } else {
                1
            })
            &&& round.actions.is_prefix_of(after.actions)
        }),
{
    let after = round_step(round, alert, server, readings, now, crons, owner_is_admin, cached);
    assert(after.actions.take(round.actions.len() as int) =~= round.actions);
}

/// An alert that is switched off, or not switched on, or has no rules leads to
/// nothing.
pub proof fn alerts_that_are_off_are_quiet(
    state: TickView,
    alert: AlertRuleResource,
    owner_is_admin: bool,
    servers: Seq<PublicServer>,
    readings: Seq<Vec<RuleReading>>,
    now: u64,
    crons: Seq<CronResource>,
    published: Map<u64, StatsView>,
)
    ensures
        alert.enable != Some(true) || alert.rules@.len() == 0 ==> tick_step(
            state,
            alert,
            owner_is_admin,
            servers,
            readings,
            now,
            crons,
            published,
        ) == state,
        alert.enable == Some(true) && alert.rules@.len() > 0 ==> tick_step(
            state,
            alert,
            owner_is_admin,
            servers,
            readings,
            now,
            crons,
            published,
        ).tracks.contains_key(alert.id),
{
}

/// Each alert goes by its own readings and by the standing of its own owner, and each
/// server and rule by the readings of its place; what was not read is missing.
pub proof fn readings_stand_at_their_place(
    all: Seq<Vec<Vec<RuleReading>>>,
    of_alert: Seq<Vec<RuleReading>>,
    of_server: Seq<RuleReading>,
    admins: Seq<bool>,
    i: int,
)
    requires
        0 <= i,
    ensures
        i < all.len() ==> alert_readings(all, i) == all[i]@,
        i >= all.len() ==> alert_readings(all, i).len() == 0,
        i < of_alert.len() ==> readings_of(of_alert, i) == of_alert[i]@,
        i >= of_alert.len() ==> readings_of(of_alert, i).len() == 0,
        i < of_server.len() ==> reading_at(of_server, i) == of_server[i],
        i >= of_server.len() ==> reading_at(of_server, i) == RuleReading::Missing,
        i < admins.len() ==> admin_at(admins, i) == admins[i],
        i >= admins.len() ==> !admin_at(admins, i),
{
}

/// The readings of a round hold one entry for each rule, at its place: for a rule that is
/// about neither reporting nor a cycle, and about the server, whether what was measured is
/// within its bounds.
pub proof fn rounds_hold_one_entry_for_each_rule(
    alert: AlertRuleResource,
    server: PublicServer,
    readings: Seq<RuleReading>,
    now: u64,
    checks: Map<usize, TransferCheck>,
    stats: Option<StatsView>,
    cached: Option<StatsView>,
    k: nat,
    i: int,
)
    requires
        0 <= i < k <= alert.rules@.len(),
        rules::kind_of(alert.rules@[i]) != "offline"@,
        !"_cycle"@.is_suffix_of(rules::kind_of(alert.rules@[i])),
    ensures
        ({
            let point = snapshot_fold(alert, server, readings, now, checks, stats, cached, k).0;
            &&& point.len() == k
            &&& rules::excludes(alert.rules@[i], server.id) ==> point[i]
            &&& !rules::excludes(alert.rules@[i], server.id) ==> match reading_at(readings, i) {
                RuleReading::Missing => point[i],
                RuleReading::Measured { within, .. } => point[i] == within,
            }
        }),
    decreases k,
{
    lemma_snapshot_len(alert, server, readings, now, checks, stats, cached, (k - 1) as nat);
    if i < k - 1 {
        rounds_hold_one_entry_for_each_rule(
            alert,
            server,
            readings,
            now,
            checks,
            stats,
            cached,
            (k - 1) as nat,
            i,
        );
    }
}

proof fn lemma_snapshot_len(
    alert: AlertRuleResource,
    server: PublicServer,
    readings: Seq<RuleReading>,
    now: u64,
    checks: Map<usize, TransferCheck>,
    stats: Option<StatsView>,
    cached: Option<StatsView>,
    k: nat,
)
    ensures
        snapshot_fold(alert, server, readings, now, checks, stats, cached, k).0.len() == k,
    decreases k,
{
    if k > 0 {
        lemma_snapshot_len(alert, server, readings, now, checks, stats, cached, (k - 1) as nat);
    }
}

/// Alerts do not disturb each other: the round of one leaves alone what is remembered and
/// published of another, and takes back no action.
pub proof fn alerts_do_not_disturb_each_other(
    state: TickView,
    alert: AlertRuleResource,
    owner_is_admin: bool,
    servers: Seq<PublicServer>,
    readings: Seq<Vec<RuleReading>>,
    now: u64,
    crons: Seq<CronResource>,
    published: Map<u64, StatsView>,
    other: u64,
)
    requires
        other != alert.id,
    ensures
        ({
            let after = tick_step(
                state,
                alert,
                owner_is_admin,
                servers,
                readings,
                now,
                crons,
                published,
            );
            &&& tracks_of(after.tracks, other) == tracks_of(state.tracks, other)
            &&& entry(after.cycle, other) == entry(state.cycle, other)
            &&& state.actions.is_prefix_of(after.actions)
        }),
{
    let start = AlertRound {
        tracks: tracks_of(state.tracks, alert.id),
        actions: state.actions,
        stats: match entry(state.cycle, alert.id) {
            Some(s) => Some(s),
            None => fresh_stats(alert, now),
        },
    };
    lemma_actions_grow(
        start,
        alert,
        servers,
        readings,
        now,
        crons,
        owner_is_admin,
        entry(published, alert.id),
        servers.len(),
    );
    assert(state.actions.take(state.actions.len() as int) =~= state.actions);
}

proof fn lemma_actions_grow(
    start: AlertRound,
    alert: AlertRuleResource,
    servers: Seq<PublicServer>,
    readings: Seq<Vec<RuleReading>>,
    now: u64,
    crons: Seq<CronResource>,
    owner_is_admin: bool,
    cached: Option<StatsView>,
    k: nat,
)
    ensures
        start.actions.is_prefix_of(
            round_fold(
                start,
                alert,
                servers,
                readings,
                now,
                crons,
                owner_is_admin,
                cached,
                k,
            ).actions,
        ),
    decreases k,
{
    let after = round_fold(
        start,
        alert,
        servers,
        readings,
        now,
        crons,
        owner_is_admin,
        cached,
        k,
    ).actions;
    if k > 0 {
        lemma_actions_grow(
            start,
            alert,
            servers,
            readings,
            now,
            crons,
            owner_is_admin,
            cached,
            (k - 1) as nat,
        );
        let before = round_fold(
            start,
            alert,
            servers,
            readings,
            now,
            crons,
            owner_is_admin,
            cached,
            (k - 1) as nat,
        ).actions;
        assert(after.take(start.actions.len() as int) =~= before.take(start.actions.len() as int));
    }
    assert(start.actions =~= after.take(start.actions.len() as int));
}

/// What is told of an incident names what happened in brackets, then the server, then the
/// alert.
pub proof fn incidents_are_told_with_server_and_alert(
    alert: AlertRuleResource,
    server: PublicServer,
    crons: Seq<CronResource>,
    owner_is_admin: bool,
)
    ensures
        ({
            let begun = action_for(Outcome::Incident, alert, server, crons, owner_is_admin)[0];
            let ended = action_for(Outcome::Resolved, alert, server, crons, owner_is_admin)[0];
            &&& begun.message == "[Incident] "@ + server.name@ + " "@ + alert.name@
            &&& ended.message == "[Resolved] "@ + server.name@ + " "@ + alert.name@
        }),
{
    reveal_strlit("[");
    reveal_strlit("] ");
    reveal_strlit("Incident");
    reveal_strlit("Resolved");
    reveal_strlit("[Incident] ");
    reveal_strlit("[Resolved] ");
    assert("["@ + "Incident"@ + "] "@ =~= "[Incident] "@);
    assert("["@ + "Resolved"@ + "] "@ =~= "[Resolved] "@);
}

} // verus!
