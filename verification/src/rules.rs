//! The rules of an alert: which servers they are about, and what a row of
//! readings makes of them.
use vstd::prelude::*;

use crate::{decimal, json};
use crate::decimal::to_decimal;
use crate::json::{Json, u64_field};
use crate::text::{ends_with, same};

verus! {

/// What a rule watches.
pub open spec fn kind_of(rule: Json) -> Seq<char> {
    json::or_else(json::as_text(json::member(rule, "type"@)), seq![])
}

/// What a rule watches, or the empty text.
pub fn rule_type(rule: &Json) -> (r: &str)
    ensures
        r@ == kind_of(*rule),
{
    match rule.get("type") {
        Some(v) => match v.text() {
            Some(s) => s,
            None => {
                proof {
                    reveal_strlit("");
                    assert(""@ =~= seq![]);
                }
                ""
            },
        },
        None => {
            proof {
                reveal_strlit("");
                assert(""@ =~= seq![]);
            }
            ""
        },
    }
}

/// Whether rules of this kind count the transfer of a cycle.
pub open spec fn counts_cycle(kind: Seq<char>) -> bool {
    "_cycle"@.is_suffix_of(kind)
}

/// Whether rules of this kind count the transfer of a cycle.
pub fn is_transfer_cycle_rule(rule_type: &str) -> (r: bool)
    ensures
        r == counts_cycle(rule_type@),
{
    ends_with(rule_type, "_cycle")
}

/// Whether rules of this kind watch that a server reports at all.
pub fn is_offline_rule(rule_type: &str) -> (r: bool)
    ensures
        r == (rule_type@ == "offline"@),
{
    same(rule_type, "offline")
}

/// No kind of rule is both.
pub proof fn offline_counts_no_cycle()
    ensures
        !counts_cycle("offline"@),
{
    reveal_strlit("offline");
    reveal_strlit("_cycle");
    if counts_cycle("offline"@) {
        let s = "offline"@;
        assert(s.subrange(1, 7)[0] == "_cycle"@[0]);
    }
}

/// Whether the server is named in the rule's `ignore`.
pub open spec fn ignores(rule: Json, server_id: u64) -> bool {
    match json::member(rule, "ignore"@) {
        Some(items) => json::as_bool(json::member(items, decimal::decimal(server_id as nat)))
            == Some(true),
        None => false,
    }
}

/// Whether a rule is not about the server: under cover 0 the servers named in
/// `ignore` are left out, under cover 1 all others are.
pub open spec fn excludes(rule: Json, server_id: u64) -> bool {
    let cover = json::u64_member(rule, "cover"@);
    if cover == 0 {
        ignores(rule, server_id)
    } else if cover == 1 {
        !ignores(rule, server_id)
    } else {
        false
    }
}

/// Whether a rule is not about the server.
pub fn rule_excludes_server(rule: &Json, server_id: u64) -> (r: bool)
    ensures
        r == excludes(*rule, server_id),
{
    let cover: u64 = u64_field(rule, "cover");
    let ignored: bool = match rule.get("ignore") {
        Some(items) => {
            let key = to_decimal(server_id);
            match items.get(key.as_str()) {
                Some(v) => match v.boolean() {
                    Some(b) => b,
                    None => false,
                },
                None => false,
            }
        },
        None => false,
    };
    if cover == 0 {
        ignored
    } else if cover == 1 {
        !ignored
    } else {
        false
    }
}

/// How many readings a rule looks back on.
pub open spec fn duration_of(rule: Json) -> u64 {
    let d = json::or_else(json::as_u64(json::member(rule, "duration"@)), 1);
    if d == 0 {
        1
    } else {
        d
    }
}

/// How many readings a rule looks back on: one at least.
pub fn rule_duration(rule: &Json) -> (r: u64)
    ensures
        r == duration_of(*rule),
        r >= 1,
{
    let d: u64 = match rule.get("duration") {
        Some(v) => match v.unsigned() {
            Some(n) => n,
            None => 1,
        },
        None => 1,
    };
    if d == 0 {
        1
    } else {
        d
    }
}

/// The readings that `points` hold.
pub open spec fn rows(points: Seq<Vec<bool>>) -> Seq<Seq<bool>> {
    points.map_values(|p: Vec<bool>| p@)
}

/// Whether the reading of the rule number `index` in `point` passed; one that
/// was not taken passes.
pub open spec fn passes(point: Seq<bool>, index: int) -> bool {
    0 <= index < point.len() ==> point[index]
}

fn point_passes(point: &Vec<bool>, index: usize) -> (r: bool)
    ensures
        r == passes(point@, index as int),
{
    if index < point.len() {
        point[index]
    } else {
        true
    }
}

/// How many of the last `d` readings, from the newest back, are looked at until
/// one passes.
pub open spec fn looked_back(points: Seq<Seq<bool>>, index: int, d: nat) -> nat
    decreases d,
{
    if d == 0 || points.len() == 0 {
        0
    } else if passes(points.last(), index) {
        1
    } else {
        1 + looked_back(points.drop_last(), index, (d - 1) as nat)
    }
}

/// Whether one of the last `d` readings passed.
pub open spec fn passed_lately(points: Seq<Seq<bool>>, index: int, d: nat) -> bool {
    exists|i: int|
        0 <= i < points.len() && i >= points.len() - d && passes(#[trigger] points[i], index)
}

/// How many of `points` failed.
pub open spec fn failures(points: Seq<Seq<bool>>, index: int) -> nat
    decreases points.len(),
{
    if points.len() == 0 {
        0
    } else {
        failures(points.drop_last(), index) + if passes(points.last(), index) {
            0nat
        } else {
            1nat
        }
    }
}

/// What one rule makes of the readings: how many of them are to be kept, and
/// whether the alert passes so far. A rule about a cycle looks at the newest
/// reading. A rule about being offline fails where none of the last readings
/// passed. Any other rule fails where more than seven in ten of them failed. A
/// rule with fewer readings than it looks back on passes.
pub open spec fn rule_verdict(
    rule: Json,
    index: int,
    points: Seq<Seq<bool>>,
    passed: bool,
) -> (u64, bool) {
    let d = duration_of(rule);
    if counts_cycle(kind_of(rule)) {
        (1, passed || points.len() == 0 || passes(points.last(), index))
    } else if kind_of(rule) == "offline"@ {
        if passed || points.len() < d {
            (1, true)
        } else {
            (looked_back(points, index, d as nat) as u64, passed_lately(points, index, d as nat))
        }
    } else if passed || points.len() < d {
        (d, true)
    } else {
        (d, (failures(points.skip(points.len() - d), index) * 100) as int / d as int <= 70)
    }
}

/// What the first `k` rules make of the readings: the most readings that one of
/// them keeps (one at least), and whether the alert passes, which it does as
/// soon as one rule passes.
pub open spec fn verdict(rules: Seq<Json>, points: Seq<Seq<bool>>, k: nat) -> (u64, bool)
    decreases k,
{
    if k == 0 {
        (1, false)
    } else {
        let before = verdict(rules, points, (k - 1) as nat);
        let step = rule_verdict(rules[k - 1], k - 1, points, before.1);
        (
            if step.0 > before.0 {
                step.0
            } else {
                before.0
            },
            step.1,
        )
    }
}

fn scan_back(points: &Vec<Vec<bool>>, index: usize, d: u64) -> (r: (u64, bool))
    requires
        1 <= d <= points@.len(),
    ensures
        r.0 == looked_back(rows(points@), index as int, d as nat),
        r.1 == passed_lately(rows(points@), index as int, d as nat),
        1 <= r.0 <= d,
{
    let n: usize = points.len();
    let mut seen: u64 = 0;
    let ghost all = rows(points@);
    proof {
        assert(all.take(n as int) =~= all);
    }
    while seen < d
        invariant
            seen <= d <= n == points@.len(),
            all == rows(points@),
            looked_back(all, index as int, d as nat) == seen + looked_back(
                all.take(n - seen),
                index as int,
                (d - seen) as nat,
            ),
            forall|i: int| n - seen <= i < n ==> !passes(#[trigger] all[i], index as int),
        decreases d - seen,
    {
        let at: usize = n - 1 - seen as usize;
        let ok: bool = point_passes(&points[at], index);
        proof {
            assert(all.take(n - seen).last() == points@[at as int]@);
            assert(all.take(n - seen).drop_last() =~= all.take(n - seen - 1));
        }
        seen += 1;
        if ok {
            proof {
                assert(passes(all[at as int], index as int));
            }
            return (seen, true);
        }
    }
    (seen, false)
}

fn count_failures(points: &Vec<Vec<bool>>, from: usize, index: usize) -> (r: usize)
    requires
        from <= points@.len(),
    ensures
        r == failures(rows(points@).skip(from as int), index as int),
        r <= points@.len() - from,
{
    let mut fail: usize = 0;
    let mut i: usize = from;
    let ghost tail = rows(points@).skip(from as int);
    while i < points.len()
        invariant
            from <= i <= points@.len(),
            tail == rows(points@).skip(from as int),
            fail <= i - from,
            fail == failures(tail.take(i - from), index as int),
        decreases points@.len() - i,
    {
        proof {
            assert(tail.take(i - from + 1).drop_last() =~= tail.take(i - from));
            assert(tail.take(i - from + 1).last() == points@[i as int]@);
        }
        if !point_passes(&points[i], index) {
            fail += 1;
        }
        i += 1;
    }
    proof {
        assert(tail.take(tail.len() as int) =~= tail);
    }
    fail
}

fn check_rule(rule: &Json, index: usize, points: &Vec<Vec<bool>>, passed: bool) -> (r: (u64, bool))
    ensures
        r == rule_verdict(*rule, index as int, rows(points@), passed),
        r.0 >= 1,
{
    let d: u64 = rule_duration(rule);
    let kind = rule_type(rule);
    let n: u64 = points.len() as u64;
    if is_transfer_cycle_rule(kind) {
        if passed || points.len() == 0 {
            (1, true)
        } else {
            let ok: bool = point_passes(&points[points.len() - 1], index);
            proof {
                assert(rows(points@).last() == points@.last()@);
            }
            (1, ok)
        }
    } else if is_offline_rule(kind) {
        if passed || n < d {
            (1, true)
        } else {
            scan_back(points, index, d)
        }
    } else if passed || n < d {
        (d, true)
    } else {
        let from: usize = points.len() - d as usize;
        let fail: usize = count_failures(points, from, index);
        (d, (fail as u128 * 100) / d as u128 <= 70)
    }
}

/// What the rules make of the readings `points`: how many of the newest are to
/// be kept, and whether the alert passes.
pub fn alert_check(rules: &Vec<Json>, points: &Vec<Vec<bool>>) -> (r: (u64, bool))
    ensures
        r == verdict(rules@, rows(points@), rules@.len()),
        r.0 >= 1,
{
    let mut keep: u64 = 1;
    let mut passed: bool = false;
    let mut i: usize = 0;
    while i < rules.len()
        invariant
            i <= rules@.len(),
            keep >= 1,
            (keep, passed) == verdict(rules@, rows(points@), i as nat),
        decreases rules@.len() - i,
    {
        let step = check_rule(&rules[i], i, points, passed);
        if step.0 > keep {
            keep = step.0;
        }
        passed = step.1;
        i += 1;
    }
    (keep, passed)
}

/// An alert passes as soon as one of its rules does: rules that follow do not
/// change that.
pub proof fn passing_is_kept(rules: Seq<Json>, points: Seq<Seq<bool>>, j: nat, k: nat)
    requires
        j <= k,
        verdict(rules, points, j).1,
    ensures
        verdict(rules, points, k).1,
    decreases k,
{
    if j < k {
        passing_is_kept(rules, points, j, (k - 1) as nat);
    }
}

/// Before any reading has been taken an alert with rules passes.
pub proof fn no_readings_pass(rules: Seq<Json>)
    requires
        rules.len() > 0,
    ensures
        verdict(rules, seq![], rules.len()).1,
{
    assert(verdict(rules, seq![], 1).1) by {
        assert(verdict(rules, seq![], 0) == (1u64, false));
    }
    passing_is_kept(rules, seq![], 1, rules.len());
}

/// The readings of the rule number `index` alone.
pub open spec fn readings_of(points: Seq<Seq<bool>>, index: int) -> Seq<Seq<bool>> {
    points.map_values(
        |p: Seq<bool>|
            if 0 <= index < p.len() {
                seq![p[index]]
            } else {
                seq![]
            },
    )
}

proof fn lemma_failures_are_those_that_failed(points: Seq<Seq<bool>>)
    ensures
        failures(points, 0) == points.filter(|p: Seq<bool>| p.len() > 0 && !p[0]).len(),
        failures(points, 0) <= points.len(),
        failures(points, 0) == points.len() <==> forall|i: int|
            0 <= i < points.len() ==> (#[trigger] points[i]).len() > 0 && !points[i][0],
    decreases points.len(),
{
    reveal(Seq::filter);
    if points.len() > 0 {
        let rest = points.drop_last();
        lemma_failures_are_those_that_failed(rest);
        assert forall|i: int| 0 <= i < rest.len() implies rest[i] == #[trigger] points[i] by {}
        if failures(points, 0) == points.len() {
            assert forall|i: int| 0 <= i < points.len() implies (#[trigger] points[i]).len() > 0
                && !points[i][0] by {
                if i < rest.len() {
                    assert(rest[i] == points[i]);
                }
            }
        }
        if forall|i: int|
            0 <= i < points.len() ==> (#[trigger] points[i]).len() > 0 && !points[i][0] {
            assert(points[points.len() - 1] == points.last());
            assert forall|i: int| 0 <= i < rest.len() implies (#[trigger] rest[i]).len() > 0
                && !rest[i][0] by {
                assert(rest[i] == points[i]);
            }
        }
    }
}

/// An alert of one rule that is about neither reporting nor a cycle, with the
/// duration `d`, is decided by the last `d` readings together: it passes where
/// fewer than 71 in a hundred of them failed, so wherever at most seven in ten
/// did, whatever the newest reading alone says, and not where all of them
/// failed. With fewer readings it passes. As many readings as the duration says
/// are kept.
pub proof fn ordinary_rules_go_by_their_duration(rule: Json, points: Seq<Seq<bool>>, d: u64)
    requires
        json::member(rule, "type"@) matches Some(Json::Text(kind)) ==> kind@ != "offline"@
            && !"_cycle"@.is_suffix_of(kind@),
        json::member(rule, "duration"@) matches Some(Json::Unsigned(n)) ==> d >= n && (d == n || n
            == 0),
        !(json::member(rule, "duration"@) matches Some(Json::Unsigned(n)) && n > 0) ==> d == 1,
    ensures
        verdict(seq![rule], points, 1).0 == d,
        points.len() < d ==> verdict(seq![rule], points, 1).1,
        points.len() >= d ==> ({
            let last = points.skip(points.len() - d);
            let failed = last.filter(|p: Seq<bool>| p.len() > 0 && !p[0]).len();
            &&& verdict(seq![rule], points, 1).1 <==> failed * 100 < 71 * d
            &&& failed * 10 <= 7 * d ==> verdict(seq![rule], points, 1).1
            &&& (forall|i: int| 0 <= i < d ==> (#[trigger] last[i]).len() > 0 && !last[i][0])
                ==> !verdict(seq![rule], points, 1).1
        }),
{
    lemma_empty_kind_is_ordinary();
    let rules = seq![rule];
    assert(verdict(rules, points, 0) == (1u64, false));
    assert(rules[0] == rule);
    if points.len() >= d {
        let last = points.skip(points.len() - d);
        lemma_failures_are_those_that_failed(last);
        let f = failures(last, 0) as int;
        let n = d as int;
        assert((f * 100) / n <= 70 <==> f * 100 < 71 * n) by (nonlinear_arith)
            requires
                n > 0,
        ;
    }
}

proof fn lemma_empty_kind_is_ordinary()
    ensures
        Seq::<char>::empty() != "offline"@,
        !"_cycle"@.is_suffix_of(Seq::<char>::empty()),
{
    reveal_strlit("offline");
    reveal_strlit("_cycle");
}

/// An alert of one rule about a server that reports, with the duration `d`,
/// fails exactly where there are `d` readings and none of the last `d` passed.
/// As many readings are kept as it takes to reach the newest that passed.
pub proof fn offline_rules_fail_after_their_duration(
    rule: Json,
    kind: String,
    points: Seq<Seq<bool>>,
    d: u64,
)
    requires
        json::member(rule, "type"@) == Some(Json::Text(kind)),
        kind@ == "offline"@,
        json::member(rule, "duration"@) matches Some(Json::Unsigned(n)) ==> d >= n && (d == n || n
            == 0),
        !(json::member(rule, "duration"@) matches Some(Json::Unsigned(n)) && n > 0) ==> d == 1,
    ensures
        !verdict(seq![rule], points, 1).1 <==> points.len() >= d && forall|i: int|
            points.len() - d <= i < points.len() ==> (#[trigger] points[i]).len() > 0
                && !points[i][0],
        points.len() >= d ==> ({
            let kept = verdict(seq![rule], points, 1).0;
            &&& 1 <= kept <= d
            &&& forall|i: int|
                points.len() - kept < i < points.len() ==> (#[trigger] points[i]).len() > 0
                    && !points[i][0]
            &&& kept < d ==> passes(points[points.len() - kept], 0)
        }),
{
    offline_counts_no_cycle();
    let rules = seq![rule];
    assert(verdict(rules, points, 0) == (1u64, false));
    assert(rules[0] == rule);
    if points.len() >= d {
        lemma_looked_back(points, 0, d as nat);
        if !verdict(rules, points, 1).1 {
            assert forall|i: int| points.len() - d <= i < points.len() implies (
            #[trigger] points[i]).len() > 0 && !points[i][0] by {
                assert(!passes(points[i], 0));
            }
        }
    }
}

proof fn lemma_looked_back(points: Seq<Seq<bool>>, index: int, d: nat)
    requires
        1 <= d <= points.len(),
    ensures
        1 <= looked_back(points, index, d) <= d,
        forall|i: int|
            points.len() - looked_back(points, index, d) < i < points.len() ==> !passes(
                #[trigger] points[i],
                index,
            ),
        looked_back(points, index, d) < d ==> passes(
            points[points.len() - looked_back(points, index, d)],
            index,
        ),
    decreases d,
{
    if !passes(points.last(), index) {
        let rest = points.drop_last();
        if d > 1 {
            lemma_looked_back(rest, index, (d - 1) as nat);
            assert forall|i: int|
                points.len() - looked_back(points, index, d) < i < points.len() implies !passes(
                #[trigger] points[i],
                index,
            ) by {
                if i < rest.len() {
                    assert(rest[i] == points[i]);
                }
            }
        } else {
            assert(looked_back(rest, index, 0) == 0);
        }
    }
}

/// An alert of one rule about a cycle is decided by the newest reading alone.
pub proof fn cycle_rules_go_by_the_newest_reading(
    rule: Json,
    kind: String,
    points: Seq<Seq<bool>>,
)
    requires
        json::member(rule, "type"@) == Some(Json::Text(kind)),
        "_cycle"@.is_suffix_of(kind@),
    ensures
        verdict(seq![rule], points, 1).0 == 1,
        !verdict(seq![rule], points, 1).1 <==> points.len() > 0 && points.last().len() > 0
            && !points.last()[0],
{
    let rules = seq![rule];
    assert(verdict(rules, points, 0) == (1u64, false));
    assert(rules[0] == rule);
}

proof fn lemma_failures_of_readings(points: Seq<Seq<bool>>, index: int)
    ensures
        failures(points, index) == failures(readings_of(points, index), 0),
    decreases points.len(),
{
    if points.len() > 0 {
        lemma_failures_of_readings(points.drop_last(), index);
        assert(readings_of(points.drop_last(), index) =~= readings_of(points, index).drop_last());
    }
}

proof fn lemma_rule_alone(rule: Json, points: Seq<Seq<bool>>, index: int)
    requires
        0 <= index,
    ensures
        verdict(seq![rule], readings_of(points, index), 1).1 == rule_verdict(
            rule,
            index,
            points,
            false,
        ).1,
{
    let own = readings_of(points, index);
    let rules = seq![rule];
    assert(verdict(rules, own, 0) == (1u64, false));
    assert(rules[0] == rule);
    let d = duration_of(rule);
    assert forall|i: int| 0 <= i < points.len() implies passes(own[i], 0) == passes(
        #[trigger] points[i],
        index,
    ) by {}
    if points.len() >= d {
        if passed_lately(points, index, d as nat) {
            let i = choose|i: int|
                0 <= i < points.len() && i >= points.len() - d && passes(
                    #[trigger] points[i],
                    index,
                );
            assert(passes(own[i], 0));
        }
        if passed_lately(own, 0, d as nat) {
            let i = choose|i: int|
                0 <= i < own.len() && i >= own.len() - d && passes(#[trigger] own[i], 0);
            assert(passes(points[i], index));
        }
        lemma_failures_of_readings(points.skip(points.len() - d), index);
        assert(readings_of(points.skip(points.len() - d), index) =~= own.skip(own.len() - d));
    }
}

/// An alert passes exactly where one of its rules would pass alone, over its own
/// readings.
pub proof fn alerts_pass_by_one_rule(rules: Seq<Json>, points: Seq<Seq<bool>>, k: nat)
    requires
        k <= rules.len(),
    ensures
        verdict(rules, points, k).1 <==> exists|i: int|
            0 <= i < k && verdict(seq![#[trigger] rules[i]], readings_of(points, i), 1).1,
    decreases k,
{
    if k > 0 {
        let before = (k - 1) as nat;
        alerts_pass_by_one_rule(rules, points, before);
        lemma_rule_alone(rules[k - 1], points, k - 1);
        if verdict(rules, points, before).1 {
            let i = choose|i: int|
                0 <= i < before && verdict(
                    seq![#[trigger] rules[i]],
                    readings_of(points, i),
                    1,
                ).1;
            assert(0 <= i < k);
        } else if verdict(rules, points, k).1 {
            assert(verdict(seq![rules[k - 1]], readings_of(points, k - 1), 1).1);
        }
    }
}

/// At least as many readings are kept as any rule about neither reporting nor a
/// cycle looks back on.
pub proof fn enough_readings_are_kept(rules: Seq<Json>, points: Seq<Seq<bool>>, k: nat, i: int)
    requires
        0 <= i < k <= rules.len(),
        json::member(rules[i], "type"@) matches Some(Json::Text(kind)) ==> kind@ != "offline"@
            && !"_cycle"@.is_suffix_of(kind@),
    ensures
        json::member(rules[i], "duration"@) matches Some(Json::Unsigned(d)) ==> verdict(
            rules,
            points,
            k,
        ).0 >= d,
    decreases k,
{
    if i < k - 1 {
        enough_readings_are_kept(rules, points, (k - 1) as nat, i);
    } else {
        lemma_empty_kind_is_ordinary();
    }
}

/// Under cover 0 a rule is about every server but those it names with `true`,
/// under cover 1 about those alone, and under any other about all.
pub proof fn cover_decides_which_servers(rule: Json, cover: u64, server_id: u64)
    requires
        json::member(rule, "cover"@) == Some(Json::Unsigned(cover)),
    ensures
        ({
            let named = json::member(rule, "ignore"@) matches Some(names) && json::member(
                names,
                decimal::decimal(server_id as nat),
            ) == Some(Json::Bool(true));
            &&& cover == 0 ==> excludes(rule, server_id) == named
            &&& cover == 1 ==> excludes(rule, server_id) == !named
            &&& cover > 1 ==> !excludes(rule, server_id)
        }),
{
}

} // verus!
