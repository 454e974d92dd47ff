//! The cycles over which transfer is counted: from a start in steps of hours,
//! days, weeks, months or years.
use vstd::prelude::*;

use crate::{convert, json, moment, text};
use crate::convert::{i64_to_u64, wrap_i64};
use crate::json::Json;
use crate::moment::{
    FIRST_SECOND, LAST_SECOND, Moment, add_months, add_seconds, calendar_holds, is_earlier, parse_rfc3339,
};
use crate::text::{same, to_ascii_lowercase};

verus! {

/// The longest span in seconds that can be added to a time.
pub const LONGEST_SPAN: u64 = 9_223_372_036_854_775;

/// The time `interval` units after `m`. A unit that is none of the four named
/// ones is an hour.
pub open spec fn after_interval(m: Moment, unit: Seq<char>, interval: u64) -> Option<Moment> {
    if unit == "year"@ {
        if interval * 12 <= u32::MAX {
            moment::after_months(m, (interval * 12) as u32)
        } else {
            None
        }
    } else if unit == "month"@ {
        if interval <= u32::MAX {
            moment::after_months(m, interval as u32)
        } else {
            None
        }
    } else if unit == "week"@ {
        if interval <= i64::MAX {
            moment::after_seconds(m, interval * 604_800)
        } else {
            None
        }
    } else if unit == "day"@ {
        if interval <= i64::MAX {
            moment::after_seconds(m, interval * 86_400)
        } else {
            None
        }
    } else {
        if interval * 3600 <= i64::MAX {
            moment::after_seconds(m, interval * 3600)
        } else {
            None
        }
    }
}

/// Whether `interval` units are a span that can be counted at all.
pub open spec fn countable(unit: Seq<char>, interval: u64) -> bool {
    if unit == "year"@ {
        interval * 12 <= u64::MAX
    } else if unit == "month"@ {
        true
    } else if unit == "week"@ {
        interval > i64::MAX || interval * 604_800 <= LONGEST_SPAN
    } else if unit == "day"@ {
        interval > i64::MAX || interval * 86_400 <= LONGEST_SPAN
    } else {
        interval * 3600 > i64::MAX || interval * 3600 <= LONGEST_SPAN
    }
}

/// Whether `interval` units are a span that can be counted at all.
pub fn interval_is_countable(unit: &str, interval: u64) -> (r: bool)
    ensures
        r == countable(unit@, interval),
{
    let wide: u128 = interval as u128;
    if same(unit, "year") {
        wide * 12 <= u64::MAX as u128
    } else if same(unit, "month") {
        true
    } else if same(unit, "week") {
        interval > i64::MAX as u64 || wide * 604_800 <= LONGEST_SPAN as u128
    } else if same(unit, "day") {
        interval > i64::MAX as u64 || wide * 86_400 <= LONGEST_SPAN as u128
    } else {
        wide * 3600 > i64::MAX as u128 || wide * 3600 <= LONGEST_SPAN as u128
    }
}

/// The time `interval` units after `time`, where the calendar holds it.
pub fn add_cycle_interval(time: Moment, unit: &str, interval: u64) -> (r: Option<Moment>)
    requires
        countable(unit@, interval),
    ensures
        r == after_interval(time, unit@, interval),
        interval > 0 ==> (r matches Some(t) ==> moment::earlier(time, t)),
{
    if same(unit, "year") {
        let months: u64 = interval * 12;
        if months <= u32::MAX as u64 {
            add_months(time, months as u32)
        } else {
            None
        }
    } else if same(unit, "month") {
        if interval <= u32::MAX as u64 {
            add_months(time, interval as u32)
        } else {
            None
        }
    } else if same(unit, "week") {
        if interval <= i64::MAX as u64 {
            add_seconds(time, interval * 604_800)
        } else {
            None
        }
    } else if same(unit, "day") {
        if interval <= i64::MAX as u64 {
            add_seconds(time, interval * 86_400)
        } else {
            None
        }
    } else {
        let wide: u128 = interval as u128 * 3600;
        if wide <= i64::MAX as u128 {
            add_seconds(time, wide as u64)
        } else {
            None
        }
    }
}

/// The second `secs` as a point in time, where the calendar holds it.
pub open spec fn at_second(secs: int) -> Option<Moment> {
    if moment::in_calendar(secs) {
        Some(Moment { secs: secs as i64, nanos: 0 })
    } else {
        None
    }
}

/// The start of a cycle as a rule writes it: a text in RFC 3339 notation or a
/// number of seconds.
pub open spec fn cycle_start_of(value: Json) -> Option<Moment> {
    match value {
        Json::Text(s) => match moment::time_by_rfc3339(s@) {
            Some(t) => Some(Moment { secs: t.0, nanos: t.1 }),
            None => None,
        },
        Json::Unsigned(n) => at_second(convert::wrapped(n)),
        Json::Negative(n) => at_second(n as int),
        _ => None,
    }
}

/// The start of a cycle as a rule writes it.
pub fn parse_cycle_start(value: &Json) -> (r: Option<Moment>)
    ensures
        r == cycle_start_of(*value),
{
    match value {
        Json::Text(s) => parse_rfc3339(s.as_str()),
        Json::Unsigned(n) => {
            let secs: i64 = wrap_i64(*n);
            if calendar_holds(secs) {
                Some(Moment { secs, nanos: 0 })
            } else {
                None
            }
        },
        Json::Negative(n) => {
            let secs: i64 = *n;
            if calendar_holds(secs) {
                Some(Moment { secs, nanos: 0 })
            } else {
                None
            }
        },
        _ => None,
    }
}

/// The start of the cycle number `n` of those that begin at `start`.
pub open spec fn nth_cycle(start: Moment, unit: Seq<char>, interval: u64, n: nat) -> Option<Moment>
    decreases n,
{
    if n == 0 {
        Some(start)
    } else {
        match nth_cycle(start, unit, interval, (n - 1) as nat) {
            Some(m) => after_interval(m, unit, interval),
            None => None,
        }
    }
}

/// Whether the cycle number `n` is the last that begins before `now` (the first
/// cycle counts as begun): the starts up to it are earlier than `now` and the
/// next one is not, or there is none.
pub open spec fn is_current(
    start: Moment,
    unit: Seq<char>,
    interval: u64,
    now: Moment,
    n: nat,
) -> bool {
    &&& nth_cycle(start, unit, interval, n) is Some
    &&& forall|k: nat|
        1 <= k <= n ==> (#[trigger] nth_cycle(start, unit, interval, k) matches Some(m)
            && moment::earlier(
            m,
            now,
        ))
    &&& (nth_cycle(start, unit, interval, n + 1) matches Some(m) ==> !moment::earlier(m, now))
}

/// The number of the current cycle.
pub open spec fn current_cycle(start: Moment, unit: Seq<char>, interval: u64, now: Moment) -> nat {
    choose|n: nat| is_current(start, unit, interval, now, n)
}

/// There is at most one current cycle.
pub proof fn current_cycle_is_unique(
    start: Moment,
    unit: Seq<char>,
    interval: u64,
    now: Moment,
    n: nat,
)
    requires
        is_current(start, unit, interval, now, n),
    ensures
        current_cycle(start, unit, interval, now) == n,
{
    let c = current_cycle(start, unit, interval, now);
    assert(is_current(start, unit, interval, now, c));
    if c < n {
        assert(nth_cycle(start, unit, interval, c + 1) is Some);
    } else if n < c {
        assert(nth_cycle(start, unit, interval, n + 1) is Some);
    }
}

/// The unit of a rule's cycle, in small letters.
pub open spec fn cycle_unit_of(rule: Json) -> Seq<char> {
    text::lowered(json::or_else(json::as_text(json::member(rule, "cycle_unit"@)), "hour"@))
}

fn cycle_unit(rule: &Json) -> (r: String)
    ensures
        r@ == cycle_unit_of(*rule),
{
    match rule.get("cycle_unit") {
        Some(v) => match v.text() {
            Some(s) => to_ascii_lowercase(s),
            None => to_ascii_lowercase("hour"),
        },
        None => to_ascii_lowercase("hour"),
    }
}

/// The length of a rule's cycle in its unit.
pub open spec fn cycle_interval_of(rule: Json) -> Option<u64> {
    json::as_u64(json::member(rule, "cycle_interval"@))
}

fn cycle_interval(rule: &Json) -> (r: Option<u64>)
    ensures
        r == cycle_interval_of(*rule),
{
    match rule.get("cycle_interval") {
        Some(v) => v.unsigned(),
        None => None,
    }
}

/// Whether the cycle of a rule, if it has one, is a span that can be counted at all.
pub open spec fn cycle_is_countable(rule: Json) -> bool {
    json::member(rule, "cycle_start"@) is Some ==> countable(
        cycle_unit_of(rule),
        json::or_else(cycle_interval_of(rule), 0),
    )
}

/// Whether the cycle of a rule, if it has one, is a span that can be counted at all.
pub fn rule_cycle_is_countable(rule: &Json) -> (r: bool)
    ensures
        r == cycle_is_countable(*rule),
{
    if rule.get("cycle_start").is_none() {
        return true;
    }
    let unit = cycle_unit(rule);
    let interval: u64 = match cycle_interval(rule) {
        Some(n) => n,
        None => 0,
    };
    interval_is_countable(unit.as_str(), interval)
}

/// The second at which the current one of the cycles from `start` on began.
pub open spec fn begin_of(start: Moment, unit: Seq<char>, interval: u64, now: u64) -> Option<u64> {
    if interval == 0 {
        Some(convert::floored(start.secs as int) as u64)
    } else {
        match at_second(convert::wrapped(now)) {
            None => None,
            Some(m) => {
                let n = current_cycle(start, unit, interval, m);
                if nth_cycle(start, unit, interval, n + 1) is Some {
                    Some(
                        convert::floored(
                            (nth_cycle(start, unit, interval, n)->0).secs as int,
                        ) as u64,
                    )
                } else {
                    None
                }
            },
        }
    }
}

/// The second at which the current one of the cycles from `start` on began: the
/// last start of a cycle before `now_unix`. There is none where the calendar
/// ends.
pub fn cycle_began(start: Moment, unit: &str, interval: u64, now_unix: u64) -> (r: Option<u64>)
    requires
        countable(unit@, interval),
    ensures
        r == begin_of(start, unit@, interval, now_unix),
{
    if interval == 0 {
        return Some(i64_to_u64(start.secs));
    }
    let now_secs: i64 = wrap_i64(now_unix);
    if !calendar_holds(now_secs) {
        return None;
    }
    let now = Moment { secs: now_secs, nanos: 0 };
    let mut current: Moment = start;
    let mut next: Moment = start;
    let ghost mut n: nat = 0;
    match add_cycle_interval(current, unit, interval) {
        Some(m) => {
            next = m;
        },
        None => {
            proof {
                assert(nth_cycle(start, unit@, interval, 0) == Some(start));
                assert(nth_cycle(start, unit@, interval, 1) is None);
                assert(is_current(start, unit@, interval, now, 0));
                current_cycle_is_unique(start, unit@, interval, now, 0);
            }
            return None;
        },
    }
    proof {
        assert(nth_cycle(start, unit@, interval, 0) == Some(start));
    }
    while is_earlier(next, now)
        invariant
            interval > 0,
            countable(unit@, interval),
            at_second(convert::wrapped(now_unix)) == Some(now),
            nth_cycle(start, unit@, interval, n) == Some(current),
            nth_cycle(start, unit@, interval, n + 1) == Some(next),
            forall|k: nat|
                1 <= k <= n ==> (#[trigger] nth_cycle(start, unit@, interval, k) matches Some(m)
                    && moment::earlier(m, now)),
        decreases convert::floored(now.secs - next.secs + 1), u32::MAX - next.nanos,
    {
        proof {
            n = n + 1;
        }
        current = next;
        match add_cycle_interval(current, unit, interval) {
            Some(m) => {
                next = m;
            },
            None => {
                proof {
                    assert(nth_cycle(start, unit@, interval, n + 1) is None);
                    assert(is_current(start, unit@, interval, now, n));
                    current_cycle_is_unique(start, unit@, interval, now, n);
                }
                return None;
            },
        }
    }
    proof {
        assert(is_current(start, unit@, interval, now, n));
        current_cycle_is_unique(start, unit@, interval, now, n);
    }
    Some(i64_to_u64(current.secs))
}

/// The second at which the current cycle of a rule began.
pub open spec fn cycle_begin(rule: Json, now: u64) -> Option<u64> {
    match (
        match json::member(rule, "cycle_start"@) {
            Some(v) => cycle_start_of(v),
            None => None,
        },
        cycle_interval_of(rule),
    ) {
        (Some(start), Some(interval)) => begin_of(start, cycle_unit_of(rule), interval, now),
        _ => None,
    }
}

/// The second at which the current cycle of a rule began. There is none where the
/// rule names no start or no interval, or where the calendar ends.
pub fn transfer_cycle_start(rule: &Json, now_unix: u64) -> (r: Option<u64>)
    requires
        cycle_is_countable(*rule),
    ensures
        r == cycle_begin(*rule, now_unix),
{
    let start = match rule.get("cycle_start") {
        Some(v) => match parse_cycle_start(v) {
            Some(m) => m,
            None => {
                return None;
            },
        },
        None => {
            return None;
        },
    };
    let interval: u64 = match cycle_interval(rule) {
        Some(n) => n,
        None => {
            return None;
        },
    };
    let unit = cycle_unit(rule);
    cycle_began(start, unit.as_str(), interval, now_unix)
}

/// The second at which the current cycle of a rule ends.
pub open spec fn cycle_finish(rule: Json, now: u64) -> Option<u64> {
    match cycle_begin(rule, now) {
        None => None,
        Some(begin) => match at_second(convert::wrapped(begin)) {
            None => None,
            Some(m) => match after_interval(
                m,
                cycle_unit_of(rule),
                json::or_else(cycle_interval_of(rule), 0),
            ) {
                None => None,
                Some(t) => Some(convert::floored(t.secs as int) as u64),
            },
        },
    }
}

/// The second at which the current cycle of a rule ends.
pub fn transfer_cycle_end(rule: &Json, now_unix: u64) -> (r: Option<u64>)
    requires
        cycle_is_countable(*rule),
    ensures
        r == cycle_finish(*rule, now_unix),
{
    let begin: u64 = match transfer_cycle_start(rule, now_unix) {
        Some(b) => b,
        None => {
            return None;
        },
    };
    let secs: i64 = wrap_i64(begin);
    if !calendar_holds(secs) {
        return None;
    }
    let unit = cycle_unit(rule);
    let interval: u64 = match cycle_interval(rule) {
        Some(n) => n,
        None => 0,
    };
    match add_cycle_interval(Moment { secs, nanos: 0 }, unit.as_str(), interval) {
        Some(t) => Some(i64_to_u64(t.secs)),
        None => None,
    }
}

/// A week is seven days, a day is 24 hours, a year is twelve months, and an
/// unknown unit is an hour: spans that are as long lead to the same time.
pub proof fn units_are_made_of_each_other(m: Moment, unit: Seq<char>, n: u64)
    requires
        n * 604_800 <= LONGEST_SPAN,
        n * 12 <= u32::MAX,
        unit != "year"@ && unit != "month"@ && unit != "week"@ && unit != "day"@,
    ensures
        after_interval(m, "week"@, n) == after_interval(m, "day"@, (7 * n) as u64),
        after_interval(m, "day"@, n) == after_interval(m, "hour"@, (24 * n) as u64),
        after_interval(m, "year"@, n) == after_interval(m, "month"@, (12 * n) as u64),
        after_interval(m, unit, n) == after_interval(m, "hour"@, n),
{
    lemma_unit_names_differ();
}

proof fn lemma_unit_names_differ()
    ensures
        "year"@ != "month"@,
        "year"@ != "week"@,
        "year"@ != "day"@,
        "year"@ != "hour"@,
        "month"@ != "week"@,
        "month"@ != "day"@,
        "month"@ != "hour"@,
        "week"@ != "day"@,
        "week"@ != "hour"@,
        "day"@ != "hour"@,
{
    reveal_strlit("year");
    reveal_strlit("month");
    reveal_strlit("week");
    reveal_strlit("day");
    reveal_strlit("hour");
    assert("year"@[0] == 'y');
    assert("month"@[0] == 'm');
    assert("week"@[0] == 'w');
    assert("day"@[0] == 'd');
    assert("hour"@[0] == 'h');
}

/// The time `n` weeks after another is 604800 times `n` seconds later, and so on
/// for days, hours and months, as long as the calendar holds it.
pub proof fn spans_have_their_length(m: Moment, n: u64)
    requires
        n > 0,
        n * 604_800 <= LONGEST_SPAN,
    ensures
        after_interval(m, "week"@, n) is Some <==> moment::in_calendar(m.secs + 604_800 * n),
        after_interval(m, "week"@, n) matches Some(t) ==> t.secs == m.secs + 604_800 * n,
        after_interval(m, "day"@, n) is Some <==> moment::in_calendar(m.secs + 86_400 * n),
        after_interval(m, "day"@, n) matches Some(t) ==> t.secs == m.secs + 86_400 * n,
        after_interval(m, "hour"@, n) is Some <==> moment::in_calendar(m.secs + 3600 * n),
        after_interval(m, "hour"@, n) matches Some(t) ==> t.secs == m.secs + 3600 * n,
        n <= u32::MAX ==> match (
            after_interval(m, "month"@, n),
            moment::months_later(m.secs, m.nanos, n as u32),
        ) {
            (Some(t), Some(later)) => t.secs == later.0 && t.nanos == later.1,
            (None, None) => true,
            _ => false,
        },
        m.nanos < 1_000_000_000 ==> (after_interval(m, "week"@, n) matches Some(t) ==> t.nanos
            == m.nanos),
{
    lemma_unit_names_differ();
}

/// Whether `length` is how many seconds `interval` weeks, days or hours take.
pub open spec fn takes(unit: Seq<char>, interval: u64, length: int) -> bool {
    ||| unit == "week"@ && length == interval * 7 * 24 * 60 * 60
    ||| unit == "day"@ && length == interval * 24 * 60 * 60
    ||| unit == "hour"@ && length == interval * 60 * 60
}

proof fn lemma_nth_cycle(start: Moment, unit: Seq<char>, interval: u64, length: int, n: nat)
    requires
        interval > 0,
        takes(unit, interval, length),
        0 < length <= LONGEST_SPAN,
        moment::in_calendar(start.secs as int),
    ensures
        nth_cycle(start, unit, interval, n) is Some <==> moment::in_calendar(
            start.secs + n * length,
        ),
        nth_cycle(start, unit, interval, n) matches Some(m) ==> m.secs == start.secs + n * length,
    decreases n,
{
    lemma_unit_names_differ();
    if n > 0 {
        let p = (n - 1) as nat;
        lemma_nth_cycle(start, unit, interval, length, p);
        assert(n * length == p * length + length) by (nonlinear_arith)
            requires
                n == p + 1,
        ;
        assert(p * length >= 0) by (nonlinear_arith)
            requires
                p >= 0,
                length > 0,
        ;
    } else {
        assert(n * length == 0) by (nonlinear_arith)
            requires
                n == 0,
        ;
    }
}

proof fn lemma_current_cycle_exists(
    start: Moment,
    unit: Seq<char>,
    interval: u64,
    length: int,
    now: Moment,
    n: nat,
) -> (c: nat)
    requires
        interval > 0,
        takes(unit, interval, length),
        0 < length <= LONGEST_SPAN,
        moment::in_calendar(start.secs as int),
        nth_cycle(start, unit, interval, n) is Some,
        forall|k: nat|
            1 <= k <= n ==> (#[trigger] nth_cycle(start, unit, interval, k) matches Some(m)
                && moment::earlier(m, now)),
    ensures
        is_current(start, unit, interval, now, c),
    decreases convert::floored(LAST_SECOND - start.secs - n * length),
{
    lemma_nth_cycle(start, unit, interval, length, n);
    lemma_nth_cycle(start, unit, interval, length, n + 1);
    assert((n + 1) * length == n * length + length) by (nonlinear_arith);
    match nth_cycle(start, unit, interval, n + 1) {
        Some(m) if moment::earlier(m, now) => {
            lemma_current_cycle_exists(start, unit, interval, length, now, n + 1)
        },
        _ => n,
    }
}

/// The cycle of a rule that is counted in weeks, days or hours begins a whole
/// number of cycles after the rule's start and ends one cycle later. It holds the
/// time that is asked for: it begins before that time, unless it is the first, and
/// does not end before it.
pub proof fn cycles_hold_the_time_asked_for(
    rule: Json,
    value: Json,
    start: Moment,
    unit: String,
    interval: u64,
    length: int,
    now: u64,
)
    requires
        json::member(rule, "cycle_start"@) == Some(value),
        cycle_start_of(value) == Some(start),
        json::member(rule, "cycle_unit"@) == Some(Json::Text(unit)),
        json::member(rule, "cycle_interval"@) == Some(Json::Unsigned(interval)),
        interval > 0,
        takes(text::lowered(unit@), interval, length),
        0 <= start.secs,
        start.secs + length <= LAST_SECOND,
        now + length <= LAST_SECOND,
    ensures
        cycle_begin(rule, now) matches Some(begin) && cycle_finish(rule, now) matches Some(end) && {
            &&& end == begin + length
            &&& begin >= start.secs
            &&& (begin - start.secs) % length == 0
            &&& begin == start.secs || begin < now
            &&& now <= end
        },
{
    let u = text::lowered(unit@);
    let at = Moment { secs: now as i64, nanos: 0 };
    lemma_unit_names_differ();
    lemma_nth_cycle(start, u, interval, length, 0);
    let n = lemma_current_cycle_exists(start, u, interval, length, at, 0);
    current_cycle_is_unique(start, u, interval, at, n);
    lemma_nth_cycle(start, u, interval, length, n);
    lemma_nth_cycle(start, u, interval, length, n + 1);
    assert((n + 1) * length == n * length + length) by (nonlinear_arith);
    assert(n * length >= 0) by (nonlinear_arith)
        requires
            n >= 0,
            length > 0,
    ;
    if n > 0 {
        assert(nth_cycle(start, u, interval, n) matches Some(m) && moment::earlier(m, at));
    } else {
        assert(n * length == 0) by (nonlinear_arith)
            requires
                n == 0,
        ;
    }
    vstd::arithmetic::div_mod::lemma_mod_multiples_basic(n as int, length);
}

/// A cycle starts at the second that the rule gives as a number, or at the time
/// that it writes in RFC 3339 notation.
pub proof fn cycles_start_where_the_rule_says(value: Json)
    ensures
        match value {
            Json::Unsigned(n) => n <= LAST_SECOND ==> (cycle_start_of(value) matches Some(m)
                && m.secs == n && m.nanos == 0),
            Json::Negative(n) => n < 0 && n >= FIRST_SECOND ==> (cycle_start_of(
                value,
            ) matches Some(m) && m.secs == n && m.nanos == 0),
            Json::Text(s) => match (cycle_start_of(value), moment::time_by_rfc3339(s@)) {
                (Some(m), Some(t)) => m.secs == t.0 && m.nanos == t.1,
                (None, None) => true,
                _ => false,
            },
            _ => cycle_start_of(value) is None,
        },
{
}

/// A cycle of no length began at the start of the rule.
pub proof fn empty_cycles_never_end(start: Moment, unit: Seq<char>, now: u64)
    requires
        start.secs >= 0,
    ensures
        begin_of(start, unit, 0, now) == Some(start.secs as u64),
{
}

/// A rule that names no unit counts hours, and the letters of a unit count whatever their
/// case; a rule without a start or without an interval has no cycle.
pub proof fn rules_without_a_unit_count_hours(rule: Json, unit: String, now: u64)
    ensures
        json::member(rule, "cycle_unit"@) is None ==> cycle_unit_of(rule) == "hour"@,
        json::member(rule, "cycle_unit"@) == Some(Json::Text(unit)) ==> cycle_unit_of(rule)
            == text::lowered(unit@),
        json::member(rule, "cycle_start"@) is None ==> cycle_begin(rule, now) is None
            && cycle_finish(rule, now) is None,
        json::member(rule, "cycle_interval"@) is None ==> cycle_begin(rule, now) is None
            && cycle_finish(rule, now) is None,
{
    reveal_strlit("hour");
    assert(text::lowered("hour"@) =~= "hour"@);
}

/// The end of a cycle is where the next one begins, whatever its unit: one interval after
/// its begin.
pub proof fn cycles_end_where_the_next_begins(
    rule: Json,
    unit: String,
    interval: u64,
    now: u64,
    begin: u64,
    end: u64,
)
    requires
        json::member(rule, "cycle_unit"@) == Some(Json::Text(unit)),
        json::member(rule, "cycle_interval"@) == Some(Json::Unsigned(interval)),
        cycle_begin(rule, now) == Some(begin),
        cycle_finish(rule, now) == Some(end),
        begin <= LAST_SECOND,
    ensures
        after_interval(
            (Moment { secs: begin as i64, nanos: 0 }),
            text::lowered(unit@),
            interval,
        ) matches Some(t) && (t.secs >= 0 ==> t.secs == end),
{
}

/// The cycle that counts is the last of those which begin before now, counted from the
/// start in steps of the interval, whatever the unit; where none does, it is the first.
pub proof fn last_cycle_before_now_counts(
    start: Moment,
    unit: Seq<char>,
    interval: u64,
    now: u64,
    n: nat,
    m: Moment,
    next: Moment,
)
    requires
        interval > 0,
        now <= LAST_SECOND,
        nth_cycle(start, unit, interval, n) == Some(m),
        after_interval(m, unit, interval) == Some(next),
        forall|k: nat|
            1 <= k <= n ==> (#[trigger] nth_cycle(start, unit, interval, k) matches Some(c)
                && c.secs < now),
        next.secs >= now,
        m.secs >= 0,
    ensures
        begin_of(start, unit, interval, now) == Some(m.secs as u64),
        nth_cycle(start, unit, interval, 0) == Some(start),
{
    let at = Moment { secs: now as i64, nanos: 0 };
    assert(nth_cycle(start, unit, interval, n + 1) == Some(next));
    assert(is_current(start, unit, interval, at, n));
    current_cycle_is_unique(start, unit, interval, at, n);
}

} // verus!
