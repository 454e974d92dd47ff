//! What requests to the dashboard name, and whether they may name it.
use vstd::prelude::*;

use crate::{access, decimal, json, search, text};
use crate::access::{
    AccessError, Claims, find_item, id_is_owned, ids_are_owned, owner_is_permitted,
    user_can_view_server,
};
use crate::alerts::contains_id;
use crate::decimal::parse_u64;
use crate::json::{Json, u64_field, u64_list_field, unsigned_list};
use crate::model::{CronResource, NotificationGroupResource, PublicServer};
use crate::text::{same, trim};
use crate::waf::page_limit;

verus! {

/// The numbers in the order in which they first occur.
pub open spec fn distinct(items: Seq<u64>) -> Seq<u64>
    decreases items.len(),
{
    if items.len() == 0 {
        seq![]
    } else {
        let before = distinct(items.drop_last());
        if before.contains(items.last()) {
            before
        } else {
            before.push(items.last())
        }
    }
}

/// Each number once, in the order in which they first occur.
pub fn unique_u64s(items: &[u64]) -> (r: Vec<u64>)
    ensures
        r@ == distinct(items@),
{
    let mut unique: Vec<u64> = Vec::new();
    let mut i: usize = 0;
    proof {
        assert(items@.take(0) =~= seq![]);
    }
    while i < items.len()
        invariant
            i <= items@.len(),
            unique@ == distinct(items@.take(i as int)),
        decreases items@.len() - i,
    {
        proof {
            assert(items@.take(i + 1).drop_last() =~= items@.take(i as int));
        }
        if !contains_id(&unique, items[i]) {
            unique.push(items[i]);
        }
        i += 1;
    }
    proof {
        assert(items@.take(items@.len() as int) =~= items@);
    }
    unique
}

/// No number is lost or comes twice when each is taken once.
pub proof fn distinct_numbers_are_the_same(items: Seq<u64>)
    ensures
        distinct(items).no_duplicates(),
        forall|id: u64| #[trigger] distinct(items).contains(id) <==> items.contains(id),
    decreases items.len(),
{
    if items.len() > 0 {
        distinct_numbers_are_the_same(items.drop_last());
        let before = distinct(items.drop_last());
        assert forall|id: u64| #[trigger] distinct(items).contains(id) <==> items.contains(id) by {
            assert(before.contains(id) <==> items.drop_last().contains(id));
            if items.contains(id) {
                let k = choose|k: int| 0 <= k < items.len() && items[k] == id;
                if k < items.len() - 1 {
                    assert(items.drop_last()[k] == id);
                    let j = choose|j: int| 0 <= j < before.len() && before[j] == id;
                    assert(distinct(items)[j] == id);
                } else if !before.contains(id) {
                    assert(distinct(items)[before.len() as int] == id);
                }
            }
            if distinct(items).contains(id) {
                if before.contains(id) {
                    let k = choose|k: int|
                        0 <= k < items.drop_last().len() && items.drop_last()[k] == id;
                    assert(items[k] == id);
                } else {
                    let j = choose|j: int|
                        0 <= j < distinct(items).len() && distinct(items)[j] == id;
                    assert(j == before.len());
                    assert(items[items.len() - 1] == id);
                }
            }
        }
    }
}

/// The texts without white space around them, in the order in which they first
/// occur, without the empty one.
pub open spec fn distinct_texts(items: Seq<Seq<char>>) -> Seq<Seq<char>>
    decreases items.len(),
{
    if items.len() == 0 {
        seq![]
    } else {
        let before = distinct_texts(items.drop_last());
        let item = text::trimmed(items.last());
        if item.len() == 0 || before.contains(item) {
            before
        } else {
            before.push(item)
        }
    }
}

pub(crate) fn contains_text(v: &[String], s: &str) -> (r: bool)
    ensures
        r == search::texts(v@).contains(s@),
{
    let mut i: usize = 0;
    while i < v.len()
        invariant
            i <= v@.len(),
            forall|k: int| 0 <= k < i ==> (#[trigger] search::texts(v@)[k]) != s@,
        decreases v@.len() - i,
    {
        if same(v[i].as_str(), s) {
            proof {
                assert(search::texts(v@)[i as int] == s@);
            }
            return true;
        }
        i += 1;
    }
    false
}

/// Each text once, without white space around it.
pub fn unique_strings(items: Vec<String>) -> (r: Vec<String>)
    ensures
        search::texts(r@) == distinct_texts(search::texts(items@)),
{
    let mut unique: Vec<String> = Vec::new();
    let mut i: usize = 0;
    proof {
        assert(search::texts(items@).take(0) =~= seq![]);
        assert(search::texts(unique@) =~= seq![]);
    }
    while i < items.len()
        invariant
            i <= items@.len(),
            search::texts(unique@) == distinct_texts(search::texts(items@).take(i as int)),
        decreases items@.len() - i,
    {
        proof {
            assert(search::texts(items@).take(i + 1).drop_last()
                =~= search::texts(items@).take(i as int));
        }
        let item = trim(items[i].as_str());
        if !item.as_str().is_empty() && !contains_text(&unique, item.as_str()) {
            proof {
                search::lemma_texts_push(unique@, item);
            }
            unique.push(item);
        }
        i += 1;
    }
    proof {
        assert(search::texts(items@).take(items@.len() as int) =~= search::texts(items@));
    }
    unique
}

/// The numbers that a request names: the request is a list of them, or has one
/// under `ids`.
pub open spec fn ids_named(body: Json) -> Seq<u64> {
    match json::as_list(Some(body)) {
        Some(items) => json::unsigned_items(items),
        None => json::u64_list_member(body, "ids"@),
    }
}

/// The numbers that a request names.
pub fn id_list(body: &Json) -> (r: Vec<u64>)
    ensures
        r@ == ids_named(*body),
{
    match body {
        Json::List(items) => unsigned_list(items),
        _ => u64_list_field(body, "ids"),
    }
}

/// The numbers among the names of members.
pub open spec fn key_ids(entries: Seq<(String, Json)>) -> Seq<u64>
    decreases entries.len(),
{
    if entries.len() == 0 {
        seq![]
    } else {
        match decimal::parsed_u64(entries.last().0@) {
            Some(id) => key_ids(entries.drop_last()).push(id),
            None => key_ids(entries.drop_last()),
        }
    }
}

/// The numbers among the names of an object's members.
pub open spec fn member_ids(value: Option<Json>) -> Seq<u64> {
    match value {
        Some(Json::Object(entries)) => key_ids(entries@),
        _ => seq![],
    }
}

/// The numbers among the names of an object's members.
pub fn object_key_ids(value: Option<&Json>) -> (r: Vec<u64>)
    ensures
        r@ == match value {
            Some(v) => member_ids(Some(*v)),
            None => member_ids(None),
        },
{
    let mut out: Vec<u64> = Vec::new();
    if let Some(v) = value {
        if let Json::Object(entries) = v {
            let mut i: usize = 0;
            proof {
                assert(entries@.take(0) =~= seq![]);
            }
            while i < entries.len()
                invariant
                    i <= entries@.len(),
                    out@ == key_ids(entries@.take(i as int)),
                decreases entries@.len() - i,
            {
                proof {
                    assert(entries@.take(i + 1).drop_last() =~= entries@.take(i as int));
                }
                if let Some(id) = parse_u64(entries[i].0.as_str()) {
                    out.push(id);
                }
                i += 1;
            }
            proof {
                assert(entries@.take(entries@.len() as int) =~= entries@);
            }
        }
    }
    out
}

/// The numbers in a list of a request.
pub fn u64_array(body: &Json, field: &str) -> (r: Vec<u64>)
    ensures
        r@ == json::u64_list_member(*body, field@),
{
    u64_list_field(body, field)
}

/// What is wrong with the servers of a group, from the one at `k` on.
pub open spec fn group_error(
    servers: Seq<PublicServer>,
    ids: Seq<u64>,
    claims: Claims,
    k: int,
) -> Option<AccessError>
    decreases ids.len() - k,
{
    if k >= ids.len() {
        None
    } else if access::place_of(servers, ids[k], 0) == servers.len() {
        Some(AccessError::InvalidServerId)
    } else if !access::owned_among(servers, ids[k], claims) {
        Some(AccessError::PermissionDenied)
    } else {
        group_error(servers, ids, claims, k + 1)
    }
}

/// Refuses a group of servers of which one does not exist or belongs to
/// another.
pub fn validate_server_group_servers(
    servers: &[PublicServer],
    claims: &Claims,
    ids: &[u64],
) -> (r: Result<(), AccessError>)
    ensures
        match r {
            Ok(()) => group_error(servers@, ids@, *claims, 0) is None,
            Err(e) => group_error(servers@, ids@, *claims, 0) == Some(e),
        },
{
    let mut k: usize = 0;
    while k < ids.len()
        invariant
            k <= ids@.len(),
            group_error(servers@, ids@, *claims, k as int) == group_error(
                servers@,
                ids@,
                *claims,
                0,
            ),
        decreases ids@.len() - k,
    {
        proof {
            access::lemma_place_of(servers@, ids@[k as int], 0);
        }
        match find_item(servers, ids[k]) {
            Some(i) => {
                if !owner_is_permitted(claims, servers[i].user_id) {
                    return Err(AccessError::PermissionDenied);
                }
            },
            None => {
                return Err(AccessError::InvalidServerId);
            },
        }
        k += 1;
    }
    Ok(())
}

/// Whether a request may name a group of notifications; none is 0.
pub open spec fn group_is_good(
    groups: Seq<NotificationGroupResource>,
    claims: Claims,
    group_id: u64,
) -> bool {
    group_id == 0 || access::owned_among(groups, group_id, claims)
}

/// Refuses a group of notifications that does not exist or belongs to another.
pub fn validate_notification_group_ref(
    groups: &[NotificationGroupResource],
    claims: &Claims,
    group_id: u64,
) -> (r: Result<(), AccessError>)
    ensures
        r == if group_is_good(groups@, *claims, group_id) {
            Ok::<(), AccessError>(())
        } else {
            Err(AccessError::PermissionDenied)
        },
{
    if group_id == 0 || id_is_owned(groups, group_id, claims) {
        Ok(())
    } else {
        Err(AccessError::PermissionDenied)
    }
}

/// Refuses servers that do not exist or belong to another.
pub fn validate_server_ids(servers: &[PublicServer], claims: &Claims, ids: &[u64]) -> (r: Result<
    (),
    AccessError,
>)
    ensures
        r == if access::all_owned_among(servers@, ids@, *claims) {
            Ok::<(), AccessError>(())
        } else {
            Err(AccessError::PermissionDenied)
        },
{
    if ids_are_owned(servers, ids, claims) {
        Ok(())
    } else {
        Err(AccessError::PermissionDenied)
    }
}

/// Refuses tasks that do not exist or belong to another.
pub fn validate_cron_ids(crons: &[CronResource], claims: &Claims, ids: &[u64]) -> (r: Result<
    (),
    AccessError,
>)
    ensures
        r == if access::all_owned_among(crons@, ids@, *claims) {
            Ok::<(), AccessError>(())
        } else {
            Err(AccessError::PermissionDenied)
        },
{
    if ids_are_owned(crons, ids, claims) {
        Ok(())
    } else {
        Err(AccessError::PermissionDenied)
    }
}

/// Whether the servers and the group that a task names may be named.
pub open spec fn cron_is_good(
    servers: Seq<PublicServer>,
    groups: Seq<NotificationGroupResource>,
    claims: Claims,
    body: Json,
) -> bool {
    access::all_owned_among(servers, json::u64_list_member(body, "servers"@), claims)
        && group_is_good(groups, claims, json::u64_member(body, "notification_group_id"@))
}

/// Refuses a task whose servers or group the one who asks may not name.
pub fn validate_cron_references(
    servers: &[PublicServer],
    groups: &[NotificationGroupResource],
    claims: &Claims,
    body: &Json,
) -> (r: Result<(), AccessError>)
    ensures
        r == if cron_is_good(servers@, groups@, *claims, *body) {
            Ok::<(), AccessError>(())
        } else {
            Err(AccessError::PermissionDenied)
        },
{
    let ids = u64_array(body, "servers");
    match validate_server_ids(servers, claims, &ids) {
        Ok(()) => {},
        Err(e) => {
            return Err(e);
        },
    }
    validate_notification_group_ref(groups, claims, u64_field(body, "notification_group_id"))
}

/// Whether the tasks and the group that an alert or a service names may be
/// named.
pub open spec fn triggers_are_good(
    crons: Seq<CronResource>,
    groups: Seq<NotificationGroupResource>,
    claims: Claims,
    body: Json,
) -> bool {
    &&& access::all_owned_among(crons, json::u64_list_member(body, "fail_trigger_tasks"@), claims)
    &&& access::all_owned_among(crons, json::u64_list_member(body, "recover_trigger_tasks"@), claims)
    &&& group_is_good(groups, claims, json::u64_member(body, "notification_group_id"@))
}

/// Refuses an alert whose tasks or group the one who asks may not name.
pub fn validate_alert_rule_references(
    crons: &[CronResource],
    groups: &[NotificationGroupResource],
    claims: &Claims,
    body: &Json,
) -> (r: Result<(), AccessError>)
    ensures
        r == if triggers_are_good(crons@, groups@, *claims, *body) {
            Ok::<(), AccessError>(())
        } else {
            Err(AccessError::PermissionDenied)
        },
{
    let fail = u64_array(body, "fail_trigger_tasks");
    match validate_cron_ids(crons, claims, &fail) {
        Ok(()) => {},
        Err(e) => {
            return Err(e);
        },
    }
    let recover = u64_array(body, "recover_trigger_tasks");
    match validate_cron_ids(crons, claims, &recover) {
        Ok(()) => {},
        Err(e) => {
            return Err(e);
        },
    }
    validate_notification_group_ref(groups, claims, u64_field(body, "notification_group_id"))
}

/// Whether the servers, tasks and group that a service names may be named.
pub open spec fn monitor_is_good(
    servers: Seq<PublicServer>,
    crons: Seq<CronResource>,
    groups: Seq<NotificationGroupResource>,
    claims: Claims,
    body: Json,
) -> bool {
    access::all_owned_among(servers, member_ids(json::member(body, "skip_servers"@)), claims)
        && access::all_owned_among(crons, member_ids(json::member(body, "trigger_tasks"@)), claims)
        && triggers_are_good(crons, groups, claims, body)
}

/// Refuses a service whose servers, tasks or group the one who asks may not
/// name.
pub fn validate_monitor_references(
    servers: &[PublicServer],
    crons: &[CronResource],
    groups: &[NotificationGroupResource],
    claims: &Claims,
    body: &Json,
) -> (r: Result<(), AccessError>)
    ensures
        r == if monitor_is_good(servers@, crons@, groups@, *claims, *body) {
            Ok::<(), AccessError>(())
        } else {
            Err(AccessError::PermissionDenied)
        },
{
    let skipped = object_key_ids(body.get("skip_servers"));
    match validate_server_ids(servers, claims, &skipped) {
        Ok(()) => {},
        Err(e) => {
            return Err(e);
        },
    }
    let triggered = object_key_ids(body.get("trigger_tasks"));
    match validate_cron_ids(crons, claims, &triggered) {
        Ok(()) => {},
        Err(e) => {
            return Err(e);
        },
    }
    validate_alert_rule_references(crons, groups, claims, body)
}

/// Whether the server that a passage into a network names, if any, may be named.
pub open spec fn nat_is_good(servers: Seq<PublicServer>, claims: Claims, body: Json) -> bool {
    json::as_u64(json::member(body, "server_id"@)) is None || access::owned_among(
        servers,
        json::as_u64(json::member(body, "server_id"@))->0,
        claims,
    )
}

/// Refuses a passage into a network whose server the one who asks may not name.
pub fn validate_nat_server(servers: &[PublicServer], claims: &Claims, body: &Json) -> (r: Result<
    (),
    AccessError,
>)
    ensures
        r == if nat_is_good(servers@, *claims, *body) {
            Ok::<(), AccessError>(())
        } else {
            Err(AccessError::PermissionDenied)
        },
{
    if let Some(value) = body.get("server_id") {
        if let Some(server_id) = value.unsigned() {
            if !id_is_owned(servers, server_id, claims) {
                return Err(AccessError::PermissionDenied);
            }
        }
    }
    Ok(())
}

/// Whether servers may be handed over to a user.
pub open spec fn moving(claims: Claims, to_user: u64) -> Result<(), AccessError> {
    if to_user == 0 {
        Err(AccessError::UserIdRequired)
    } else if !access::permits(claims, to_user) {
        Err(AccessError::PermissionDenied)
    } else {
        Ok(())
    }
}

/// Refuses to hand servers over to nobody or, unless an administrator asks, to
/// somebody else.
pub fn may_move_to(claims: &Claims, to_user: u64) -> (r: Result<(), AccessError>)
    ensures
        r == moving(*claims, to_user),
{
    if to_user == 0 {
        return Err(AccessError::UserIdRequired);
    }
    if claims.role != 0 && to_user != claims.uid {
        return Err(AccessError::PermissionDenied);
    }
    Ok(())
}

/// Whether users may be deleted.
pub open spec fn deleting(claims: Claims, ids: Seq<u64>) -> Result<(), AccessError> {
    if ids.contains(claims.uid) {
        Err(AccessError::DeleteSelf)
    } else {
        Ok(())
    }
}

/// Refuses to delete the one who asks.
pub fn may_delete_users(claims: &Claims, ids: &[u64]) -> (r: Result<(), AccessError>)
    ensures
        r == deleting(*claims, ids@),
{
    if contains_id(ids, claims.uid) {
        Err(AccessError::DeleteSelf)
    } else {
        Ok(())
    }
}

/// How many rows a page shows and how many come before it.
pub open spec fn page_asked(limit: Option<u64>, offset: Option<u64>) -> (u64, u64) {
    (
        match limit {
            Some(n) => if n < 1 {
                1
            } else if n > 500 {
                500
            } else {
                n
            },
            None => 25,
        },
        json::or_else(offset, 0),
    )
}

/// How many rows a page shows and how many come before it.
pub fn page_of(limit: Option<u64>, offset: Option<u64>) -> (r: (u64, u64))
    ensures
        r == page_asked(limit, offset),
{
    let rows: u64 = match limit {
        Some(n) => n,
        None => 25,
    };
    let before: u64 = match offset {
        Some(n) => n,
        None => 0,
    };
    (page_limit(rows), before)
}

/// The seconds that a period has.
pub open spec fn seconds_of(period: Seq<char>) -> Option<u64> {
    if period == "1d"@ {
        Some(86400)
    } else if period == "7d"@ {
        Some(604800)
    } else if period == "30d"@ {
        Some(2592000)
    } else {
        None
    }
}

/// The seconds that a period has.
pub fn period_seconds(period: &str) -> (r: Option<u64>)
    ensures
        r == seconds_of(period@),
{
    if same(period, "1d") {
        Some(24 * 3600)
    } else if same(period, "7d") {
        Some(7 * 24 * 3600)
    } else if same(period, "30d") {
        Some(30 * 24 * 3600)
    } else {
        None
    }
}

/// From when on a history of the period `asked` is shown.
pub open spec fn shown_since(is_guest: bool, period: Option<Seq<char>>, now: u64) -> Result<
    u64,
    AccessError,
> {
    let asked = json::or_else(period, "1d"@);
    let back = json::or_else(seconds_of(asked), 86400);
    if is_guest && asked != "1d"@ {
        Err(AccessError::GuestPeriod)
    } else if now < back {
        Ok(0)
    } else {
        Ok((now - back) as u64)
    }
}

/// The text of a period.
pub open spec fn period_text(period: Option<&str>) -> Option<Seq<char>> {
    match period {
        Some(p) => Some(p@),
        None => None,
    }
}

/// Which of the servers has its history shown, and from when on.
pub open spec fn history_shown(
    servers: Seq<PublicServer>,
    id: u64,
    claims: Option<&Claims>,
    period: Option<Seq<char>>,
    now: u64,
) -> Result<(usize, u64), AccessError> {
    let i = access::place_of(servers, id, 0);
    if i == servers.len() {
        Err(AccessError::ServerNotFound)
    } else if !access::can_view(claims, servers[i]) {
        Err(AccessError::Unauthorized)
    } else {
        match shown_since(claims is None, period, now) {
            Ok(since) => Ok((i as usize, since)),
            Err(e) => Err(e),
        }
    }
}

/// From when on a history is shown: a day back, or as long as a user asks for.
pub fn history_since(is_guest: bool, period: Option<&str>, now: u64) -> (r: Result<
    u64,
    AccessError,
>)
    ensures
        r == shown_since(is_guest, period_text(period), now),
{
    let asked: &str = match period {
        Some(p) => p,
        None => "1d",
    };
    if is_guest && !same(asked, "1d") {
        return Err(AccessError::GuestPeriod);
    }
    let back: u64 = match period_seconds(asked) {
        Some(n) => n,
        None => 24 * 3600,
    };
    if now < back {
        Ok(0)
    } else {
        Ok(now - back)
    }
}

/// Which server's history is shown, and from when on.
pub fn history_access(
    servers: &[PublicServer],
    id: u64,
    claims: Option<&Claims>,
    period: Option<&str>,
    now: u64,
) -> (r: Result<(usize, u64), AccessError>)
    ensures
        r == history_shown(servers@, id, claims, period_text(period), now),
{
    proof {
        access::lemma_place_of(servers@, id, 0);
    }
    match find_item(servers, id) {
        Some(i) => {
            if !user_can_view_server(claims, &servers[i]) {
                return Err(AccessError::Unauthorized);
            }
            match history_since(claims.is_none(), period, now) {
                Ok(since) => Ok((i, since)),
                Err(e) => Err(e),
            }
        },
        None => Err(AccessError::ServerNotFound),
    }
}

/// Histories go back one, seven or thirty days, and one day where nothing else that
/// is known was asked for. Guests are shown one day only and refused more; users
/// are never refused.
pub proof fn histories_go_back_as_long_as_asked(period: Seq<char>, now: u64)
    requires
        now >= 30 * 24 * 60 * 60,
    ensures
        shown_since(false, Some("1d"@), now) == Ok::<u64, AccessError>((now - 24 * 60 * 60) as u64),
        shown_since(false, Some("7d"@), now) == Ok::<u64, AccessError>(
            (now - 7 * 24 * 60 * 60) as u64,
        ),
        shown_since(false, Some("30d"@), now) == Ok::<u64, AccessError>(
            (now - 30 * 24 * 60 * 60) as u64,
        ),
        shown_since(false, None, now) == shown_since(false, Some("1d"@), now),
        period != "7d"@ && period != "30d"@ ==> shown_since(false, Some(period), now)
            == shown_since(false, Some("1d"@), now),
        shown_since(true, Some("1d"@), now) == shown_since(false, Some("1d"@), now),
        shown_since(true, None, now) == shown_since(false, None, now),
        period != "1d"@ ==> shown_since(true, Some(period), now) == Err::<u64, AccessError>(
            AccessError::GuestPeriod,
        ),
{
    reveal_strlit("1d");
    reveal_strlit("7d");
    reveal_strlit("30d");
    assert("1d"@[0] == '1' && "7d"@[0] == '7' && "30d"@[0] == '3');
}

/// The history of a server is shown to whoever may see the server: the first that
/// has the number.
pub proof fn histories_are_shown_of_seen_servers(
    servers: Seq<PublicServer>,
    id: u64,
    at: int,
    claims: Option<&Claims>,
    period: Option<Seq<char>>,
    now: u64,
)
    requires
        0 <= at <= servers.len() <= usize::MAX,
        forall|k: int| 0 <= k < at ==> (#[trigger] servers[k]).id != id,
        at < servers.len() ==> servers[at].id == id,
    ensures
        at == servers.len() ==> history_shown(servers, id, claims, period, now) == Err::<
            (usize, u64),
            AccessError,
        >(AccessError::ServerNotFound),
        at < servers.len() && !access::can_view(claims, servers[at]) ==> history_shown(
            servers,
            id,
            claims,
            period,
            now,
        ) == Err::<(usize, u64), AccessError>(AccessError::Unauthorized),
        at < servers.len() && access::can_view(claims, servers[at]) ==> match (
            history_shown(servers, id, claims, period, now),
            shown_since(claims is None, period, now),
        ) {
            (Ok(shown), Ok(since)) => shown.0 == at && shown.1 == since,
            (Err(a), Err(b)) => a == b,
            _ => false,
        },
{
    access::lemma_place_of(servers, id, 0);
    let i = access::place_of(servers, id, 0);
    if i < at {
        assert(servers[i].id != id);
    } else if at < i {
        assert(servers[at].id != id);
    }
}

/// A page shows 25 rows where nothing is asked for, else what is asked for, but
/// never none nor more than 500; it begins where it is asked to, or at the start.
pub proof fn pages_show_from_one_to_five_hundred(limit: u64, offset: u64)
    ensures
        page_asked(None, None) == (25u64, 0u64),
        1 <= limit <= 500 ==> page_asked(Some(limit), Some(offset)) == (limit, offset),
        page_asked(Some(0), Some(offset)) == (1u64, offset),
        limit >= 500 ==> page_asked(Some(limit), Some(offset)) == (500u64, offset),
{
}

/// Servers go to an existing user: an administrator hands them to anybody, a user
/// only to themselves.
pub proof fn servers_are_handed_over_by_administrators(claims: Claims, to_user: u64)
    ensures
        moving(claims, 0) == Err::<(), AccessError>(AccessError::UserIdRequired),
        to_user != 0 ==> (moving(claims, to_user) is Ok <==> claims.role == 0 || claims.uid
            == to_user),
        to_user != 0 && moving(claims, to_user) is Err ==> moving(claims, to_user) == Err::<
            (),
            AccessError,
        >(AccessError::PermissionDenied),
{
}

/// Users are deleted unless the one who asks is among them.
pub proof fn nobody_deletes_themselves(claims: Claims, ids: Seq<u64>, i: int)
    requires
        0 <= i < ids.len(),
    ensures
        ids[i] == claims.uid ==> deleting(claims, ids) == Err::<(), AccessError>(
            AccessError::DeleteSelf,
        ),
        (forall|k: int| 0 <= k < ids.len() ==> ids[k] != claims.uid) ==> deleting(claims, ids)
            is Ok,
        deleting(claims, seq![]) is Ok,
{
}

/// A group of servers is accepted exactly where every server exists and may be
/// changed by the one who asks. The first that stands against it decides what is
/// told.
pub proof fn groups_hold_servers_of_their_owner(
    servers: Seq<PublicServer>,
    ids: Seq<u64>,
    claims: Claims,
    k: int,
)
    requires
        0 <= k <= ids.len(),
    ensures
        group_error(servers, ids, claims, k) is None <==> forall|j: int|
            k <= j < ids.len() ==> access::owned_among(servers, #[trigger] ids[j], claims),
        group_error(servers, ids, claims, k) == Some(AccessError::InvalidServerId) ==> exists|
            j: int,
        |
            k <= j < ids.len() && (forall|s: int|
                0 <= s < servers.len() ==> (#[trigger] servers[s]).id != #[trigger] ids[j]),
        group_error(servers, ids, claims, k) matches Some(e) ==> e == AccessError::InvalidServerId
            || e == AccessError::PermissionDenied,
    decreases ids.len() - k,
{
    if k < ids.len() {
        groups_hold_servers_of_their_owner(servers, ids, claims, k + 1);
        access::lemma_place_of(servers, ids[k], 0);
        let i = access::place_of(servers, ids[k], 0);
        if i == servers.len() {
            assert forall|s: int| 0 <= s < servers.len() implies (#[trigger] servers[s]).id
                != ids[k] by {}
        }
        if i < servers.len() && access::owned_among(servers, ids[k], claims) {
            assert(group_error(servers, ids, claims, k) == group_error(
                servers,
                ids,
                claims,
                k + 1,
            ));
        }
    }
}

/// A task is accepted exactly where every server that it names may be changed by
/// the one who asks, and so may its group, unless it has none.
pub proof fn tasks_name_what_their_owner_has(
    servers: Seq<PublicServer>,
    groups: Seq<NotificationGroupResource>,
    claims: Claims,
    body: Json,
)
    ensures
        cron_is_good(servers, groups, claims, body) <==> ({
            let ids = json::u64_list_member(body, "servers"@);
            let group = json::u64_member(body, "notification_group_id"@);
            &&& forall|k: int|
                0 <= k < ids.len() ==> access::owned_among(servers, #[trigger] ids[k], claims)
            &&& group == 0 || access::owned_among(groups, group, claims)
        }),
{
}

/// An alert or a service may name no task, for failure or for recovery, nor a group
/// that the one who asks may not change, and a service besides that no server; and
/// it is refused for nothing else.
pub proof fn alerts_and_services_name_what_their_owner_has(
    servers: Seq<PublicServer>,
    crons: Seq<CronResource>,
    groups: Seq<NotificationGroupResource>,
    claims: Claims,
    body: Json,
)
    ensures
        ({
            let fail = json::u64_list_member(body, "fail_trigger_tasks"@);
            let recover = json::u64_list_member(body, "recover_trigger_tasks"@);
            let group = json::u64_member(body, "notification_group_id"@);
            let skipped = member_ids(json::member(body, "skip_servers"@));
            let triggered = member_ids(json::member(body, "trigger_tasks"@));
            let tasks_are_good = forall|id: u64|
                (fail.contains(id) || recover.contains(id)) ==> #[trigger] access::owned_among(
                    crons,
                    id,
                    claims,
                );
            &&& triggers_are_good(crons, groups, claims, body) <==> tasks_are_good && (group == 0
                || access::owned_among(groups, group, claims))
            &&& monitor_is_good(servers, crons, groups, claims, body) <==> triggers_are_good(
                crons,
                groups,
                claims,
                body,
            ) && (forall|id: u64| #[trigger]
                skipped.contains(id) ==> access::owned_among(servers, id, claims)) && (forall|
                id: u64,
            | #[trigger]
                triggered.contains(id) ==> access::owned_among(crons, id, claims))
        }),
{
    let fail = json::u64_list_member(body, "fail_trigger_tasks"@);
    let recover = json::u64_list_member(body, "recover_trigger_tasks"@);
    let skipped = member_ids(json::member(body, "skip_servers"@));
    let triggered = member_ids(json::member(body, "trigger_tasks"@));
    lemma_all_owned(crons, fail, claims);
    lemma_all_owned(crons, recover, claims);
    lemma_all_owned(servers, skipped, claims);
    lemma_all_owned(crons, triggered, claims);
    if triggers_are_good(crons, groups, claims, body) {
        assert forall|id: u64|
            (fail.contains(id) || recover.contains(id)) implies #[trigger] access::owned_among(
            crons,
            id,
            claims,
        ) by {}
    }
}

proof fn lemma_all_owned<T: access::Owned>(items: Seq<T>, ids: Seq<u64>, claims: Claims)
    ensures
        access::all_owned_among(items, ids, claims) <==> forall|id: u64| #[trigger]
            ids.contains(id) ==> access::owned_among(items, id, claims),
{
    if access::all_owned_among(items, ids, claims) {
        assert forall|id: u64| #[trigger] ids.contains(id) implies access::owned_among(
            items,
            id,
            claims,
        ) by {
            let k = choose|k: int| 0 <= k < ids.len() && ids[k] == id;
            assert(access::owned_among(items, ids[k], claims));
        }
    }
    if forall|id: u64| #[trigger] ids.contains(id) ==> access::owned_among(items, id, claims) {
        assert forall|k: int| 0 <= k < ids.len() implies access::owned_among(
            items,
            #[trigger] ids[k],
            claims,
        ) by {
            assert(ids.contains(ids[k]));
        }
    }
}

/// A passage that names a server is refused exactly where the one who asks may not
/// change it.
pub proof fn passages_go_to_servers_of_their_owner(
    servers: Seq<PublicServer>,
    claims: Claims,
    body: Json,
    server_id: u64,
)
    ensures
        json::member(body, "server_id"@) == Some(Json::Unsigned(server_id)) ==> (nat_is_good(
            servers,
            claims,
            body,
        ) <==> access::owned_among(servers, server_id, claims)),
        json::member(body, "server_id"@) is None ==> nat_is_good(servers, claims, body),
{
}

/// Texts are taken without white space at their ends, none that is blank and none twice,
/// and none is lost.
pub proof fn distinct_texts_are_the_same(items: Seq<Seq<char>>)
    ensures
        distinct_texts(items).no_duplicates(),
        forall|s: Seq<char>| #[trigger]
            distinct_texts(items).contains(s) <==> s.len() > 0 && exists|i: int|
                0 <= i < items.len() && text::trimmed(#[trigger] items[i]) == s,
    decreases items.len(),
{
    if items.len() > 0 {
        let front = items.drop_last();
        distinct_texts_are_the_same(front);
        let before = distinct_texts(front);
        let all = distinct_texts(items);
        let last = text::trimmed(items.last());
        assert forall|s: Seq<char>| #[trigger]
            all.contains(s) <==> s.len() > 0 && exists|i: int|
                0 <= i < items.len() && text::trimmed(#[trigger] items[i]) == s by {
            assert(before.contains(s) <==> s.len() > 0 && exists|i: int|
                0 <= i < front.len() && text::trimmed(#[trigger] front[i]) == s);
            if all.contains(s) {
                let k = choose|k: int| 0 <= k < all.len() && all[k] == s;
                if k < before.len() {
                    assert(before[k] == s);
                    let i = choose|i: int|
                        0 <= i < front.len() && text::trimmed(#[trigger] front[i]) == s;
                    assert(text::trimmed(items[i]) == s);
                } else {
                    assert(text::trimmed(items[items.len() - 1]) == s);
                }
            }
            if s.len() > 0 && exists|i: int|
                0 <= i < items.len() && text::trimmed(#[trigger] items[i]) == s {
                let i = choose|i: int|
                    0 <= i < items.len() && text::trimmed(#[trigger] items[i]) == s;
                if i < front.len() {
                    assert(text::trimmed(front[i]) == s);
                    let k = choose|k: int| 0 <= k < before.len() && before[k] == s;
                    assert(all[k] == s);
                } else if before.contains(last) {
                    let k = choose|k: int| 0 <= k < before.len() && before[k] == s;
                    assert(all[k] == s);
                } else {
                    assert(all[all.len() - 1] == s);
                }
            }
        }
        if !(last.len() == 0 || before.contains(last)) {
            assert(all == before.push(last));
            assert forall|i: int, j: int| 0 <= i < j < all.len() implies all[i] != all[j] by {
                if j == before.len() {
                    assert(before.contains(before[i]));
                }
            }
        }
    }
}

/// A request names the numbers that it lists, or that it lists under `ids`; the names of
/// members count where they write numbers.
pub proof fn requests_name_what_they_list(body: Json, items: Vec<Json>, entries: Vec<(String, Json)>)
    ensures
        ids_named(Json::List(items)) == json::unsigned_items(items@),
        body is Object && json::member(body, "ids"@) == Some(Json::List(items)) ==> ids_named(body)
            == json::unsigned_items(items@),
        body is Object && json::member(body, "ids"@) is None ==> ids_named(body).len() == 0,
        member_ids(None).len() == 0,
        forall|id: u64| #[trigger]
            member_ids(Some(Json::Object(entries))).contains(id) <==> exists|i: int|
                0 <= i < entries@.len() && decimal::parsed_u64((#[trigger] entries@[i]).0@) == Some(
                    id,
                ),
{
    assert(json::unsigned_items(seq![]) =~= seq![]);
    assert forall|id: u64| #[trigger]
        member_ids(Some(Json::Object(entries))).contains(id) <==> exists|i: int|
            0 <= i < entries@.len() && decimal::parsed_u64((#[trigger] entries@[i]).0@) == Some(
                id,
            ) by {
        lemma_key_ids(entries@, id);
    }
}

proof fn lemma_key_ids(entries: Seq<(String, Json)>, id: u64)
    ensures
        key_ids(entries).contains(id) <==> exists|i: int|
            0 <= i < entries.len() && decimal::parsed_u64((#[trigger] entries[i]).0@) == Some(id),
    decreases entries.len(),
{
    if entries.len() > 0 {
        let front = entries.drop_last();
        let before = key_ids(front);
        let all = key_ids(entries);
        lemma_key_ids(front, id);
        if all.contains(id) {
            let k = choose|k: int| 0 <= k < all.len() && all[k] == id;
            if k < before.len() {
                assert(before[k] == id);
                let i = choose|i: int|
                    0 <= i < front.len() && decimal::parsed_u64((#[trigger] front[i]).0@) == Some(
                        id,
                    );
                assert(decimal::parsed_u64(entries[i].0@) == Some(id));
            } else {
                assert(decimal::parsed_u64(entries[entries.len() - 1].0@) == Some(id));
            }
        }
        if exists|i: int|
            0 <= i < entries.len() && decimal::parsed_u64((#[trigger] entries[i]).0@) == Some(
                id,
            ) {
            let i = choose|i: int|
                0 <= i < entries.len() && decimal::parsed_u64((#[trigger] entries[i]).0@) == Some(
                    id,
                );
            if i < front.len() {
                assert(decimal::parsed_u64(front[i].0@) == Some(id));
                let k = choose|k: int| 0 <= k < before.len() && before[k] == id;
                assert(all[k] == id);
            } else {
                assert(all[all.len() - 1] == id);
            }
        }
    }
}

} // verus!
