//! What is due: tasks by their schedule, services by their interval, and the
//! servers that they go to.
use std::collections::HashMap;
use vstd::prelude::*;

use crate::{history, moment, sorting};
use crate::alerts::contains_id;
use crate::history::service_covers_server;
use crate::model::{
    CronResource, PublicServer, ServiceResource, TaskType, is_service_monitor_task, task_number,
};
use crate::moment::{LAST_SECOND, next_after};
use crate::sorting::insert_id;

verus! {

pub const CRON_TYPE_CRON_TASK: u8 = 0;

pub const CRON_COVER_IGNORE_ALL: u8 = 0;

pub const CRON_COVER_ALL: u8 = 1;

/// After which second a task may run next: after its last run or, where it has
/// not run yet, after the second before `now`.
pub open spec fn last_run(cron: CronResource, now: u64) -> u64 {
    match cron.last_executed_at {
        Some(last) => last,
        None => if now == 0 {
            0
        } else {
            (now - 1) as u64
        },
    }
}

/// Whether the schedule of a task has a run since the last one, up to `now`.
pub open spec fn is_due(cron: CronResource, now: u64) -> bool {
    moment::next_run(cron.scheduler@, last_run(cron, now)) matches Some(next) && next <= now
}

/// Whether a run that is known to come next is due.
pub fn run_is_due(next: Option<u64>, now_unix: u64) -> (r: bool)
    ensures
        r == (next matches Some(n) && n <= now_unix),
{
    match next {
        Some(n) => n <= now_unix,
        None => false,
    }
}

/// Whether the schedule of a task has a run since the last one, up to now.
pub fn cron_due(cron: &CronResource, now_unix: u64) -> (r: bool)
    requires
        last_run(*cron, now_unix) != LAST_SECOND,
    ensures
        r == is_due(*cron, now_unix),
{
    let last: u64 = match cron.last_executed_at {
        Some(last) => last,
        None => if now_unix == 0 {
            0
        } else {
            now_unix - 1
        },
    };
    run_is_due(next_after(cron.scheduler.as_str(), last), now_unix)
}

/// Whether a service is to be watched again: its interval, which is half a
/// minute at least, has gone by since it was watched.
pub open spec fn watch_is_due(service: ServiceResource, now: u64, last: Option<u64>) -> bool {
    let interval = if service.duration < 30 {
        30
    } else {
        service.duration
    };
    match last {
        Some(t) => t + interval <= now || (t + interval > u64::MAX && now == u64::MAX),
        None => true,
    }
}

/// Whether a service is to be watched again.
pub fn service_due(
    service: &ServiceResource,
    now_unix: u64,
    last_dispatched: &HashMap<u64, u64>,
) -> (r: bool)
    ensures
        r == watch_is_due(
            *service,
            now_unix,
            if last_dispatched@.contains_key(service.id) {
                Some(last_dispatched@[service.id])
            } else {
                None
            },
        ),
{
    broadcast use vstd::std_specs::hash::group_hash_axioms;

    let interval: u64 = if service.duration < 30 {
        30
    } else {
        service.duration
    };
    match last_dispatched.get(&service.id) {
        Some(last) => {
            if *last > u64::MAX - interval {
                now_unix == u64::MAX
            } else {
                *last + interval <= now_unix
            }
        },
        None => true,
    }
}

/// Whether a task may go to the servers of a user: its owner's, and every one
/// where it has no owner.
pub open spec fn may_go_to(cron: CronResource, server_user_id: u64) -> bool {
    cron.user_id == 0 || cron.user_id == server_user_id
}

/// Whether a task may go to the servers of a user.
pub fn cron_can_send_to_server(cron: &CronResource, server_user_id: u64) -> (r: bool)
    ensures
        r == may_go_to(*cron, server_user_id),
{
    cron.user_id == 0 || cron.user_id == server_user_id
}

/// Whether a task is for a server: for all but those it names, or for those.
pub open spec fn is_for(cron: CronResource, server_id: u64) -> bool {
    if cron.cover == CRON_COVER_ALL {
        !cron.servers@.contains(server_id)
    } else if cron.cover == CRON_COVER_IGNORE_ALL {
        cron.servers@.contains(server_id)
    } else {
        false
    }
}

/// Whether a task is for a server.
pub fn cron_covers_server(cron: &CronResource, server_id: u64) -> (r: bool)
    ensures
        r == is_for(*cron, server_id),
{
    if cron.cover == CRON_COVER_ALL {
        !contains_id(&cron.servers, server_id)
    } else if cron.cover == CRON_COVER_IGNORE_ALL {
        contains_id(&cron.servers, server_id)
    } else {
        false
    }
}

/// The servers that a task goes to.
pub open spec fn cron_servers(cron: CronResource, servers: Seq<PublicServer>) -> Seq<u64>
    decreases servers.len(),
{
    if servers.len() == 0 {
        seq![]
    } else {
        let before = cron_servers(cron, servers.drop_last());
        if may_go_to(cron, servers.last().user_id) && is_for(cron, servers.last().id) {
            before.push(servers.last().id)
        } else {
            before
        }
    }
}

/// The servers that a task goes to.
pub fn cron_targets(cron: &CronResource, servers: &[PublicServer]) -> (r: Vec<u64>)
    ensures
        r@ == cron_servers(*cron, servers@),
{
    let mut out: Vec<u64> = Vec::new();
    let mut i: usize = 0;
    proof {
        assert(servers@.take(0) =~= seq![]);
    }
    while i < servers.len()
        invariant
            i <= servers@.len(),
            out@ == cron_servers(*cron, servers@.take(i as int)),
        decreases servers@.len() - i,
    {
        proof {
            assert(servers@.take(i + 1).drop_last() =~= servers@.take(i as int));
        }
        if cron_can_send_to_server(cron, servers[i].user_id) && cron_covers_server(
            cron,
            servers[i].id,
        ) {
            out.push(servers[i].id);
        }
        i += 1;
    }
    proof {
        assert(servers@.take(servers@.len() as int) =~= servers@);
    }
    out
}

/// The tasks that are due.
pub open spec fn due(crons: Seq<CronResource>, now: u64) -> Seq<CronResource>
    decreases crons.len(),
{
    if crons.len() == 0 {
        seq![]
    } else {
        let before = due(crons.drop_last(), now);
        if crons.last().task_type == CRON_TYPE_CRON_TASK && is_due(crons.last(), now) {
            before.push(crons.last())
        } else {
            before
        }
    }
}

/// The tasks that are due.
pub fn due_crons(crons: Vec<CronResource>, now_unix: u64) -> (r: Vec<CronResource>)
    requires
        forall|i: int|
            0 <= i < crons@.len() && (#[trigger] crons@[i]).task_type == CRON_TYPE_CRON_TASK
                ==> last_run(crons@[i], now_unix) != LAST_SECOND,
    ensures
        r@ == due(crons@, now_unix),
{
    let ghost all = crons@;
    let mut out: Vec<CronResource> = Vec::new();
    proof {
        assert(all.take(0) =~= seq![]);
    }
    for cron in it: crons
        invariant
            it.seq() == all,
            forall|i: int|
                0 <= i < all.len() && (#[trigger] all[i]).task_type == CRON_TYPE_CRON_TASK
                    ==> last_run(all[i], now_unix) != LAST_SECOND,
            out@ == due(all.take(it.index() as int), now_unix),
    {
        proof {
            assert(all.take(it.index() + 1).drop_last() =~= all.take(it.index() as int));
            assert(cron == all[it.index() as int]);
        }
        if cron.task_type == CRON_TYPE_CRON_TASK && cron_due(&cron, now_unix) {
            out.push(cron);
        }
    }
    proof {
        assert(all.take(all.len() as int) =~= all);
    }
    out
}

/// When a service was watched last.
pub open spec fn last_watch(last_dispatched: Map<u64, u64>, id: u64) -> Option<u64> {
    if last_dispatched.contains_key(id) {
        Some(last_dispatched[id])
    } else {
        None
    }
}

/// The services that are to be watched again.
pub open spec fn due_watches(
    services: Seq<ServiceResource>,
    now: u64,
    last_dispatched: Map<u64, u64>,
) -> Seq<ServiceResource>
    decreases services.len(),
{
    if services.len() == 0 {
        seq![]
    } else {
        let before = due_watches(services.drop_last(), now, last_dispatched);
        let service = services.last();
        if 1 <= service.service_type <= 3 && watch_is_due(
            service,
            now,
            last_watch(last_dispatched, service.id),
        ) {
            before.push(service)
        } else {
            before
        }
    }
}

/// The services that are to be watched again.
pub fn due_services(
    services: Vec<ServiceResource>,
    now_unix: u64,
    last_dispatched: &HashMap<u64, u64>,
) -> (r: Vec<ServiceResource>)
    ensures
        r@ == due_watches(services@, now_unix, last_dispatched@),
{
    let ghost all = services@;
    let mut out: Vec<ServiceResource> = Vec::new();
    proof {
        assert(all.take(0) =~= seq![]);
    }
    for service in it: services
        invariant
            it.seq() == all,
            out@ == due_watches(all.take(it.index() as int), now_unix, last_dispatched@),
    {
        proof {
            assert(all.take(it.index() + 1).drop_last() =~= all.take(it.index() as int));
            assert(service == all[it.index() as int]);
        }
        if is_service_monitor_task(service.service_type as u64) && service_due(
            &service,
            now_unix,
            last_dispatched,
        ) {
            out.push(service);
        }
    }
    proof {
        assert(all.take(all.len() as int) =~= all);
    }
    out
}

/// The servers that watch a service: those it covers that belong to its owner,
/// or to anybody where its owner is an administrator.
pub open spec fn watchers(
    service: ServiceResource,
    servers: Seq<PublicServer>,
    owner_is_admin: bool,
) -> Seq<u64>
    decreases servers.len(),
{
    if servers.len() == 0 {
        seq![]
    } else {
        let before = watchers(service, servers.drop_last(), owner_is_admin);
        if history::covers(service, servers.last().id) && (service.user_id == servers.last().user_id
            || owner_is_admin) {
            before.push(servers.last().id)
        } else {
            before
        }
    }
}

/// The servers that watch a service.
pub fn service_targets(
    service: &ServiceResource,
    servers: &[PublicServer],
    owner_is_admin: bool,
) -> (r: Vec<u64>)
    ensures
        r@ == watchers(*service, servers@, owner_is_admin),
{
    let mut out: Vec<u64> = Vec::new();
    let mut i: usize = 0;
    proof {
        assert(servers@.take(0) =~= seq![]);
    }
    while i < servers.len()
        invariant
            i <= servers@.len(),
            out@ == watchers(*service, servers@.take(i as int), owner_is_admin),
        decreases servers@.len() - i,
    {
        proof {
            assert(servers@.take(i + 1).drop_last() =~= servers@.take(i as int));
        }
        if service_covers_server(service, servers[i].id) && (service.user_id == servers[i].user_id
            || owner_is_admin) {
            out.push(servers[i].id);
        }
        i += 1;
    }
    proof {
        assert(servers@.take(servers@.len() as int) =~= servers@);
    }
    out
}

/// Whether some service covers a server.
pub open spec fn is_covered(services: Seq<ServiceResource>, server_id: u64) -> bool {
    exists|k: int| 0 <= k < services.len() && history::covers(#[trigger] services[k], server_id)
}

fn any_covers(services: &[ServiceResource], server_id: u64) -> (r: bool)
    ensures
        r == is_covered(services@, server_id),
{
    let mut k: usize = 0;
    while k < services.len()
        invariant
            k <= services@.len(),
            forall|j: int| 0 <= j < k ==> !history::covers(#[trigger] services@[j], server_id),
        decreases services@.len() - k,
    {
        if service_covers_server(&services[k], server_id) {
            return true;
        }
        k += 1;
    }
    false
}

/// The servers that some service covers, in order, each once.
pub fn service_server_ids(services: &[ServiceResource], servers: &[PublicServer]) -> (r: Vec<u64>)
    ensures
        sorting::ids_in_order(r@),
        forall|id: u64| #[trigger]
            r@.to_set().contains(id) <==> is_covered(services@, id) && exists|j: int|
                0 <= j < servers@.len() && (#[trigger] servers@[j]).id == id,
{
    let mut out: Vec<u64> = Vec::new();
    let mut j: usize = 0;
    while j < servers.len()
        invariant
            j <= servers@.len(),
            sorting::ids_in_order(out@),
            forall|id: u64| #[trigger]
                out@.to_set().contains(id) <==> is_covered(services@, id) && exists|k: int|
                    0 <= k < j && (#[trigger] servers@[k]).id == id,
        decreases servers@.len() - j,
    {
        let ghost before = out@.to_set();
        if any_covers(services, servers[j].id) {
            insert_id(&mut out, servers[j].id);
        }
        proof {
            assert forall|id: u64| #[trigger] out@.to_set().contains(id) <==> is_covered(
                services@,
                id,
            ) && exists|k: int| 0 <= k < j + 1 && (#[trigger] servers@[k]).id == id by {
                assert(before.contains(id) <==> is_covered(services@, id) && exists|k: int|
                    0 <= k < j && (#[trigger] servers@[k]).id == id);
                if servers@[j as int].id == id {
                    assert(exists|k: int| 0 <= k < j + 1 && (#[trigger] servers@[k]).id == id);
                }
                if before.contains(id) {
                    let k = choose|k: int| 0 <= k < j && (#[trigger] servers@[k]).id == id;
                    assert(servers@[k].id == id);
                }
            }
        }
        j += 1;
    }
    out
}

/// A task goes only to servers of its owner, unless it has none.
pub proof fn tasks_keep_to_their_owner(cron: CronResource, servers: Seq<PublicServer>, id: u64)
    requires
        cron.user_id != 0,
        cron_servers(cron, servers).contains(id),
    ensures
        exists|j: int|
            0 <= j < servers.len() && (#[trigger] servers[j]).id == id && servers[j].user_id
                == cron.user_id,
    decreases servers.len(),
{
    let before = cron_servers(cron, servers.drop_last());
    if before.contains(id) {
        tasks_keep_to_their_owner(cron, servers.drop_last(), id);
        let j = choose|j: int|
            0 <= j < servers.drop_last().len() && (#[trigger] servers.drop_last()[j]).id == id
                && servers.drop_last()[j].user_id == cron.user_id;
        assert(servers[j].id == id);
    } else {
        let k = choose|k: int|
            0 <= k < cron_servers(cron, servers).len() && cron_servers(cron, servers)[k] == id;
        if k < before.len() {
            assert(before[k] == id);
        }
        assert(servers[servers.len() - 1].id == id);
    }
}

/// Where nothing else changes, a service that was watched just now is not due
/// for half a minute.
pub proof fn watched_services_rest(service: ServiceResource, watched: u64, now: u64)
    requires
        watched <= now,
        now - watched < 30,
        now < u64::MAX,
    ensures
        !watch_is_due(service, now, Some(watched)),
{
}

/// A service that was watched at the second `watched` is not due before its own
/// duration has gone by, nor within half a minute, and is due from the longer of
/// the two on, as long as that second can be told. One that was never watched is
/// due at once.
pub proof fn services_are_watched_by_their_duration(
    service: ServiceResource,
    watched: u64,
    now: u64,
)
    requires
        now < u64::MAX,
    ensures
        watch_is_due(service, now, None),
        now < watched + service.duration ==> !watch_is_due(service, now, Some(watched)),
        now < watched + 30 ==> !watch_is_due(service, now, Some(watched)),
        now >= watched + service.duration && now >= watched + 30 ==> watch_is_due(
            service,
            now,
            Some(watched),
        ),
{
}

/// Where the second cannot be told at which a service is due again, it is due at
/// the last second there is.
pub proof fn late_watches_are_due_at_the_end(service: ServiceResource, watched: u64)
    ensures
        watch_is_due(service, u64::MAX, Some(watched)),
{
}

/// A task is due once its schedule has a run after its last one that is not later
/// than now. One that has never run is due where its schedule has a run in this
/// very second.
pub proof fn tasks_run_by_their_schedule(cron: CronResource, now: u64)
    ensures
        cron.last_executed_at matches Some(last) ==> (is_due(cron, now) <==> (moment::next_run(
            cron.scheduler@,
            last,
        ) matches Some(next) && next <= now)),
        cron.last_executed_at is None && now > 0 ==> (is_due(cron, now) <==> (moment::next_run(
            cron.scheduler@,
            (now - 1) as u64,
        ) matches Some(next) && next <= now)),
{
}

/// The tasks that are due are those of the ones to run by a schedule whose
/// schedule says so, in their order.
pub proof fn due_tasks_are_those_that_are_due(crons: Seq<CronResource>, now: u64)
    ensures
        due(crons, now) == crons.filter(|c: CronResource| c.task_type == 0 && is_due(c, now)),
    decreases crons.len(),
{
    reveal(Seq::filter);
    if crons.len() > 0 {
        due_tasks_are_those_that_are_due(crons.drop_last(), now);
    }
}

/// The services that are watched again are the probes among them that are due, in
/// their order.
pub proof fn due_watches_are_probes_that_are_due(
    services: Seq<ServiceResource>,
    now: u64,
    last_dispatched: Map<u64, u64>,
)
    ensures
        due_watches(services, now, last_dispatched) == services.filter(
            |s: ServiceResource|
                (s.service_type == task_number(TaskType::HttpGet) || s.service_type == task_number(
                    TaskType::IcmpPing,
                ) || s.service_type == task_number(TaskType::TcpPing)) && watch_is_due(
                    s,
                    now,
                    if last_dispatched.contains_key(s.id) {
                        Some(last_dispatched[s.id])
                    } else {
                        None
                    },
                ),
        ),
    decreases services.len(),
{
    reveal(Seq::filter);
    if services.len() > 0 {
        due_watches_are_probes_that_are_due(services.drop_last(), now, last_dispatched);
    }
}

/// A task goes to those servers of its owner, or of anybody where it has none,
/// that it names under cover 0 and that it does not name under cover 1, in their
/// order.
pub proof fn tasks_go_where_they_are_for(cron: CronResource, servers: Seq<PublicServer>)
    ensures
        cron_servers(cron, servers) == servers.filter(
            |s: PublicServer|
                (cron.user_id == 0 || s.user_id == cron.user_id) && (cron.cover == 0
                    && cron.servers@.contains(s.id) || cron.cover == 1 && !cron.servers@.contains(
                    s.id,
                )),
        ).map_values(|s: PublicServer| s.id),
    decreases servers.len(),
{
    reveal(Seq::filter);
    if servers.len() > 0 {
        tasks_go_where_they_are_for(cron, servers.drop_last());
    }
    assert(cron_servers(cron, servers) =~= servers.filter(
        |s: PublicServer|
            (cron.user_id == 0 || s.user_id == cron.user_id) && (cron.cover == 0
                && cron.servers@.contains(s.id) || cron.cover == 1 && !cron.servers@.contains(
                s.id,
            )),
    ).map_values(|s: PublicServer| s.id));
}

/// A service is watched by those of the servers it covers that belong to its
/// owner, and by all of those it covers where the owner is an administrator, in
/// their order.
pub proof fn services_are_watched_by_servers_of_their_owner(
    service: ServiceResource,
    servers: Seq<PublicServer>,
    owner_is_admin: bool,
)
    ensures
        watchers(service, servers, owner_is_admin) == servers.filter(
            |s: PublicServer|
                history::covers(service, s.id) && (owner_is_admin || s.user_id == service.user_id),
        ).map_values(|s: PublicServer| s.id),
    decreases servers.len(),
{
    reveal(Seq::filter);
    if servers.len() > 0 {
        services_are_watched_by_servers_of_their_owner(
            service,
            servers.drop_last(),
            owner_is_admin,
        );
    }
    assert(watchers(service, servers, owner_is_admin) =~= servers.filter(
        |s: PublicServer|
            history::covers(service, s.id) && (owner_is_admin || s.user_id == service.user_id),
    ).map_values(|s: PublicServer| s.id));
}

} // verus!
