//! The tasks that alerts and services start on servers.
use vstd::prelude::*;

use crate::{alerts, model, scheduler, service};
use crate::alerts::{AlertAction, CRON_COVER_ALERT_TRIGGER, RuleReading};
use crate::model::{AlertRuleResource, CronResource, PublicServer, ServiceResource, TaskType};
use crate::scheduler::{cron_targets, service_targets};
use crate::service::find_cron;

verus! {

/// A task as it is sent to a server.
#[derive(Debug)]
pub struct SentTask {
    pub server_id: u64,
    pub id: u64,
    pub task_type: u64,
    pub data: String,
}

/// What a `SentTask` holds.
pub struct SentView {
    pub server_id: u64,
    pub id: u64,
    pub task_type: u64,
    pub data: Seq<char>,
}

impl View for SentTask {
    type V = SentView;

    open spec fn view(&self) -> SentView {
        SentView {
            server_id: self.server_id,
            id: self.id,
            task_type: self.task_type,
            data: self.data@,
        }
    }
}

pub open spec fn sent_views(v: Seq<SentTask>) -> Seq<SentView> {
    v.map_values(|t: SentTask| t@)
}

/// The command of a scheduled task, as it is sent to a server.
pub open spec fn command_of(cron: CronResource, server_id: u64) -> SentView {
    SentView {
        server_id,
        id: cron.id,
        task_type: model::task_number(TaskType::Command),
        data: cron.command@,
    }
}

/// The command of a scheduled task, as it is sent to a server.
pub fn command_task(cron: &CronResource, server_id: u64) -> (r: SentTask)
    ensures
        r@ == command_of(*cron, server_id),
{
    SentTask {
        server_id,
        id: cron.id,
        task_type: TaskType::Command.as_u64(),
        data: cron.command.as_str().to_owned(),
    }
}

/// The commands of the tasks with the numbers `ids`, as they are sent to a server.
pub open spec fn commands_of(ids: Seq<u64>, crons: Seq<CronResource>, server_id: u64) -> Seq<
    SentView,
>
    decreases ids.len(),
{
    if ids.len() == 0 {
        seq![]
    } else {
        let before = commands_of(ids.drop_last(), crons, server_id);
        match service::cron_by_id(crons, ids.last()) {
            Some(cron) => before.push(command_of(cron, server_id)),
            None => before,
        }
    }
}

/// The tasks that an action of an alert sends.
pub fn alert_sends(action: &AlertAction, crons: &Vec<CronResource>) -> (r: Vec<SentTask>)
    ensures
        sent_views(r@) == commands_of(action.trigger_crons@, crons@, action.server_id),
{
    let ids = &action.trigger_crons;
    let mut out: Vec<SentTask> = Vec::new();
    let mut i: usize = 0;
    proof {
        assert(ids@.take(0) =~= seq![]);
        assert(sent_views(out@) =~= seq![]);
    }
    while i < ids.len()
        invariant
            i <= ids@.len(),
            sent_views(out@) == commands_of(ids@.take(i as int), crons@, action.server_id),
        decreases ids@.len() - i,
    {
        proof {
            assert(ids@.take(i + 1).drop_last() =~= ids@.take(i as int));
        }
        if let Some(cron) = find_cron(crons, ids[i]) {
            let task = command_task(cron, action.server_id);
            proof {
                assert(sent_views(out@.push(task)) =~= sent_views(out@).push(task@));
            }
            out.push(task);
        }
        i += 1;
    }
    proof {
        assert(ids@.take(ids@.len() as int) =~= ids@);
    }
    out
}

/// The tasks that a scheduled task sends.
pub open spec fn cron_sent(cron: CronResource, servers: Seq<PublicServer>) -> Seq<SentView> {
    scheduler::cron_servers(cron, servers).map_values(|id: u64| command_of(cron, id))
}

/// The tasks that a scheduled task sends: its command to each of its servers.
pub fn cron_sends(cron: &CronResource, servers: &[PublicServer]) -> (r: Vec<SentTask>)
    ensures
        sent_views(r@) == cron_sent(*cron, servers@),
{
    let ids = cron_targets(cron, servers);
    let ghost goal = ids@.map_values(|id: u64| command_of(*cron, id));
    let mut out: Vec<SentTask> = Vec::new();
    let mut i: usize = 0;
    proof {
        assert(sent_views(out@) =~= goal.take(0));
    }
    while i < ids.len()
        invariant
            i <= ids@.len(),
            goal == ids@.map_values(|id: u64| command_of(*cron, id)),
            sent_views(out@) == goal.take(i as int),
        decreases ids@.len() - i,
    {
        let task = command_task(cron, ids[i]);
        proof {
            assert(sent_views(out@.push(task)) =~= sent_views(out@).push(task@));
            assert(goal.take(i + 1) =~= goal.take(i as int).push(task@));
        }
        out.push(task);
        i += 1;
    }
    proof {
        assert(goal.take(goal.len() as int) =~= goal);
    }
    out
}

/// The task that has a server watch a service.
pub open spec fn watch_of(service: ServiceResource, server_id: u64) -> SentView {
    SentView {
        server_id,
        id: service.id,
        task_type: service.service_type as u64,
        data: service.target@,
    }
}

/// The tasks that have a service watched.
pub open spec fn service_sent(
    service: ServiceResource,
    servers: Seq<PublicServer>,
    owner_is_admin: bool,
) -> Seq<SentView> {
    scheduler::watchers(service, servers, owner_is_admin).map_values(
        |id: u64| watch_of(service, id),
    )
}

/// The tasks that have a service watched: one for each server that watches it.
pub fn service_sends(service: &ServiceResource, servers: &[PublicServer], owner_is_admin: bool) -> (r:
    Vec<SentTask>)
    ensures
        sent_views(r@) == service_sent(*service, servers@, owner_is_admin),
{
    let ids = service_targets(service, servers, owner_is_admin);
    let ghost goal = ids@.map_values(|id: u64| watch_of(*service, id));
    let mut out: Vec<SentTask> = Vec::new();
    let mut i: usize = 0;
    proof {
        assert(sent_views(out@) =~= goal.take(0));
    }
    while i < ids.len()
        invariant
            i <= ids@.len(),
            goal == ids@.map_values(|id: u64| watch_of(*service, id)),
            sent_views(out@) == goal.take(i as int),
        decreases ids@.len() - i,
    {
        let task = SentTask {
            server_id: ids[i],
            id: service.id,
            task_type: service.service_type as u64,
            data: service.target.as_str().to_owned(),
        };
        proof {
            assert(sent_views(out@.push(task)) =~= sent_views(out@).push(task@));
            assert(goal.take(i + 1) =~= goal.take(i as int).push(task@));
        }
        out.push(task);
        i += 1;
    }
    proof {
        assert(goal.take(goal.len() as int) =~= goal);
    }
    out
}

/// How a scheduled task is started: on the server that gave the cause, or as it is
/// scheduled.
#[derive(Debug)]
pub enum CronStart {
    There(SentTask),
    AsScheduled,
}

/// Whether a service starts a scheduled task on the server that reported.
pub open spec fn starts_there(cron: CronResource) -> bool {
    cron.cover == CRON_COVER_ALERT_TRIGGER
}

/// How a service starts a scheduled task, by a report of a server.
pub fn service_start(cron: &CronResource, server_id: u64) -> (r: CronStart)
    ensures
        match r {
            CronStart::There(task) => starts_there(*cron) && task@ == command_of(*cron, server_id),
            CronStart::AsScheduled => !starts_there(*cron),
        },
{
    if cron.cover == CRON_COVER_ALERT_TRIGGER {
        CronStart::There(command_task(cron, server_id))
    } else {
        CronStart::AsScheduled
    }
}

/// The tasks that actions of alerts send, one after the other.
pub open spec fn sent_by(actions: Seq<alerts::ActionView>, crons: Seq<CronResource>) -> Seq<
    SentView,
>
    decreases actions.len(),
{
    if actions.len() == 0 {
        seq![]
    } else {
        sent_by(actions.drop_last(), crons) + commands_of(
            actions.last().trigger_crons,
            crons,
            actions.last().server_id,
        )
    }
}

proof fn lemma_sent_by_like_actions(
    action: alerts::ActionView,
    cron: CronResource,
    n: nat,
    task: SentView,
)
    requires
        commands_of(action.trigger_crons, seq![cron], action.server_id) == seq![task],
    ensures
        sent_by(Seq::new(n, |i: int| action), seq![cron]) == Seq::new(n, |i: int| task),
    decreases n,
{
    let actions = Seq::new(n, |i: int| action);
    if n > 0 {
        let m = (n - 1) as nat;
        lemma_sent_by_like_actions(action, cron, m, task);
        assert(actions.drop_last() =~= Seq::new(m, |i: int| action));
        assert(sent_by(actions, seq![cron]) =~= Seq::new(n, |i: int| task));
    } else {
        assert(sent_by(actions, seq![cron]) =~= Seq::new(n, |i: int| task));
    }
}

/// A server that fails an alert in every round from the first on is sent the task
/// of the alert: in every round in the mode that triggers always, and otherwise
/// exactly once.
pub proof fn failing_rounds_send_the_task(
    alert: AlertRuleResource,
    owner_is_admin: bool,
    server: PublicServer,
    readings: Seq<Vec<Vec<RuleReading>>>,
    cron: CronResource,
    nows: Seq<u64>,
)
    requires
        nows.len() > 0,
        alerts::fails_at_once(
            alert,
            owner_is_admin,
            server,
            alerts::reading_at(alerts::readings_of(alerts::alert_readings(readings, 0), 0), 0),
        ),
        alerts::alert_starts(
            cron,
            alert.fail_trigger_tasks@,
            alert.user_id,
            owner_is_admin,
        ),
    ensures
        sent_by(
            alerts::after_rounds(
                alerts::fresh_start(),
                seq![alert],
                seq![owner_is_admin],
                seq![server],
                readings,
                seq![cron],
                nows,
            ).actions,
            seq![cron],
        ) == Seq::new(
            if alert.trigger_mode == alerts::ALERT_MODE_ALWAYS_TRIGGER {
                nows.len()
            } else {
                1
            },
            |i: int| command_of(cron, server.id),
        ),
{
    let crons = seq![cron];
    alerts::failing_rounds_are_told(alert, owner_is_admin, server, readings, crons, nows);
    let action = alerts::action_of(
        "Incident"@,
        alert,
        server,
        crons,
        alert.fail_trigger_tasks@,
        owner_is_admin,
    );
    assert(crons.drop_last() =~= seq![]);
    reveal_with_fuel(alerts::alert_tasks, 2);
    let ids = action.trigger_crons;
    assert(ids =~= seq![cron.id]);
    assert(ids.drop_last() =~= seq![]);
    reveal_with_fuel(commands_of, 2);
    assert(service::cron_by_id(crons, cron.id) == Some(cron));
    assert(commands_of(ids, crons, server.id) =~= seq![command_of(cron, server.id)]);
    let n = if alert.trigger_mode == alerts::ALERT_MODE_ALWAYS_TRIGGER {
        nows.len()
    } else {
        1
    };
    lemma_sent_by_like_actions(action, cron, n, command_of(cron, server.id));
    assert(Seq::new(
        n,
        |i: int|
            alerts::action_of(
                "Incident"@,
                alert,
                server,
                crons,
                alert.fail_trigger_tasks@,
                owner_is_admin,
            ),
    ) =~= Seq::new(n, |i: int| action));
}

/// What is sent to start tasks is sent to the one server, as a command, in the
/// order of the tasks; each carries the number and the command of its task.
pub proof fn started_tasks_are_sent_as_commands(
    ids: Seq<u64>,
    crons: Seq<CronResource>,
    server_id: u64,
)
    requires
        forall|i: int|
            0 <= i < ids.len() ==> service::cron_by_id(crons, #[trigger] ids[i]) is Some,
    ensures
        commands_of(ids, crons, server_id).len() == ids.len(),
        forall|i: int|
            0 <= i < ids.len() ==> {
                let sent = commands_of(ids, crons, server_id)[i];
                let cron = service::cron_by_id(crons, #[trigger] ids[i])->0;
                &&& sent.server_id == server_id
                &&& sent.id == cron.id
                &&& sent.task_type == 4
                &&& sent.data == cron.command@
            },
    decreases ids.len(),
{
    if ids.len() > 0 {
        let front = ids.drop_last();
        assert forall|i: int| 0 <= i < front.len() implies service::cron_by_id(
            crons,
            #[trigger] front[i],
        ) is Some by {
            assert(front[i] == ids[i]);
        }
        started_tasks_are_sent_as_commands(front, crons, server_id);
        assert(service::cron_by_id(crons, ids[ids.len() - 1]) is Some);
        assert forall|i: int| 0 <= i < ids.len() implies {
            let sent = commands_of(ids, crons, server_id)[i];
            let cron = service::cron_by_id(crons, #[trigger] ids[i])->0;
            &&& sent.server_id == server_id
            &&& sent.id == cron.id
            &&& sent.task_type == 4
            &&& sent.data == cron.command@
        } by {
            if i < front.len() {
                assert(front[i] == ids[i]);
            }
        }
    }
}

/// A server that watches a service is sent the service's number, its kind of probe
/// and its target.
pub proof fn watches_carry_the_target(service: ServiceResource, server_id: u64)
    ensures
        ({
            let sent = watch_of(service, server_id);
            &&& sent.server_id == server_id
            &&& sent.id == service.id
            &&& sent.task_type == service.service_type
            &&& sent.data == service.target@
        }),
{
}

/// A scheduled task sends its command once to each server that it goes to, in their order,
/// and a service its probe once to each server that watches it; a task that waits for
/// alerts starts where the cause was, and goes by its servers otherwise.
pub proof fn every_server_is_sent_one_task(
    cron: CronResource,
    service: ServiceResource,
    servers: Seq<PublicServer>,
    owner_is_admin: bool,
)
    ensures
        ({
            let ids = scheduler::cron_servers(cron, servers);
            let sent = cron_sent(cron, servers);
            &&& sent.len() == ids.len()
            &&& forall|i: int|
                0 <= i < ids.len() ==> (#[trigger] sent[i]).server_id == ids[i] && sent[i].id
                    == cron.id && sent[i].task_type == 4 && sent[i].data == cron.command@
        }),
        ({
            let ids = scheduler::watchers(service, servers, owner_is_admin);
            let sent = service_sent(service, servers, owner_is_admin);
            &&& sent.len() == ids.len()
            &&& forall|i: int|
                0 <= i < ids.len() ==> (#[trigger] sent[i]).server_id == ids[i] && sent[i].id
                    == service.id && sent[i].task_type == service.service_type && sent[i].data
                    == service.target@
        }),
        starts_there(cron) <==> cron.cover == 2,
{
}

} // verus!
