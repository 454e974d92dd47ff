//! The past of watched services, as it is shown by service and by server.
//! The delays are no part of it: a point tells the number of the row that
//! holds its delay.
use std::collections::HashMap;

use vstd::prelude::*;

use crate::{convert, decimal, json};
use crate::convert::wrap_i64;
use crate::decimal::to_decimal;
use crate::json::{Json, find_entry};
use crate::model::ServiceResource;

verus! {

/// A report of a service as it was stored: how often the service answered and
/// did not.
#[derive(Debug, Clone)]
pub struct HistoryRow {
    pub service_id: u64,
    pub server_id: u64,
    pub server_name: String,
    pub up: u64,
    pub down: u64,
    pub created_at: u64,
}

/// A point of a chart: the row it comes from, its time in milliseconds, and
/// whether the service answered.
#[derive(Debug, Clone, Copy, PartialEq, Eq, Structural)]
pub struct ServiceHistoryDataPoint {
    pub row: usize,
    pub ts: i64,
    pub status: u8,
}

/// The points of one server and the sums over them.
pub struct ServerServiceStats {
    pub server_id: u64,
    pub server_name: String,
    pub total_up: u64,
    pub total_down: u64,
    pub data_points: Vec<ServiceHistoryDataPoint>,
}

/// What a `ServerServiceStats` holds.
pub struct ServerStatsView {
    pub server_id: u64,
    pub server_name: Seq<char>,
    pub total_up: int,
    pub total_down: int,
    pub data_points: Seq<ServiceHistoryDataPoint>,
}

impl View for ServerServiceStats {
    type V = ServerStatsView;

    open spec fn view(&self) -> ServerStatsView {
        ServerStatsView {
            server_id: self.server_id,
            server_name: self.server_name@,
            total_up: self.total_up as int,
            total_down: self.total_down as int,
            data_points: self.data_points@,
        }
    }
}

/// What the statistics in `v` hold.
pub open spec fn stats_of(v: Seq<ServerServiceStats>) -> Seq<ServerStatsView> {
    v.map_values(|s: ServerServiceStats| s@)
}

/// The time `created_at` in milliseconds, or the nearest number there is.
pub open spec fn in_millis(created_at: u64) -> i64 {
    let ms = convert::wrapped(created_at) * 1000;
    if ms > i64::MAX {
        i64::MAX
    } else if ms < i64::MIN {
        i64::MIN
    } else {
        ms as i64
    }
}

/// The time `created_at` in milliseconds, or the nearest number there is.
pub fn to_millis(created_at: u64) -> (r: i64)
    ensures
        r == in_millis(created_at),
{
    let ms: i128 = wrap_i64(created_at) as i128 * 1000;
    if ms > i64::MAX as i128 {
        i64::MAX
    } else if ms < i64::MIN as i128 {
        i64::MIN
    } else {
        ms as i64
    }
}

/// The point of the row number `row`: the service did not answer where it only
/// failed.
pub open spec fn point_of(r: HistoryRow, row: usize) -> ServiceHistoryDataPoint {
    ServiceHistoryDataPoint {
        row,
        ts: in_millis(r.created_at),
        status: if r.down > 0 && r.up == 0 {
            0
        } else {
            1
        },
    }
}

/// The statistics with one more row: it goes to the last server where that is
/// its own, and starts a new one otherwise.
pub open spec fn with_row(
    stats: Seq<ServerStatsView>,
    r: HistoryRow,
    row: usize,
) -> Seq<ServerStatsView> {
    if stats.len() > 0 && stats.last().server_id == r.server_id {
        let last = stats.last();
        stats.drop_last().push(
            ServerStatsView {
                total_up: last.total_up + r.up,
                total_down: last.total_down + r.down,
                data_points: last.data_points.push(point_of(r, row)),
                ..last
            },
        )
    } else {
        stats.push(
            ServerStatsView {
                server_id: r.server_id,
                server_name: r.server_name@,
                total_up: r.up as int,
                total_down: r.down as int,
                data_points: seq![point_of(r, row)],
            },
        )
    }
}

/// The rows gathered by runs of the same server.
pub open spec fn gathered(rows: Seq<HistoryRow>) -> Seq<ServerStatsView>
    decreases rows.len(),
{
    if rows.len() == 0 {
        seq![]
    } else {
        with_row(gathered(rows.drop_last()), rows.last(), (rows.len() - 1) as usize)
    }
}

/// Whether the sums of each entry can be counted.
pub open spec fn entries_are_countable(stats: Seq<ServerStatsView>) -> bool {
    forall|i: int|
        0 <= i < stats.len() ==> (#[trigger] stats[i]).total_up <= u64::MAX && stats[i].total_down
            <= u64::MAX
}

/// The sums of an entry only grow with more rows.
proof fn lemma_entries_grow(rows: Seq<HistoryRow>, k: int)
    requires
        0 <= k <= rows.len(),
    ensures
        gathered(rows.take(k)).len() <= gathered(rows).len(),
        forall|i: int|
            #![trigger gathered(rows.take(k))[i]]
            0 <= i < gathered(rows.take(k)).len() ==> gathered(rows.take(k))[i].total_up
                <= gathered(rows)[i].total_up && gathered(rows.take(k))[i].total_down
                <= gathered(rows)[i].total_down,
    decreases rows.len() - k,
{
    if k < rows.len() {
        lemma_entries_grow(rows, k + 1);
        let now = gathered(rows.take(k));
        let next = gathered(rows.take(k + 1));
        assert(rows.take(k + 1).drop_last() =~= rows.take(k));
        assert forall|i: int|
            #![trigger gathered(rows.take(k))[i]]
            0 <= i < now.len() implies now[i].total_up <= gathered(rows)[i].total_up
            && now[i].total_down <= gathered(rows)[i].total_down by {
            assert(now[i].total_up <= next[i].total_up && now[i].total_down
                <= next[i].total_down);
        }
    } else {
        assert(rows.take(k) =~= rows);
    }
}

/// The past of a service gathered by server: the rows in order, one entry for
/// each run of rows of the same server.
fn gather_service_history(rows: &Vec<HistoryRow>) -> (r: Vec<ServerServiceStats>)
    requires
        entries_are_countable(gathered(rows@)),
    ensures
        stats_of(r@) == gathered(rows@),
{
    let mut servers: Vec<ServerServiceStats> = Vec::new();
    let mut i: usize = 0;
    proof {
        assert(stats_of(servers@) =~= gathered(rows@.take(0)));
    }
    while i < rows.len()
        invariant
            i <= rows@.len(),
            entries_are_countable(gathered(rows@)),
            stats_of(servers@) == gathered(rows@.take(i as int)),
        decreases rows@.len() - i,
    {
        let row = &rows[i];
        let point = ServiceHistoryDataPoint {
            row: i,
            ts: to_millis(row.created_at),
            status: if row.down > 0 && row.up == 0 {
                0
            } else {
                1
            },
        };
        let ghost before = servers@;
        let ghost seen = rows@.take(i as int);
        proof {
            assert(rows@.take(i + 1).drop_last() =~= seen);
            lemma_entries_grow(rows@, i + 1);
        }
        let n: usize = servers.len();
        if n > 0 && servers[n - 1].server_id == row.server_id {
            let popped = servers.pop();
            let mut last = popped.unwrap();
            proof {
                assert(stats_of(before).last() == last@);
                let next = gathered(rows@.take(i + 1));
                assert(next[n - 1].total_up == last.total_up + row.up);
                assert(next[n - 1].total_up <= gathered(rows@)[n - 1].total_up);
                assert(next[n - 1].total_down <= gathered(rows@)[n - 1].total_down);
            }
            last.total_up = last.total_up + row.up;
            last.total_down = last.total_down + row.down;
            last.data_points.push(point);
            let ghost after = last@;
            servers.push(last);
            proof {
                assert(stats_of(servers@) =~= stats_of(before).drop_last().push(after));
            }
        } else {
            let mut data_points: Vec<ServiceHistoryDataPoint> = Vec::new();
            data_points.push(point);
            let entry = ServerServiceStats {
                server_id: row.server_id,
                server_name: row.server_name.clone(),
                total_up: row.up,
                total_down: row.down,
                data_points,
            };
            proof {
                assert(entry@.data_points =~= seq![point]);
                assert(stats_of(before.push(entry)) =~= stats_of(before).push(entry@));
                if n > 0 {
                    assert(stats_of(before).last() == before.last()@);
                }
            }
            servers.push(entry);
        }
        i += 1;
    }
    proof {
        assert(rows@.take(rows@.len() as int) =~= rows@);
    }
    servers
}

/// The past of a service, gathered by server.
pub struct ServiceHistoryResponse {
    pub service_id: u64,
    pub service_name: String,
    pub servers: Vec<ServerServiceStats>,
}

/// The past of a service, gathered by server.
pub fn query_service_history(service_id: u64, service_name: &str, rows: &Vec<HistoryRow>) -> (r:
    ServiceHistoryResponse)
    requires
        entries_are_countable(gathered(rows@)),
    ensures
        r.service_id == service_id,
        r.service_name@ == service_name@,
        stats_of(r.servers@) == gathered(rows@),
{
    ServiceHistoryResponse {
        service_id,
        service_name: service_name.to_owned(),
        servers: gather_service_history(rows),
    }
}

/// A sum over entries.
pub open spec fn all_points(stats: Seq<ServerStatsView>) -> nat
    decreases stats.len(),
{
    if stats.len() == 0 {
        0
    } else {
        all_points(stats.drop_last()) + stats.last().data_points.len()
    }
}

/// No row is lost: the entries together have a point for each row.
pub proof fn every_row_has_a_point(rows: Seq<HistoryRow>)
    ensures
        all_points(gathered(rows)) == rows.len(),
    decreases rows.len(),
{
    if rows.len() > 0 {
        every_row_has_a_point(rows.drop_last());
        let before = gathered(rows.drop_last());
        let after = gathered(rows);
        if before.len() > 0 && before.last().server_id == rows.last().server_id {
            assert(after.drop_last() =~= before.drop_last());
        } else {
            assert(after.drop_last() =~= before);
        }
    }
}

/// The numbers of the rows of a service, in order.
pub open spec fn rows_of_service(rows: Seq<HistoryRow>, service_id: u64) -> Seq<usize>
    decreases rows.len(),
{
    if rows.len() == 0 {
        seq![]
    } else {
        let before = rows_of_service(rows.drop_last(), service_id);
        if rows.last().service_id == service_id {
            before.push((rows.len() - 1) as usize)
        } else {
            before
        }
    }
}

fn select_rows(rows: &Vec<HistoryRow>, service_id: u64) -> (r: Vec<usize>)
    ensures
        r@ == rows_of_service(rows@, service_id),
{
    let mut out: Vec<usize> = Vec::new();
    let mut i: usize = 0;
    while i < rows.len()
        invariant
            i <= rows@.len(),
            out@ == rows_of_service(rows@.take(i as int), service_id),
        decreases rows@.len() - i,
    {
        proof {
            assert(rows@.take(i + 1).drop_last() =~= rows@.take(i as int));
        }
        if rows[i].service_id == service_id {
            out.push(i);
        }
        i += 1;
    }
    proof {
        assert(rows@.take(rows@.len() as int) =~= rows@);
    }
    out
}

/// A service as a server sees it: the rows that the server has reported.
pub struct ServiceInfo {
    pub monitor_id: u64,
    pub server_id: u64,
    pub monitor_name: String,
    pub server_name: String,
    pub display_index: i32,
    pub points: Vec<usize>,
}

/// What a `ServiceInfo` holds.
pub struct InfoView {
    pub monitor_id: u64,
    pub server_id: u64,
    pub monitor_name: Seq<char>,
    pub server_name: Seq<char>,
    pub display_index: i32,
    pub points: Seq<usize>,
}

impl View for ServiceInfo {
    type V = InfoView;

    open spec fn view(&self) -> InfoView {
        InfoView {
            monitor_id: self.monitor_id,
            server_id: self.server_id,
            monitor_name: self.monitor_name@,
            server_name: self.server_name@,
            display_index: self.display_index,
            points: self.points@,
        }
    }
}

/// What the entries of `v` hold.
pub open spec fn infos(v: Seq<ServiceInfo>) -> Seq<InfoView> {
    v.map_values(|i: ServiceInfo| i@)
}

/// The cover under which all servers but the selected watch a service.
pub const SERVICE_COVER_ALL: u8 = 0;

/// The cover under which only the selected servers watch a service.
pub const SERVICE_COVER_IGNORE_ALL: u8 = 1;

/// Whether the server is selected in the service's list.
pub open spec fn selected(service: ServiceResource, server_id: u64) -> bool {
    json::as_bool(json::entry_of(service.skip_servers@, decimal::decimal(server_id as nat)))
        == Some(true)
}

/// Whether the server watches the service.
pub open spec fn covers(service: ServiceResource, server_id: u64) -> bool {
    if service.cover == SERVICE_COVER_ALL {
        !selected(service, server_id)
    } else if service.cover == SERVICE_COVER_IGNORE_ALL {
        selected(service, server_id)
    } else {
        false
    }
}

/// Whether the server watches the service.
pub fn service_covers_server(service: &ServiceResource, server_id: u64) -> (r: bool)
    ensures
        r == covers(*service, server_id),
{
    let key = to_decimal(server_id);
    let chosen: bool = match find_entry(&service.skip_servers, key.as_str()) {
        Some(v) => match v.boolean() {
            Some(b) => b,
            None => false,
        },
        None => false,
    };
    if service.cover == SERVICE_COVER_ALL {
        !chosen
    } else if service.cover == SERVICE_COVER_IGNORE_ALL {
        chosen
    } else {
        false
    }
}

/// The services that a server watches and has reported of.
pub open spec fn services_seen(
    services: Seq<ServiceResource>,
    rows: Seq<HistoryRow>,
    server_id: u64,
    server_name: Seq<char>,
) -> Seq<InfoView>
    decreases services.len(),
{
    if services.len() == 0 {
        seq![]
    } else {
        let before = services_seen(services.drop_last(), rows, server_id, server_name);
        let service = services.last();
        let points = rows_of_service(rows, service.id);
        if covers(service, server_id) && points.len() > 0 {
            before.push(
                InfoView {
                    monitor_id: service.id,
                    server_id,
                    monitor_name: service.name@,
                    server_name,
                    display_index: service.display_index,
                    points,
                },
            )
        } else {
            before
        }
    }
}

/// The services that a server watches and has reported of, in the order of
/// `services`, each with the rows about it.
pub fn query_server_services(
    services: &Vec<ServiceResource>,
    rows: &Vec<HistoryRow>,
    server_id: u64,
    server_name: &str,
) -> (r: Vec<ServiceInfo>)
    ensures
        infos(r@) == services_seen(services@, rows@, server_id, server_name@),
{
    let mut result: Vec<ServiceInfo> = Vec::new();
    let mut i: usize = 0;
    proof {
        assert(infos(result@) =~= services_seen(services@.take(0), rows@, server_id, server_name@));
    }
    while i < services.len()
        invariant
            i <= services@.len(),
            infos(result@) == services_seen(
                services@.take(i as int),
                rows@,
                server_id,
                server_name@,
            ),
        decreases services@.len() - i,
    {
        let service = &services[i];
        proof {
            assert(services@.take(i + 1).drop_last() =~= services@.take(i as int));
        }
        if service_covers_server(service, server_id) {
            let points = select_rows(rows, service.id);
            if points.len() > 0 {
                let info = ServiceInfo {
                    monitor_id: service.id,
                    server_id,
                    monitor_name: service.name.clone(),
                    server_name: server_name.to_owned(),
                    display_index: service.display_index,
                    points,
                };
                proof {
                    assert(infos(result@.push(info)) =~= infos(result@).push(info@));
                }
                result.push(info);
            }
        }
        i += 1;
    }
    proof {
        assert(services@.take(services@.len() as int) =~= services@);
    }
    result
}

/// How many reports of a service a chart shows.
pub const CHART_SIZE: usize = 30;

/// A service in the overview: how many servers reach it now and how many do
/// not, the sums over its past, the newest rows, and charts of how often it
/// answered in them and how often it did not.
pub struct ServiceResponseItem {
    pub service_id: u64,
    pub service_name: String,
    pub current_up: u64,
    pub current_down: u64,
    pub total_up: u64,
    pub total_down: u64,
    pub newest: Vec<usize>,
    pub up: Option<Vec<u64>>,
    pub down: Option<Vec<u64>>,
}

/// The servers whose last report of the service was that it answered and never
/// failed.
pub open spec fn up_servers(rows: Seq<HistoryRow>, service_id: u64) -> Set<u64>
    decreases rows.len(),
{
    if rows.len() == 0 {
        Set::empty()
    } else {
        let before = up_servers(rows.drop_last(), service_id);
        let r = rows.last();
        if r.service_id != service_id {
            before
        } else if r.up > 0 && r.down == 0 {
            before.insert(r.server_id)
        } else {
            before.remove(r.server_id)
        }
    }
}

/// The servers whose last report of the service was that it failed.
pub open spec fn down_servers(rows: Seq<HistoryRow>, service_id: u64) -> Set<u64>
    decreases rows.len(),
{
    if rows.len() == 0 {
        Set::empty()
    } else {
        let before = down_servers(rows.drop_last(), service_id);
        let r = rows.last();
        if r.service_id != service_id {
            before
        } else if r.up > 0 && r.down == 0 {
            before.remove(r.server_id)
        } else {
            before.insert(r.server_id)
        }
    }
}

/// How often the service answered and how often it did not.
pub open spec fn service_sums(rows: Seq<HistoryRow>, service_id: u64) -> (int, int)
    decreases rows.len(),
{
    if rows.len() == 0 {
        (0, 0)
    } else {
        let before = service_sums(rows.drop_last(), service_id);
        let r = rows.last();
        if r.service_id == service_id {
            (before.0 + r.up, before.1 + r.down)
        } else {
            before
        }
    }
}

/// The newest rows of those in `all`, as many as a chart shows.
pub open spec fn newest_of(all: Seq<usize>) -> Seq<usize> {
    if all.len() > CHART_SIZE {
        all.skip(all.len() - CHART_SIZE)
    } else {
        all
    }
}

/// The sums of a service only grow with more rows.
proof fn lemma_service_sums_grow(rows: Seq<HistoryRow>, service_id: u64, k: int)
    requires
        0 <= k <= rows.len(),
    ensures
        service_sums(rows.take(k), service_id).0 <= service_sums(rows, service_id).0,
        service_sums(rows.take(k), service_id).1 <= service_sums(rows, service_id).1,
    decreases rows.len() - k,
{
    if k < rows.len() {
        lemma_service_sums_grow(rows, service_id, k + 1);
        assert(rows.take(k + 1).drop_last() =~= rows.take(k));
    } else {
        assert(rows.take(k) =~= rows);
    }
}

proof fn lemma_server_sets_disjoint(rows: Seq<HistoryRow>, service_id: u64)
    ensures
        up_servers(rows, service_id).finite(),
        down_servers(rows, service_id).finite(),
        up_servers(rows, service_id).len() + down_servers(rows, service_id).len() <= rows.len(),
        forall|s: u64|
            !(up_servers(rows, service_id).contains(s) && #[trigger] down_servers(
                rows,
                service_id,
            ).contains(s)),
    decreases rows.len(),
{
    if rows.len() > 0 {
        lemma_server_sets_disjoint(rows.drop_last(), service_id);
    }
}

/// That `latest` tells of each server whether its last report of the service
/// was that it answered.
#[verifier::opaque]
spec fn tells_latest(rows: Seq<HistoryRow>, service_id: u64, latest: Map<u64, bool>) -> bool {
    &&& forall|s: u64|
        up_servers(rows, service_id).contains(s) <==> (#[trigger] latest.contains_key(s)
            && latest[s])
    &&& forall|s: u64|
        down_servers(rows, service_id).contains(s) <==> (#[trigger] latest.contains_key(s)
            && !latest[s])
}

proof fn lemma_sets_step(
    seen: Seq<HistoryRow>,
    rows: Seq<HistoryRow>,
    service_id: u64,
    before: Map<u64, bool>,
    after: Map<u64, bool>,
    is_up: bool,
)
    requires
        rows.len() > 0,
        rows.drop_last() == seen,
        rows.last().service_id == service_id,
        is_up == (rows.last().up > 0 && rows.last().down == 0),
        after == before.insert(rows.last().server_id, is_up),
        tells_latest(seen, service_id, before),
    ensures
        tells_latest(rows, service_id, after),
{
    reveal(tells_latest);
    assert forall|s: u64|
        up_servers(rows, service_id).contains(s) <==> (#[trigger] after.contains_key(s)
            && after[s]) by {
        assert(up_servers(seen, service_id).contains(s) <==> (before.contains_key(s)
            && before[s]));
    }
    assert forall|s: u64|
        down_servers(rows, service_id).contains(s) <==> (#[trigger] after.contains_key(s)
            && !after[s]) by {
        assert(down_servers(seen, service_id).contains(s) <==> (before.contains_key(s)
            && !before[s]));
    }
}

proof fn lemma_sets_kept(
    seen: Seq<HistoryRow>,
    rows: Seq<HistoryRow>,
    service_id: u64,
    latest: Map<u64, bool>,
)
    requires
        rows.len() > 0,
        rows.drop_last() == seen,
        rows.last().service_id != service_id,
        tells_latest(seen, service_id, latest),
    ensures
        tells_latest(rows, service_id, latest),
        up_servers(rows, service_id) == up_servers(seen, service_id),
        down_servers(rows, service_id) == down_servers(seen, service_id),
{
    reveal(tells_latest);
}

/// No server is counted as reaching the service and as not reaching it.
pub proof fn a_server_is_up_or_down(rows: Seq<HistoryRow>, service_id: u64, server_id: u64)
    ensures
        !(up_servers(rows, service_id).contains(server_id) && down_servers(
            rows,
            service_id,
        ).contains(server_id)),
        up_servers(rows, service_id).contains(server_id) || down_servers(
            rows,
            service_id,
        ).contains(server_id) <==> exists|i: int|
            0 <= i < rows.len() && #[trigger] rows[i].service_id == service_id && rows[i].server_id
                == server_id,
    decreases rows.len(),
{
    if rows.len() > 0 {
        let front = rows.drop_last();
        a_server_is_up_or_down(front, service_id, server_id);
        let n = rows.len() - 1;
        if exists|i: int|
            0 <= i < front.len() && #[trigger] front[i].service_id == service_id
                && front[i].server_id == server_id {
            let i = choose|i: int|
                0 <= i < front.len() && #[trigger] front[i].service_id == service_id
                    && front[i].server_id == server_id;
            assert(rows[i].service_id == service_id && rows[i].server_id == server_id);
        }
        if exists|i: int|
            0 <= i < rows.len() && #[trigger] rows[i].service_id == service_id && rows[i].server_id
                == server_id {
            let i = choose|i: int|
                0 <= i < rows.len() && #[trigger] rows[i].service_id == service_id
                    && rows[i].server_id == server_id;
            if i < n {
                assert(front[i].service_id == service_id && front[i].server_id == server_id);
            }
        }
        if rows.last().service_id == service_id && rows.last().server_id == server_id {
            assert(rows[n].service_id == service_id);
        }
    }
}

/// The row that stands in the slot number `k` of a chart, if there is one.
pub open spec fn row_in_slot(rows: Seq<HistoryRow>, newest: Seq<usize>, k: int) -> Option<
    HistoryRow,
> {
    let first = CHART_SIZE - newest.len();
    if k < first {
        None
    } else {
        Some(rows[newest[k - first] as int])
    }
}

/// Whether `up` and `down` are the charts of how often a service answered and how
/// often it did not.
pub open spec fn are_charts(
    rows: Seq<HistoryRow>,
    newest: Seq<usize>,
    up: Seq<u64>,
    down: Seq<u64>,
) -> bool {
    &&& up.len() == CHART_SIZE
    &&& down.len() == CHART_SIZE
    &&& forall|k: int|
        #![trigger up[k]]
        #![trigger down[k]]
        0 <= k < CHART_SIZE ==> match row_in_slot(rows, newest, k) {
            None => up[k] == 0 && down[k] == 0,
            Some(row) => up[k] == row.up && down[k] == row.down,
        }
}

/// The charts of how often a service answered and how often it did not: the newest
/// rows at the right end, and zeros to the left of them.
pub fn chart_counts(rows: &Vec<HistoryRow>, newest: &Vec<usize>) -> (r: (Vec<u64>, Vec<u64>))
    requires
        newest@.len() <= CHART_SIZE,
        forall|i: int| 0 <= i < newest@.len() ==> (#[trigger] newest@[i]) < rows@.len(),
    ensures
        are_charts(rows@, newest@, r.0@, r.1@),
{
    let mut up: Vec<u64> = Vec::new();
    let mut down: Vec<u64> = Vec::new();
    let first: usize = CHART_SIZE - newest.len();
    let mut k: usize = 0;
    while k < CHART_SIZE
        invariant
            k <= CHART_SIZE,
            newest@.len() <= CHART_SIZE,
            first == CHART_SIZE - newest@.len(),
            forall|i: int| 0 <= i < newest@.len() ==> (#[trigger] newest@[i]) < rows@.len(),
            up@.len() == k,
            down@.len() == k,
            forall|i: int|
                #![trigger up@[i]]
                #![trigger down@[i]]
                0 <= i < k ==> match row_in_slot(rows@, newest@, i) {
                    None => up@[i] == 0 && down@[i] == 0,
                    Some(row) => up@[i] == row.up && down@[i] == row.down,
                },
        decreases CHART_SIZE - k,
    {
        if k < first {
            up.push(0);
            down.push(0);
        } else {
            let row = &rows[newest[k - first]];
            up.push(row.up);
            down.push(row.down);
        }
        k += 1;
    }
    (up, down)
}

/// The charts of a service in the overview, which has some where there are rows.
pub open spec fn item_charts(rows: Seq<HistoryRow>, item: ServiceResponseItem) -> bool {
    if item.newest@.len() == 0 {
        item.up is None && item.down is None
    } else {
        &&& item.up is Some
        &&& item.down is Some
        &&& are_charts(rows, item.newest@, item.up->0@, item.down->0@)
    }
}

proof fn lemma_rows_of_service(rows: Seq<HistoryRow>, service_id: u64, i: int)
    requires
        0 <= i < rows_of_service(rows, service_id).len(),
        rows.len() <= usize::MAX,
    ensures
        rows_of_service(rows, service_id)[i] < rows.len(),
    decreases rows.len(),
{
    if i < rows_of_service(rows.drop_last(), service_id).len() {
        lemma_rows_of_service(rows.drop_last(), service_id, i);
    }
}

/// The service in the overview, from all rows in order.
pub fn service_response_item(service_id: u64, service_name: &str, rows: &Vec<HistoryRow>) -> (r:
    ServiceResponseItem)
    requires
        service_sums(rows@, service_id).0 <= u64::MAX,
        service_sums(rows@, service_id).1 <= u64::MAX,
    ensures
        r.service_id == service_id,
        r.service_name@ == service_name@,
        r.current_up == up_servers(rows@, service_id).len(),
        r.current_down == down_servers(rows@, service_id).len(),
        r.total_up == service_sums(rows@, service_id).0,
        r.total_down == service_sums(rows@, service_id).1,
        r.newest@ == newest_of(rows_of_service(rows@, service_id)),
        r.newest@.len() <= CHART_SIZE,
        item_charts(rows@, r),
{
    broadcast use vstd::std_specs::hash::group_hash_axioms;

    let mut latest: HashMap<u64, bool> = HashMap::new();
    let mut current_up: u64 = 0;
    let mut current_down: u64 = 0;
    let mut total_up: u64 = 0;
    let mut total_down: u64 = 0;
    let mut newest: Vec<usize> = Vec::new();
    let mut i: usize = 0;
    proof {
        reveal(tells_latest);
    }
    while i < rows.len()
        invariant
            i <= rows@.len(),
            service_sums(rows@, service_id).0 <= u64::MAX,
            service_sums(rows@, service_id).1 <= u64::MAX,
            tells_latest(rows@.take(i as int), service_id, latest@),
            current_up == up_servers(rows@.take(i as int), service_id).len(),
            current_down == down_servers(rows@.take(i as int), service_id).len(),
            total_up == service_sums(rows@.take(i as int), service_id).0,
            total_down == service_sums(rows@.take(i as int), service_id).1,
            newest@ == newest_of(rows_of_service(rows@.take(i as int), service_id)),
        decreases rows@.len() - i,
    {
        let row = &rows[i];
        let ghost seen = rows@.take(i as int);
        proof {
            assert(rows@.take(i + 1).drop_last() =~= seen);
            lemma_server_sets_disjoint(seen, service_id);
            lemma_service_sums_grow(rows@, service_id, i + 1);
        }
        if row.service_id == service_id {
            total_up = total_up + row.up;
            total_down = total_down + row.down;
            let is_up: bool = row.up > 0 && row.down == 0;
            let before: Option<bool> = match latest.get(&row.server_id) {
                Some(b) => Some(*b),
                None => None,
            };
            let ghost up0 = up_servers(seen, service_id);
            let ghost down0 = down_servers(seen, service_id);
            proof {
                reveal(tells_latest);
                assert(latest@.contains_key(row.server_id) <==> before is Some);
                assert(up0.contains(row.server_id) <==> before == Some(true));
                assert(down0.contains(row.server_id) <==> before == Some(false));
            }
            match before {
                Some(b) => {
                    if b && !is_up {
                        current_up = current_up - 1;
                        current_down = current_down + 1;
                    } else if !b && is_up {
                        current_down = current_down - 1;
                        current_up = current_up + 1;
                    }
                },
                None => {
                    if is_up {
                        current_up = current_up + 1;
                    } else {
                        current_down = current_down + 1;
                    }
                },
            }
            let ghost latest0 = latest@;
            latest.insert(row.server_id, is_up);
            proof {
                lemma_sets_step(seen, rows@.take(i + 1), service_id, latest0, latest@, is_up);
            }
            let ghost all = rows_of_service(seen, service_id);
            newest.push(i);
            if newest.len() > CHART_SIZE {
                newest.remove(0);
            }
            proof {
                assert(newest@ =~= newest_of(all.push(i)));
                if is_up {
                    assert(up0.contains(row.server_id) ==> up0.insert(row.server_id) =~= up0);
                    assert(!down0.contains(row.server_id) ==> down0.remove(row.server_id)
                        =~= down0);
                } else {
                    assert(down0.contains(row.server_id) ==> down0.insert(row.server_id)
                        =~= down0);
                    assert(!up0.contains(row.server_id) ==> up0.remove(row.server_id) =~= up0);
                }
            }
        } else {
            proof {
                lemma_sets_kept(seen, rows@.take(i + 1), service_id, latest@);
            }
        }
        i += 1;
    }
    proof {
        assert(rows@.take(rows@.len() as int) =~= rows@);
        let all = rows_of_service(rows@, service_id);
        assert forall|k: int| 0 <= k < newest@.len() implies (#[trigger] newest@[k])
            < rows@.len() by {
            lemma_rows_of_service(rows@, service_id, all.len() - newest@.len() + k);
        }
    }
    let (up, down) = if newest.len() == 0 {
        (None, None)
    } else {
        let charts = chart_counts(rows, &newest);
        (Some(charts.0), Some(charts.1))
    };
    ServiceResponseItem {
        service_id,
        service_name: service_name.to_owned(),
        current_up,
        current_down,
        total_up,
        total_down,
        newest,
        up,
        down,
    }
}

/// The overview: an item for each service, in the order of `services`.
pub fn service_response_items(services: &Vec<ServiceResource>, rows: &Vec<HistoryRow>) -> (r: Vec<
    ServiceResponseItem,
>)
    requires
        forall|i: int|
            0 <= i < services@.len() ==> service_sums(rows@, (#[trigger] services@[i]).id).0
                <= u64::MAX && service_sums(rows@, services@[i].id).1 <= u64::MAX,
    ensures
        r@.len() == services@.len(),
        forall|i: int|
            0 <= i < r@.len() ==> {
                let item = #[trigger] r@[i];
                let id = services@[i].id;
                &&& item.service_id == id
                &&& item.service_name@ == services@[i].name@
                &&& item.current_up == up_servers(rows@, id).len()
                &&& item.current_down == down_servers(rows@, id).len()
                &&& item.total_up == service_sums(rows@, id).0
                &&& item.total_down == service_sums(rows@, id).1
                &&& item.newest@ == newest_of(rows_of_service(rows@, id))
                &&& item_charts(rows@, item)
            },
{
    let mut items: Vec<ServiceResponseItem> = Vec::new();
    let mut i: usize = 0;
    while i < services.len()
        invariant
            i <= services@.len(),
            i == items@.len(),
            forall|k: int|
                0 <= k < services@.len() ==> service_sums(rows@, (#[trigger] services@[k]).id).0
                    <= u64::MAX && service_sums(rows@, services@[k].id).1 <= u64::MAX,
            forall|k: int|
                0 <= k < items@.len() ==> {
                    let item = #[trigger] items@[k];
                    let id = services@[k].id;
                    &&& item.service_id == id
                    &&& item.service_name@ == services@[k].name@
                    &&& item.current_up == up_servers(rows@, id).len()
                    &&& item.current_down == down_servers(rows@, id).len()
                    &&& item.total_up == service_sums(rows@, id).0
                    &&& item.total_down == service_sums(rows@, id).1
                    &&& item.newest@ == newest_of(rows_of_service(rows@, id))
                    &&& item_charts(rows@, item)
                },
        decreases services@.len() - i,
    {
        let service = &services[i];
        items.push(service_response_item(service.id, service.name.as_str(), rows));
        i += 1;
    }
    items
}

/// Where the row number `k` of the newest stands in a chart: the newest at the
/// right end.
pub fn chart_slot(newest: usize, k: usize) -> (r: usize)
    requires
        k < newest <= CHART_SIZE,
    ensures
        r == CHART_SIZE - newest + k,
        r < CHART_SIZE,
{
    (CHART_SIZE - newest) + k
}

/// Under cover 0 every server but those that the service names with `true` watches
/// it, under cover 1 those alone do, and under any other cover none does.
pub proof fn cover_decides_who_watches(service: ServiceResource, server_id: u64)
    ensures
        ({
            let named = json::entry_of(
                service.skip_servers@,
                decimal::decimal(server_id as nat),
            ) == Some(Json::Bool(true));
            &&& service.cover == 0 ==> covers(service, server_id) == !named
            &&& service.cover == 1 ==> covers(service, server_id) == named
            &&& service.cover > 1 ==> !covers(service, server_id)
        }),
{
}

/// Times are told in thousandths of a second.
pub proof fn times_are_told_in_millis(created_at: u64)
    requires
        created_at <= 9_000_000_000_000_000,
    ensures
        in_millis(created_at) == 1000 * created_at,
{
}

/// A point tells that the service answered, unless its row only tells of failures.
pub proof fn points_tell_of_answers(r: HistoryRow, row: usize)
    ensures
        point_of(r, row).row == row,
        r.up > 0 ==> point_of(r, row).status == 1,
        r.down == 0 ==> point_of(r, row).status == 1,
        r.up == 0 && r.down > 0 ==> point_of(r, row).status == 0,
        point_of(r, row).ts == in_millis(r.created_at),
{
}

/// How often the entries tell that the service answered, and that it did not.
pub open spec fn all_counts(stats: Seq<ServerStatsView>) -> (int, int)
    decreases stats.len(),
{
    if stats.len() == 0 {
        (0, 0)
    } else {
        let before = all_counts(stats.drop_last());
        (before.0 + stats.last().total_up, before.1 + stats.last().total_down)
    }
}

/// The entries of the past of a service together tell as many answers and failures as
/// the overview does.
pub proof fn entries_and_overview_agree(rows: Seq<HistoryRow>, service_id: u64)
    requires
        forall|i: int| 0 <= i < rows.len() ==> (#[trigger] rows[i]).service_id == service_id,
    ensures
        all_counts(gathered(rows)) == service_sums(rows, service_id),
    decreases rows.len(),
{
    if rows.len() > 0 {
        let front = rows.drop_last();
        assert forall|i: int| 0 <= i < front.len() implies (#[trigger] front[i]).service_id
            == service_id by {
            assert(front[i] == rows[i]);
        }
        entries_and_overview_agree(front, service_id);
        assert(rows[rows.len() - 1].service_id == service_id);
        let before = gathered(front);
        let after = gathered(rows);
        if before.len() > 0 && before.last().server_id == rows.last().server_id {
            assert(after.drop_last() =~= before.drop_last());
        } else {
            assert(after.drop_last() =~= before);
        }
    }
}

/// How often a service answered, and how often not, is the sum over its own rows.
pub proof fn sums_are_over_the_rows_of_the_service(rows: Seq<HistoryRow>, service_id: u64)
    ensures
        service_sums(rows, service_id).0 == rows.fold_left(
            0int,
            |sum: int, r: HistoryRow|
                if r.service_id == service_id {
                    sum + r.up
                } else {
                    sum
                },
        ),
        service_sums(rows, service_id).1 == rows.fold_left(
            0int,
            |sum: int, r: HistoryRow|
                if r.service_id == service_id {
                    sum + r.down
                } else {
                    sum
                },
        ),
    decreases rows.len(),
{
    reveal(Seq::fold_left);
    if rows.len() > 0 {
        sums_are_over_the_rows_of_the_service(rows.drop_last(), service_id);
    }
}

/// The rows of one server that follow each other make one entry, with its name, their
/// sums and a point for each; the next entry begins with the next server.
pub proof fn rows_are_gathered_by_server(rows: Seq<HistoryRow>, next: HistoryRow)
    requires
        rows.len() > 0,
        rows.len() < usize::MAX,
    ensures
        gathered(rows).len() > 0,
        gathered(rows).last().server_id == rows.last().server_id,
        next.server_id == rows.last().server_id ==> {
            &&& gathered(rows.push(next)).len() == gathered(rows).len()
            &&& gathered(rows.push(next)).last().total_up == gathered(rows).last().total_up
                + next.up
            &&& gathered(rows.push(next)).last().total_down == gathered(rows).last().total_down
                + next.down
            &&& gathered(rows.push(next)).last().data_points.len() == gathered(
                rows,
            ).last().data_points.len() + 1
            &&& gathered(rows.push(next)).last().server_name == gathered(rows).last().server_name
        },
        next.server_id != rows.last().server_id ==> {
            &&& gathered(rows.push(next)).drop_last() == gathered(rows)
            &&& gathered(rows.push(next)).last().server_id == next.server_id
            &&& gathered(rows.push(next)).last().server_name == next.server_name@
            &&& gathered(rows.push(next)).last().total_up == next.up
            &&& gathered(rows.push(next)).last().total_down == next.down
            &&& gathered(rows.push(next)).last().data_points.len() == 1
        },
        gathered(rows.push(next)).last().data_points.last().row == rows.len(),
        gathered(rows.push(next)).last().data_points.last().ts == in_millis(next.created_at),
{
    assert(rows.push(next).drop_last() =~= rows);
    if next.server_id != rows.last().server_id {
        assert(gathered(rows.push(next)).drop_last() =~= gathered(rows));
    }
}

/// A server reaches a service where its last report of it tells of answers and of no
/// failure, and does not reach it otherwise.
pub proof fn last_reports_decide(
    rows: Seq<HistoryRow>,
    service_id: u64,
    server_id: u64,
    at: int,
)
    requires
        0 <= at < rows.len(),
        rows[at].service_id == service_id,
        rows[at].server_id == server_id,
        forall|i: int|
            at < i < rows.len() ==> !((#[trigger] rows[i]).service_id == service_id
                && rows[i].server_id == server_id),
    ensures
        up_servers(rows, service_id).contains(server_id) <==> rows[at].up > 0 && rows[at].down == 0,
        down_servers(rows, service_id).contains(server_id) <==> rows[at].up == 0 || rows[at].down
            > 0,
    decreases rows.len(),
{
    let front = rows.drop_last();
    if at < front.len() {
        assert forall|i: int| at < i < front.len() implies !((
        #[trigger] front[i]).service_id == service_id && front[i].server_id == server_id) by {
            assert(front[i] == rows[i]);
        }
        last_reports_decide(front, service_id, server_id, at);
        assert(rows[rows.len() - 1] == rows.last());
    }
}

/// The rows of a service are all those that name it, in their order.
pub proof fn rows_of_a_service_name_it(rows: Seq<HistoryRow>, service_id: u64)
    requires
        rows.len() <= usize::MAX,
    ensures
        forall|k: int|
            0 <= k < rows.len() ==> (rows_of_service(rows, service_id).contains(k as usize)
                <==> (#[trigger] rows[k]).service_id == service_id),
        forall|i: int, j: int|
            0 <= i < j < rows_of_service(rows, service_id).len() ==> #[trigger] rows_of_service(
                rows,
                service_id,
            )[i] < #[trigger] rows_of_service(rows, service_id)[j] < rows.len(),
    decreases rows.len(),
{
    if rows.len() > 0 {
        let front = rows.drop_last();
        let before = rows_of_service(front, service_id);
        let all = rows_of_service(rows, service_id);
        rows_of_a_service_name_it(front, service_id);
        let n = (rows.len() - 1) as usize;
        assert forall|i: int| 0 <= i < before.len() implies #[trigger] before[i] < n by {
            lemma_rows_of_service(front, service_id, i);
        }
        assert forall|k: int| 0 <= k < rows.len() implies (all.contains(k as usize) <==> (
        #[trigger] rows[k]).service_id == service_id) by {
            if k < n {
                assert(front[k] == rows[k]);
                if before.contains(k as usize) {
                    let i = choose|i: int| 0 <= i < before.len() && before[i] == k as usize;
                    assert(all[i] == k as usize);
                }
                if all.contains(k as usize) {
                    let i = choose|i: int| 0 <= i < all.len() && all[i] == k as usize;
                    if i < before.len() {
                        assert(before[i] == k as usize);
                    }
                }
            } else if rows[k].service_id == service_id {
                assert(all[all.len() - 1] == k as usize);
            } else if all.contains(k as usize) {
                let i = choose|i: int| 0 <= i < all.len() && all[i] == k as usize;
                assert(before[i] < n);
            }
        }
        assert forall|i: int, j: int| 0 <= i < j < all.len() implies #[trigger] all[i]
            < #[trigger] all[j] < rows.len() by {
            if j < before.len() {
                assert(before[i] < before[j]);
            } else {
                assert(all[i] == before[i]);
            }
        }
    }
}

/// A chart shows thirty slots: the newest row in the last, the one before it to the
/// left of it, and so on; of more rows the newest thirty, and zeros where there are
/// fewer.
pub proof fn charts_end_with_the_newest_row(
    rows: Seq<HistoryRow>,
    all: Seq<usize>,
    up: Seq<u64>,
    down: Seq<u64>,
    back: int,
)
    requires
        are_charts(rows, newest_of(all), up, down),
        0 <= back < 30,
    ensures
        up.len() == 30,
        down.len() == 30,
        newest_of(all).is_suffix_of(all),
        newest_of(all).len() == if all.len() < 30 {
            all.len()
        } else {
            30
        },
        back < all.len() ==> up[29 - back] == rows[all[all.len() - 1 - back] as int].up
            && down[29 - back] == rows[all[all.len() - 1 - back] as int].down,
        back >= all.len() ==> up[29 - back] == 0 && down[29 - back] == 0,
{
    let newest = newest_of(all);
    assert(newest =~= all.skip(all.len() - newest.len()));
    let k = 29 - back;
    assert(up[k] == up[k]);
    if back < all.len() {
        assert(row_in_slot(rows, newest, k) == Some(rows[newest[newest.len() - 1 - back] as int]));
    }
}

/// A server is shown the services that it watches and has reported of, in their order,
/// each with all rows about it.
pub proof fn servers_are_shown_what_they_watch(
    services: Seq<ServiceResource>,
    rows: Seq<HistoryRow>,
    server_id: u64,
    server_name: Seq<char>,
)
    ensures
        services_seen(services, rows, server_id, server_name) == services.filter(
            |s: ServiceResource|
                covers(s, server_id) && rows_of_service(rows, s.id).len() > 0,
        ).map_values(
            |s: ServiceResource|
                InfoView {
                    monitor_id: s.id,
                    server_id,
                    monitor_name: s.name@,
                    server_name,
                    display_index: s.display_index,
                    points: rows_of_service(rows, s.id),
                },
        ),
    decreases services.len(),
{
    reveal(Seq::filter);
    if services.len() > 0 {
        servers_are_shown_what_they_watch(services.drop_last(), rows, server_id, server_name);
    }
    assert(services_seen(services, rows, server_id, server_name) =~= services.filter(
        |s: ServiceResource| covers(s, server_id) && rows_of_service(rows, s.id).len() > 0,
    ).map_values(
        |s: ServiceResource|
            InfoView {
                monitor_id: s.id,
                server_id,
                monitor_name: s.name@,
                server_name,
                display_index: s.display_index,
                points: rows_of_service(rows, s.id),
            },
    ));
}

} // verus!
