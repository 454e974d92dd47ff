//! Watched services: what the reports of the agents make of their status, and
//! what follows from a report.
use std::collections::HashMap;

use vstd::prelude::*;

use crate::{decimal, moment, search, text};
use crate::decimal::to_decimal;
use crate::model::{CronResource, PublicServer, ServiceResource};
use crate::moment::{Moment, add_seconds, is_earlier, parse_time, show_time};
use crate::search::find_char;
use crate::text::{chars_of, same, string_of_range, trim, trim_end_matches};

verus! {

pub const SERVICE_STATUS_UNSET: u8 = 0;

pub const SERVICE_STATUS_NO_DATA: u8 = 1;

pub const SERVICE_STATUS_GOOD: u8 = 2;

pub const SERVICE_STATUS_LOW_AVAILABILITY: u8 = 3;

pub const SERVICE_STATUS_DOWN: u8 = 4;

/// How many reports of a service count towards its status.
pub const SERVICE_CURRENT_STATUS_SIZE: usize = 30;

/// The status of a service that answered in `percent` of its last reports.
pub open spec fn status_of_percent(percent: int) -> u8 {
    if percent == 0 {
        SERVICE_STATUS_NO_DATA
    } else if percent > 95 {
        SERVICE_STATUS_GOOD
    } else if percent > 80 {
        SERVICE_STATUS_LOW_AVAILABILITY
    } else {
        SERVICE_STATUS_DOWN
    }
}

/// The status of a service that answered in `percent` of its last reports.
pub fn service_status_code(percent: u64) -> (r: u8)
    ensures
        r == status_of_percent(percent as int),
{
    if percent == 0 {
        SERVICE_STATUS_NO_DATA
    } else if percent > 95 {
        SERVICE_STATUS_GOOD
    } else if percent > 80 {
        SERVICE_STATUS_LOW_AVAILABILITY
    } else {
        SERVICE_STATUS_DOWN
    }
}

/// The name of a status.
pub open spec fn label_of_status(status: u8) -> Seq<char> {
    if status == SERVICE_STATUS_NO_DATA {
        "No Data"@
    } else if status == SERVICE_STATUS_GOOD {
        "Good"@
    } else if status == SERVICE_STATUS_LOW_AVAILABILITY {
        "Low Availability"@
    } else if status == SERVICE_STATUS_DOWN {
        "Down"@
    } else {
        ""@
    }
}

/// The name of a status.
pub fn service_status_label(status: u8) -> (r: &'static str)
    ensures
        r@ == label_of_status(status),
{
    if status == SERVICE_STATUS_NO_DATA {
        "No Data"
    } else if status == SERVICE_STATUS_GOOD {
        "Good"
    } else if status == SERVICE_STATUS_LOW_AVAILABILITY {
        "Low Availability"
    } else if status == SERVICE_STATUS_DOWN {
        "Down"
    } else {
        ""
    }
}

/// How many of `samples` are `true`.
pub open spec fn count_true(samples: Seq<bool>) -> nat
    decreases samples.len(),
{
    if samples.len() == 0 {
        0
    } else {
        count_true(samples.drop_last()) + if samples.last() {
            1nat
        } else {
            0nat
        }
    }
}

/// The last reports once `sample` has come: never more than the window holds.
pub open spec fn window_after(samples: Seq<bool>, sample: bool) -> Seq<bool> {
    let all = samples.push(sample);
    if all.len() > SERVICE_CURRENT_STATUS_SIZE {
        all.skip(all.len() - SERVICE_CURRENT_STATUS_SIZE)
    } else {
        all
    }
}

/// The status that the reports in `samples` make.
pub open spec fn status_of_window(samples: Seq<bool>) -> u8 {
    status_of_percent(
        if samples.len() == 0 {
            0
        } else {
            (count_true(samples) * 100) as int / samples.len() as int
        },
    )
}

fn count_successes(samples: &Vec<bool>) -> (r: usize)
    ensures
        r == count_true(samples@),
        r <= samples@.len(),
{
    let mut count: usize = 0;
    let mut i: usize = 0;
    while i < samples.len()
        invariant
            i <= samples@.len(),
            count <= i,
            count == count_true(samples@.take(i as int)),
        decreases samples@.len() - i,
    {
        proof {
            assert(samples@.take(i + 1).drop_last() =~= samples@.take(i as int));
        }
        if samples[i] {
            count += 1;
        }
        i += 1;
    }
    proof {
        assert(samples@.take(samples@.len() as int) =~= samples@);
    }
    count
}

/// What is remembered of each service between two reports: the last reports,
/// the last status that was acted on, and the last certificate.
pub struct ServiceWatch {
    pub windows: HashMap<u64, Vec<bool>>,
    pub last: HashMap<u64, u8>,
    pub certificates: HashMap<u64, String>,
}

impl ServiceWatch {
    /// The last reports of a service.
    pub open spec fn window(self, id: u64) -> Seq<bool> {
        if self.windows@.contains_key(id) {
            self.windows@[id]@
        } else {
            seq![]
        }
    }

    /// The status of a service that was acted on last.
    pub open spec fn last_status(self, id: u64) -> u8 {
        if self.last@.contains_key(id) {
            self.last@[id]
        } else {
            SERVICE_STATUS_UNSET
        }
    }

    /// The certificate that a service showed last.
    pub open spec fn certificate(self, id: u64) -> Option<Seq<char>> {
        if self.certificates@.contains_key(id) {
            Some(self.certificates@[id]@)
        } else {
            None
        }
    }

    /// That all but the service `id` is in both what it is in the other.
    pub open spec fn same_but_for(self, other: Self, id: u64) -> bool {
        forall|k: u64|
            k != id ==> {
                &&& #[trigger] self.window(k) == other.window(k)
                &&& self.last_status(k) == other.last_status(k)
                &&& self.certificate(k) == other.certificate(k)
            }
    }

    /// Nothing remembered.
    pub fn new() -> (r: ServiceWatch)
        ensures
            forall|id: u64|
                {
                    &&& #[trigger] r.window(id) == Seq::<bool>::empty()
                    &&& r.last_status(id) == SERVICE_STATUS_UNSET
                    &&& r.certificate(id) == None::<Seq<char>>
                },
    {
        broadcast use vstd::std_specs::hash::group_hash_axioms;

        ServiceWatch { windows: HashMap::new(), last: HashMap::new(), certificates: HashMap::new() }
    }

    /// Counts a report of the service and gives the status that was acted on
    /// last, the status now, and whether it is to be acted on: where it has
    /// changed, and always while the service is down.
    pub fn record_service_current_status(&mut self, service_id: u64, successful: bool) -> (r: (
        u8,
        u8,
        bool,
    ))
        ensures
            final(self).window(service_id) == window_after(
                old(self).window(service_id),
                successful,
            ),
            final(self).window(service_id).len() <= SERVICE_CURRENT_STATUS_SIZE,
            r == status_step(*old(self), service_id, successful),
            r.0 == old(self).last_status(service_id),
            r.1 == status_of_window(final(self).window(service_id)),
            r.2 == (r.1 == SERVICE_STATUS_DOWN || r.1 != r.0),
            final(self).last_status(service_id) == if r.2 {
                r.1
            } else {
                r.0
            },
            final(self).certificates == old(self).certificates,
            final(self).same_but_for(*old(self), service_id),
    {
        broadcast use vstd::std_specs::hash::group_hash_axioms;

        let mut samples: Vec<bool> = match self.windows.remove(&service_id) {
            Some(v) => v,
            None => Vec::new(),
        };
        let ghost before = samples@;
        proof {
            assert(before =~= old(self).window(service_id));
        }
        samples.push(successful);
        if samples.len() > SERVICE_CURRENT_STATUS_SIZE {
            let remove: usize = samples.len() - SERVICE_CURRENT_STATUS_SIZE;
            samples = samples.split_off(remove);
            proof {
                assert(samples@ =~= window_after(before, successful));
            }
        }
        let total: u64 = samples.len() as u64;
        let up: u64 = count_successes(&samples) as u64;
        let up_percent: u64 = if total == 0 {
            0
        } else {
            up * 100 / total
        };
        let current_status: u8 = service_status_code(up_percent);
        self.windows.insert(service_id, samples);
        let last_status: u8 = match self.last.get(&service_id) {
            Some(s) => *s,
            None => SERVICE_STATUS_UNSET,
        };
        let run: bool = current_status == SERVICE_STATUS_DOWN || current_status != last_status;
        if run {
            self.last.insert(service_id, current_status);
        }
        (last_status, current_status, run)
    }
}

/// The issuer and the time of expiry in a certificate report, which are apart
/// by `|`; the time stands with or without the name of its zone behind it.
pub open spec fn certificate_of(raw: Seq<char>) -> Option<(Seq<char>, Moment)> {
    let bar = search::index_of_char(raw, '|', 0);
    if bar >= raw.len() {
        None
    } else {
        let time = text::trimmed(raw.skip(bar + 1));
        let parsed = match moment::time_by_format(time, "%Y-%m-%d %H:%M:%S %z %Z"@) {
            Some(t) => Some(t),
            None => moment::time_by_format(
                text::trimmed(text::without_suffixes(time, " UTC"@)),
                "%Y-%m-%d %H:%M:%S %z"@,
            ),
        };
        match parsed {
            Some(t) => Some((raw.take(bar), Moment { secs: t.0, nanos: t.1 })),
            None => None,
        }
    }
}

/// The issuer and the time of expiry in a certificate report.
pub fn parse_tls_certificate_data(raw: &str) -> (r: Option<(String, Moment)>)
    ensures
        r.is_some() == certificate_of(raw@).is_some(),
        r matches Some(c) ==> {
            &&& c.0@ == (certificate_of(raw@)->0).0
            &&& c.1 == (certificate_of(raw@)->0).1
            &&& moment::plain_text(c.1.secs, c.1.nanos) is Some
        },
{
    let chars = chars_of(raw);
    let bar: usize = find_char(&chars, '|', 0);
    if bar == chars.len() {
        return None;
    }
    let issuer = string_of_range(&chars, 0, bar);
    let rest = string_of_range(&chars, bar + 1, chars.len());
    proof {
        assert(issuer@ =~= raw@.take(bar as int));
        assert(rest@ =~= raw@.skip(bar + 1));
        reveal_strlit(" UTC");
    }
    let time = trim(rest.as_str());
    let first = parse_time(time.as_str(), "%Y-%m-%d %H:%M:%S %z %Z");
    let parsed = match first {
        Some(t) => Some(t),
        None => {
            let cut = trim_end_matches(time.as_str(), " UTC");
            let bare = trim(cut.as_str());
            parse_time(bare.as_str(), "%Y-%m-%d %H:%M:%S %z")
        },
    };
    match parsed {
        Some(t) => Some((issuer, t)),
        None => None,
    }
}

/// The text of the time `m`, which the calendar holds.
pub open spec fn shown(m: Moment) -> Seq<char> {
    moment::plain_text(m.secs, m.nanos)->0
}

/// The time `time` as it stands in a message.
pub fn format_tls_time(time: Moment) -> (r: String)
    requires
        moment::plain_text(time.secs, time.nanos) is Some,
    ensures
        r@ == shown(time),
{
    match show_time(time) {
        Some(s) => s,
        None => String::new(),
    }
}

/// A certificate: who issued it, when it expires, and that time as it is shown.
pub struct Certificate {
    pub issuer: String,
    pub expires: Moment,
    pub shown: String,
}

/// What a certificate says.
pub struct CertificateView {
    pub issuer: Seq<char>,
    pub expires: Moment,
    pub shown: Seq<char>,
}

impl View for Certificate {
    type V = CertificateView;

    open spec fn view(&self) -> CertificateView {
        CertificateView { issuer: self.issuer@, expires: self.expires, shown: self.shown@ }
    }
}

pub open spec fn expiry_message(name: Seq<char>, c: CertificateView) -> Seq<char> {
    "[TLS] "@ + name
        + " The TLS certificate will expire within seven days. Expiration time: "@ + c.shown
}

pub open spec fn change_message(
    name: Seq<char>,
    old: CertificateView,
    new: CertificateView,
) -> Seq<char> {
    "[TLS] "@ + name + " TLS certificate changed, old: issuer "@ + old.issuer + ", expires at "@
        + old.shown + "; new: issuer "@ + new.issuer + ", expires at "@ + new.shown
}

/// A week in seconds.
pub const WEEK: u64 = 604_800;

/// The messages about a certificate of the service `name`: that it expires within
/// a week of `now`, and that it is another one than `was`.
pub open spec fn certificate_notes(
    name: Seq<char>,
    was: Option<CertificateView>,
    new: CertificateView,
    now: Moment,
) -> Seq<Seq<char>> {
    let expiring = if moment::earlier(new.expires, moment::after_seconds(now, WEEK as int)->0) {
        seq![expiry_message(name, new)]
    } else {
        seq![]
    };
    let changed = match was {
        Some(c) => seq![change_message(name, c, new)],
        None => seq![],
    };
    expiring + changed
}

/// The messages about a certificate of the service `name`, which follows on
/// another one where `was` is given.
pub fn certificate_messages(
    name: &str,
    was: Option<Certificate>,
    new: &Certificate,
    now: Moment,
) -> (r: Vec<String>)
    requires
        moment::in_calendar(now.secs + WEEK),
    ensures
        search::texts(r@) == certificate_notes(
            name@,
            match was {
                Some(c) => Some(c@),
                None => None,
            },
            new@,
            now,
        ),
{
    let mut messages: Vec<String> = Vec::new();
    proof {
        assert(search::texts(messages@) =~= seq![]);
    }
    let ghost expiring = if moment::earlier(
        new.expires,
        moment::after_seconds(now, WEEK as int)->0,
    ) {
        seq![expiry_message(name@, new@)]
    } else {
        seq![]
    };
    let deadline = add_seconds(now, WEEK).unwrap();
    if is_earlier(new.expires, deadline) {
        let mut m = "[TLS] ".to_owned();
        m.append(name);
        m.append(" The TLS certificate will expire within seven days. Expiration time: ");
        m.append(new.shown.as_str());
        proof {
            search::lemma_texts_push(messages@, m);
        }
        messages.push(m);
    }
    proof {
        assert(search::texts(messages@) =~= expiring);
    }
    match was {
        Some(was) => {
            let mut m = "[TLS] ".to_owned();
            m.append(name);
            m.append(" TLS certificate changed, old: issuer ");
            m.append(was.issuer.as_str());
            m.append(", expires at ");
            m.append(was.shown.as_str());
            m.append("; new: issuer ");
            m.append(new.issuer.as_str());
            m.append(", expires at ");
            m.append(new.shown.as_str());
            proof {
                search::lemma_texts_push(messages@, m);
                assert(search::texts(messages@).push(m@) =~= expiring + seq![m@]);
            }
            messages.push(m);
        },
        None => {
            proof {
                assert(search::texts(messages@) =~= expiring + seq![]);
            }
        },
    }
    messages
}

/// The certificate that a report tells of.
pub open spec fn reported_certificate(raw: Seq<char>) -> Option<CertificateView> {
    match certificate_of(raw) {
        Some(c) => Some(CertificateView { issuer: c.0, expires: c.1, shown: shown(c.1) }),
        None => None,
    }
}

fn read_certificate(raw: &str) -> (r: Option<Certificate>)
    ensures
        match r {
            Some(c) => reported_certificate(raw@) == Some(c@),
            None => reported_certificate(raw@) is None,
        },
{
    match parse_tls_certificate_data(raw) {
        Some(c) => {
            let shown = format_tls_time(c.1);
            Some(Certificate { issuer: c.0, expires: c.1, shown })
        },
        None => None,
    }
}

/// The messages about the certificate `data` of the service `name`, whose
/// certificate before was `old`.
pub open spec fn tls_messages(
    name: Seq<char>,
    old: Seq<char>,
    data: Seq<char>,
    now: Moment,
) -> Seq<Seq<char>> {
    match reported_certificate(data) {
        None => seq![],
        Some(new) => certificate_notes(
            name,
            if old != data {
                reported_certificate(old)
            } else {
                None
            },
            new,
            now,
        ),
    }
}

impl ServiceWatch {
    /// The messages about the certificate that the service reports, which is
    /// remembered where it is one.
    pub fn service_tls_notifications(
        &mut self,
        service_id: u64,
        service_name: &str,
        data: &str,
        now: Moment,
    ) -> (r: Vec<String>)
        requires
            moment::in_calendar(now.secs + WEEK),
        ensures
            search::texts(r@) == tls_messages(
                service_name@,
                match old(self).certificate(service_id) {
                    Some(c) => c,
                    None => data@,
                },
                data@,
                now,
            ),
            final(self).certificate(service_id) == if certificate_of(data@) is Some {
                Some(data@)
            } else {
                old(self).certificate(service_id)
            },
            final(self).windows == old(self).windows,
            final(self).last == old(self).last,
            final(self).same_but_for(*old(self), service_id),
    {
        broadcast use vstd::std_specs::hash::group_hash_axioms;

        let new = match read_certificate(data) {
            Some(c) => c,
            None => {
                let none: Vec<String> = Vec::new();
                proof {
                    assert(search::texts(none@) =~= seq![]);
                }
                return none;
            },
        };
        let old_data: String = match self.certificates.get(&service_id) {
            Some(c) => c.clone(),
            None => data.to_owned(),
        };
        let was = if same(old_data.as_str(), data) {
            None
        } else {
            read_certificate(old_data.as_str())
        };
        let messages = certificate_messages(service_name, was, &new, now);
        self.certificates.insert(service_id, data.to_owned());
        messages
    }
}

/// How the delay of a report stands to the latency bounds of its service. Delay
/// and bound are given as they are to be shown.
pub enum Latency {
    Within,
    Above { delay: String, bound: String },
    Below { delay: String, bound: String },
}

/// What an agent reports of a service.
pub struct ServiceReport {
    pub successful: bool,
    pub data: String,
}

/// A message to the notification group of a service, and what it is about.
pub struct ServiceNotification {
    pub message: String,
    pub log_context: &'static str,
}

/// What follows from a report: messages to the service's notification group
/// and the scheduled tasks to start.
pub struct ServiceResultEffects {
    pub notifications: Vec<ServiceNotification>,
    pub trigger_crons: Vec<u64>,
}

/// The messages in `v` with what they are about.
pub open spec fn notes(v: Seq<ServiceNotification>) -> Seq<(Seq<char>, Seq<char>)> {
    v.map_values(|n: ServiceNotification| (n.message@, n.log_context@))
}

proof fn lemma_notes_push(v: Seq<ServiceNotification>, n: ServiceNotification)
    ensures
        notes(v.push(n)) == notes(v).push((n.message@, n.log_context@)),
{
    assert(notes(v.push(n)) =~= notes(v).push((n.message@, n.log_context@)));
}

/// The first of `crons` with the number `id`.
pub open spec fn cron_by_id(crons: Seq<CronResource>, id: u64) -> Option<CronResource>
    decreases crons.len(),
{
    if crons.len() == 0 {
        None
    } else if crons[0].id == id {
        Some(crons[0])
    } else {
        cron_by_id(crons.drop_first(), id)
    }
}

/// The first of `crons` with the number `id`.
pub fn find_cron(crons: &Vec<CronResource>, id: u64) -> (r: Option<&CronResource>)
    ensures
        r.is_some() == cron_by_id(crons@, id).is_some(),
        r matches Some(c) ==> *c == cron_by_id(crons@, id)->0,
{
    let mut i: usize = 0;
    proof {
        assert(crons@.skip(0) =~= crons@);
    }
    while i < crons.len()
        invariant
            i <= crons@.len(),
            cron_by_id(crons@.skip(i as int), id) == cron_by_id(crons@, id),
        decreases crons@.len() - i,
    {
        if crons[i].id == id {
            return Some(&crons[i]);
        }
        proof {
            assert(crons@.skip(i as int).drop_first() =~= crons@.skip(i + 1));
        }
        i += 1;
    }
    None
}

/// Those of `ids` that are scheduled tasks which the service's owner may start:
/// their own, or any where the owner is an administrator.
pub open spec fn startable(
    ids: Seq<u64>,
    crons: Seq<CronResource>,
    owner: u64,
    owner_is_admin: bool,
) -> Seq<u64>
    decreases ids.len(),
{
    if ids.len() == 0 {
        seq![]
    } else {
        let rest = startable(ids.drop_last(), crons, owner, owner_is_admin);
        match cron_by_id(crons, ids.last()) {
            Some(cron) => if cron.user_id == owner || owner_is_admin {
                rest.push(ids.last())
            } else {
                rest
            },
            None => rest,
        }
    }
}

fn startable_ids(ids: &Vec<u64>, crons: &Vec<CronResource>, owner: u64, owner_is_admin: bool) -> (r:
    Vec<u64>)
    ensures
        r@ == startable(ids@, crons@, owner, owner_is_admin),
{
    let mut out: Vec<u64> = Vec::new();
    let mut i: usize = 0;
    while i < ids.len()
        invariant
            i <= ids@.len(),
            out@ == startable(ids@.take(i as int), crons@, owner, owner_is_admin),
        decreases ids@.len() - i,
    {
        proof {
            assert(ids@.take(i + 1).drop_last() =~= ids@.take(i as int));
        }
        match find_cron(crons, ids[i]) {
            Some(cron) => {
                if cron.user_id == owner || owner_is_admin {
                    out.push(ids[i]);
                }
            },
            None => {},
        }
        i += 1;
    }
    proof {
        assert(ids@.take(ids@.len() as int) =~= ids@);
    }
    out
}

/// The tasks to start when a service goes from one status to another: those for
/// recovery where it turns good, those for failure where it was good.
pub open spec fn tasks_on_change(service: ServiceResource, last: u8, current: u8) -> Seq<u64> {
    if !service.enable_trigger_task || last == SERVICE_STATUS_UNSET || last == current {
        seq![]
    } else if current == SERVICE_STATUS_GOOD {
        service.recover_trigger_tasks@
    } else if last == SERVICE_STATUS_GOOD {
        service.fail_trigger_tasks@
    } else {
        seq![]
    }
}

pub open spec fn status_message(
    service: ServiceResource,
    current: u8,
    reporter: Seq<char>,
    data: Seq<char>,
) -> Seq<char> {
    "["@ + label_of_status(current) + "] "@ + service.name@ + " Reporter: "@ + reporter
        + ", Error: "@ + data
}

/// The message about a change of status. The first status of a service is told
/// only where it is down.
pub open spec fn status_notes(
    service: ServiceResource,
    status: (u8, u8, bool),
    reporter: Seq<char>,
    data: Seq<char>,
) -> Seq<(Seq<char>, Seq<char>)> {
    if status.2 && service.notify && (status.0 != SERVICE_STATUS_UNSET || status.1
        == SERVICE_STATUS_DOWN) {
        seq![(status_message(service, status.1, reporter, data), "service status"@)]
    } else {
        seq![]
    }
}

pub open spec fn latency_message(
    service: ServiceResource,
    delay: Seq<char>,
    relation: Seq<char>,
    bound: Seq<char>,
    reporter: Seq<char>,
) -> Seq<char> {
    "[Latency] "@ + service.name@ + " "@ + delay + relation + bound + ", Reporter: "@ + reporter
}

/// The message about a delay outside the bounds.
pub open spec fn latency_notes(
    service: ServiceResource,
    latency: Latency,
    reporter: Seq<char>,
) -> Seq<(Seq<char>, Seq<char>)> {
    if !service.latency_notify {
        seq![]
    } else {
        match latency {
            Latency::Within => seq![],
            Latency::Above { delay, bound } => seq![
                (latency_message(service, delay@, " > "@, bound@, reporter), "service latency"@),
            ],
            Latency::Below { delay, bound } => seq![
                (latency_message(service, delay@, " < "@, bound@, reporter), "service latency"@),
            ],
        }
    }
}

/// The messages of `texts`, all about certificates.
pub open spec fn tls_notes(messages: Seq<Seq<char>>) -> Seq<(Seq<char>, Seq<char>)> {
    messages.map_values(|m: Seq<char>| (m, "service tls"@))
}

fn latency_text(
    service: &ServiceResource,
    delay: &String,
    relation: &str,
    bound: &String,
    reporter: &str,
) -> (r: String)
    ensures
        r@ == latency_message(*service, delay@, relation@, bound@, reporter@),
{
    let mut m = "[Latency] ".to_owned();
    m.append(service.name.as_str());
    m.append(" ");
    m.append(delay.as_str());
    m.append(relation);
    m.append(bound.as_str());
    m.append(", Reporter: ");
    m.append(reporter);
    m
}

fn push_latency_note(
    notifications: &mut Vec<ServiceNotification>,
    service: &ServiceResource,
    latency: &Latency,
    reporter: &str,
)
    ensures
        notes(final(notifications)@) == notes(old(notifications)@) + latency_notes(
            *service,
            *latency,
            reporter@,
        ),
{
    let ghost before = notifications@;
    if service.latency_notify {
        match latency {
            Latency::Within => {},
            Latency::Above { delay, bound } => {
                let message = latency_text(service, delay, " > ", bound, reporter);
                let n = ServiceNotification { message, log_context: "service latency" };
                proof {
                    lemma_notes_push(notifications@, n);
                }
                notifications.push(n);
            },
            Latency::Below { delay, bound } => {
                let message = latency_text(service, delay, " < ", bound, reporter);
                let n = ServiceNotification { message, log_context: "service latency" };
                proof {
                    lemma_notes_push(notifications@, n);
                }
                notifications.push(n);
            },
        }
    }
    proof {
        assert(notes(notifications@) =~= notes(before) + latency_notes(
            *service,
            *latency,
            reporter@,
        ));
    }
}

fn push_tls_notes(notifications: &mut Vec<ServiceNotification>, messages: Vec<String>)
    ensures
        notes(final(notifications)@)
            == notes(old(notifications)@) + tls_notes(search::texts(messages@)),
{
    let mut i: usize = 0;
    let ghost before = notes(notifications@);
    proof {
        assert(before =~= before + tls_notes(search::texts(messages@).take(0)));
    }
    while i < messages.len()
        invariant
            i <= messages@.len(),
            notes(notifications@) == before + tls_notes(search::texts(messages@).take(i as int)),
        decreases messages@.len() - i,
    {
        let n = ServiceNotification {
            message: messages[i].clone(),
            log_context: "service tls",
        };
        proof {
            lemma_notes_push(notifications@, n);
            assert(before + tls_notes(search::texts(messages@).take(i + 1)) =~= (before + tls_notes(
                search::texts(messages@).take(i as int),
            )).push((n.message@, n.log_context@)));
        }
        notifications.push(n);
        i += 1;
    }
    proof {
        assert(search::texts(messages@).take(messages@.len() as int) =~= search::texts(messages@));
    }
}

/// The first of `servers` with the number `id`.
pub open spec fn server_by_id(servers: Seq<PublicServer>, id: u64) -> Option<PublicServer>
    decreases servers.len(),
{
    if servers.len() == 0 {
        None
    } else if servers[0].id == id {
        Some(servers[0])
    } else {
        server_by_id(servers.drop_first(), id)
    }
}

/// The first of `servers` with the number `id`.
pub fn find_server(servers: &Vec<PublicServer>, id: u64) -> (r: Option<&PublicServer>)
    ensures
        r.is_some() == server_by_id(servers@, id).is_some(),
        r matches Some(s) ==> *s == server_by_id(servers@, id)->0,
{
    let mut i: usize = 0;
    proof {
        assert(servers@.skip(0) =~= servers@);
    }
    while i < servers.len()
        invariant
            i <= servers@.len(),
            server_by_id(servers@.skip(i as int), id) == server_by_id(servers@, id),
        decreases servers@.len() - i,
    {
        if servers[i].id == id {
            return Some(&servers[i]);
        }
        proof {
            assert(servers@.skip(i as int).drop_first() =~= servers@.skip(i + 1));
        }
        i += 1;
    }
    None
}

/// The name of the server `server_id`, or its number where it is not known.
pub open spec fn reporter_of(servers: Seq<PublicServer>, server_id: u64) -> Seq<char> {
    match server_by_id(servers, server_id) {
        Some(server) => server.name@,
        None => decimal::decimal(server_id as nat),
    }
}

/// The name of the server `server_id`, or its number where it is not known.
pub fn reporter_name(servers: &Vec<PublicServer>, server_id: u64) -> (r: String)
    ensures
        r@ == reporter_of(servers@, server_id),
{
    match find_server(servers, server_id) {
        Some(server) => server.name.clone(),
        None => to_decimal(server_id),
    }
}

/// The status that a report leads to: the one acted on last, the one now, and
/// whether it is to be acted on.
pub open spec fn status_step(watch: ServiceWatch, id: u64, successful: bool) -> (u8, u8, bool) {
    let last = watch.last_status(id);
    let current = status_of_window(window_after(watch.window(id), successful));
    (last, current, current == SERVICE_STATUS_DOWN || current != last)
}

/// The tasks that a report leads to.
pub open spec fn tasks_started(
    watch: ServiceWatch,
    service: ServiceResource,
    successful: bool,
    crons: Seq<CronResource>,
    owner_is_admin: bool,
) -> Seq<u64> {
    let step = status_step(watch, service.id, successful);
    startable(
        tasks_on_change(service, step.0, step.1),
        crons,
        service.user_id,
        owner_is_admin,
    )
}

/// The messages that a report leads to.
pub open spec fn notes_told(
    watch: ServiceWatch,
    service: ServiceResource,
    successful: bool,
    data: Seq<char>,
    latency: Latency,
    reporter: Seq<char>,
    now: Moment,
) -> Seq<(Seq<char>, Seq<char>)> {
    status_notes(service, status_step(watch, service.id, successful), reporter, data)
        + latency_notes(service, latency, reporter) + if service.notify {
        tls_notes(
            tls_messages(
                service.name@,
                match watch.certificate(service.id) {
                    Some(c) => c,
                    None => data,
                },
                data,
                now,
            ),
        )
    } else {
        seq![]
    }
}

/// The status of a service that counts as acted on after a report.
pub open spec fn status_after(watch: ServiceWatch, id: u64, successful: bool) -> u8 {
    let step = status_step(watch, id, successful);
    if step.2 {
        step.1
    } else {
        step.0
    }
}

/// The certificate that is remembered of a service after a report.
pub open spec fn certificate_after(
    watch: ServiceWatch,
    service: ServiceResource,
    data: Seq<char>,
) -> Option<Seq<char>> {
    if service.notify && certificate_of(data) is Some {
        Some(data)
    } else {
        watch.certificate(service.id)
    }
}

/// Counts an agent's report of a service and gives what follows from it: the
/// messages about status, latency and certificate, in this order, and the
/// scheduled tasks to start.
pub fn complete_service_result(
    watch: &mut ServiceWatch,
    service: &ServiceResource,
    report: &ServiceReport,
    latency: &Latency,
    servers: &Vec<PublicServer>,
    server_id: u64,
    owner_is_admin: bool,
    crons: &Vec<CronResource>,
    now: Moment,
) -> (r: ServiceResultEffects)
    requires
        moment::in_calendar(now.secs + WEEK),
    ensures
        notes(r.notifications@) == notes_told(
            *old(watch),
            *service,
            report.successful,
            report.data@,
            *latency,
            reporter_of(servers@, server_id),
            now,
        ),
        r.trigger_crons@ == tasks_started(
            *old(watch),
            *service,
            report.successful,
            crons@,
            owner_is_admin,
        ),
        final(watch).window(service.id) == window_after(
            old(watch).window(service.id),
            report.successful,
        ),
        final(watch).last_status(service.id) == status_after(
            *old(watch),
            service.id,
            report.successful,
        ),
        final(watch).certificate(service.id) == certificate_after(
            *old(watch),
            *service,
            report.data@,
        ),
        final(watch).same_but_for(*old(watch), service.id),
{
    let status = watch.record_service_current_status(service.id, report.successful);
    let last: u8 = status.0;
    let current: u8 = status.1;
    let run: bool = status.2;
    let reporter = reporter_name(servers, server_id);
    let mut notifications: Vec<ServiceNotification> = Vec::new();
    let ghost told = status_notes(*service, status, reporter@, report.data@);
    if run && service.notify && (last != SERVICE_STATUS_UNSET || current == SERVICE_STATUS_DOWN) {
        let mut m = "[".to_owned();
        m.append(service_status_label(current));
        m.append("] ");
        m.append(service.name.as_str());
        m.append(" Reporter: ");
        m.append(reporter.as_str());
        m.append(", Error: ");
        m.append(report.data.as_str());
        notifications.push(ServiceNotification { message: m, log_context: "service status" });
    }
    proof {
        assert(notes(notifications@) =~= told);
    }
    push_latency_note(&mut notifications, service, latency, reporter.as_str());
    if service.notify {
        let messages = watch.service_tls_notifications(
            service.id,
            service.name.as_str(),
            report.data.as_str(),
            now,
        );
        push_tls_notes(&mut notifications, messages);
    } else {
        proof {
            assert(notes(notifications@) + Seq::<(Seq<char>, Seq<char>)>::empty() =~= notes(
                notifications@,
            ));
        }
    }
    let trigger_crons: Vec<u64> = if service.enable_trigger_task && last != SERVICE_STATUS_UNSET
        && last != current {
        if current == SERVICE_STATUS_GOOD {
            startable_ids(&service.recover_trigger_tasks, crons, service.user_id, owner_is_admin)
        } else if last == SERVICE_STATUS_GOOD {
            startable_ids(&service.fail_trigger_tasks, crons, service.user_id, owner_is_admin)
        } else {
            Vec::new()
        }
    } else {
        Vec::new()
    };
    ServiceResultEffects { notifications, trigger_crons }
}

/// A service whose reports all succeed is good from its first report on, and
/// one whose reports all fail has no data; neither is ever taken for the other.
pub proof fn steady_reports_decide_the_status(samples: Seq<bool>, outcome: bool)
    requires
        0 < samples.len() <= SERVICE_CURRENT_STATUS_SIZE,
        forall|i: int| 0 <= i < samples.len() ==> samples[i] == outcome,
    ensures
        status_of_window(samples) == if outcome {
            SERVICE_STATUS_GOOD
        } else {
            SERVICE_STATUS_NO_DATA
        },
{
    lemma_count_steady(samples, outcome);
    let n = samples.len() as int;
    if outcome {
        assert((n * 100) / n == 100) by (nonlinear_arith)
            requires
                n > 0,
        ;
    } else {
        assert(0int / n == 0) by (nonlinear_arith)
            requires
                n > 0,
        ;
    }
}

proof fn lemma_count_steady(samples: Seq<bool>, outcome: bool)
    requires
        forall|i: int| 0 <= i < samples.len() ==> samples[i] == outcome,
    ensures
        count_true(samples) == if outcome {
            samples.len()
        } else {
            0
        },
    decreases samples.len(),
{
    if samples.len() > 0 {
        lemma_count_steady(samples.drop_last(), outcome);
    }
}

/// While a service keeps its status and is not down, its reports lead to no
/// message about the status and start no task.
pub proof fn unchanged_status_is_quiet(
    watch: ServiceWatch,
    service: ServiceResource,
    successful: bool,
    reporter: Seq<char>,
    data: Seq<char>,
)
    requires
        status_step(watch, service.id, successful).1 == watch.last_status(service.id),
        watch.last_status(service.id) != SERVICE_STATUS_DOWN,
    ensures
        status_notes(
            service,
            status_step(watch, service.id, successful),
            reporter,
            data,
        ).len() == 0,
        tasks_on_change(
            service,
            status_step(watch, service.id, successful).0,
            status_step(watch, service.id, successful).1,
        ).len() == 0,
{
}

/// A task that is started belongs to the service's owner or was started by an
/// administrator.
pub proof fn started_tasks_are_permitted(
    ids: Seq<u64>,
    crons: Seq<CronResource>,
    owner: u64,
    owner_is_admin: bool,
    i: int,
)
    requires
        0 <= i < startable(ids, crons, owner, owner_is_admin).len(),
    ensures
        ({
            let id = startable(ids, crons, owner, owner_is_admin)[i];
            &&& ids.contains(id)
            &&& cron_by_id(crons, id) matches Some(cron) && (cron.user_id == owner
                || owner_is_admin)
        }),
    decreases ids.len(),
{
    if ids.len() > 0 {
        let rest = startable(ids.drop_last(), crons, owner, owner_is_admin);
        if i < rest.len() {
            started_tasks_are_permitted(ids.drop_last(), crons, owner, owner_is_admin, i);
            let id = rest[i];
            let k = choose|k: int| 0 <= k < ids.drop_last().len() && ids.drop_last()[k] == id;
            assert(ids[k] == id);
        } else {
            assert(ids[ids.len() - 1] == ids.last());
        }
    }
}

/// Whether the owner of a service may start the task `id`: the first task with
/// this number is theirs, or they are an administrator.
pub open spec fn may_start(
    crons: Seq<CronResource>,
    id: u64,
    owner: u64,
    owner_is_admin: bool,
) -> bool {
    exists|j: int|
        {
            &&& 0 <= j < crons.len()
            &&& (#[trigger] crons[j]).id == id
            &&& crons[j].user_id == owner || owner_is_admin
            &&& forall|i: int| 0 <= i < j ==> (#[trigger] crons[i]).id != id
        }
}

proof fn lemma_cron_by_id(crons: Seq<CronResource>, id: u64) -> (at: int)
    ensures
        0 <= at <= crons.len(),
        forall|i: int| 0 <= i < at ==> (#[trigger] crons[i]).id != id,
        at < crons.len() ==> crons[at].id == id,
        cron_by_id(crons, id) == if at < crons.len() {
            Some(crons[at])
        } else {
            None
        },
    decreases crons.len(),
{
    if crons.len() == 0 || crons[0].id == id {
        0
    } else {
        let rest = crons.drop_first();
        let at = lemma_cron_by_id(rest, id) + 1;
        assert forall|i: int| 0 <= i < at implies (#[trigger] crons[i]).id != id by {
            if i > 0 {
                assert(rest[i - 1] == crons[i]);
            }
        }
        at
    }
}

proof fn lemma_startable(ids: Seq<u64>, crons: Seq<CronResource>, owner: u64, owner_is_admin: bool)
    ensures
        startable(ids, crons, owner, owner_is_admin) == ids.filter(
            |id: u64| may_start(crons, id, owner, owner_is_admin),
        ),
    decreases ids.len(),
{
    reveal(Seq::filter);
    if ids.len() > 0 {
        lemma_startable(ids.drop_last(), crons, owner, owner_is_admin);
        let id = ids.last();
        let at = lemma_cron_by_id(crons, id);
        if may_start(crons, id, owner, owner_is_admin) {
            let j = choose|j: int|
                {
                    &&& 0 <= j < crons.len()
                    &&& (#[trigger] crons[j]).id == id
                    &&& crons[j].user_id == owner || owner_is_admin
                    &&& forall|i: int| 0 <= i < j ==> (#[trigger] crons[i]).id != id
                };
            assert(j == at);
        } else if at < crons.len() {
            assert(crons[at].id == id);
        }
    }
}

/// Where a service with trigger tasks switched on goes from good to another
/// status, exactly those of its tasks for failure are started that its owner may
/// start; where it goes from another known status to good, those of its tasks for
/// recovery. Otherwise, and where trigger tasks are switched off or no status was
/// known, none is.
pub proof fn failure_and_recovery_start_their_own_tasks(
    service: ServiceResource,
    last: u8,
    current: u8,
    crons: Seq<CronResource>,
    owner_is_admin: bool,
)
    ensures
        ({
            let started = startable(
                tasks_on_change(service, last, current),
                crons,
                service.user_id,
                owner_is_admin,
            );
            let allowed = |id: u64| may_start(crons, id, service.user_id, owner_is_admin);
            let on = service.enable_trigger_task;
            &&& on && last == SERVICE_STATUS_GOOD && current != SERVICE_STATUS_GOOD ==> started
                == service.fail_trigger_tasks@.filter(allowed)
            &&& on && last != SERVICE_STATUS_GOOD && last != SERVICE_STATUS_UNSET && current
                == SERVICE_STATUS_GOOD ==> started == service.recover_trigger_tasks@.filter(allowed)
            &&& !on || last == SERVICE_STATUS_UNSET || last == current || (last
                != SERVICE_STATUS_GOOD && current != SERVICE_STATUS_GOOD) ==> started.len() == 0
        }),
{
    lemma_startable(
        tasks_on_change(service, last, current),
        crons,
        service.user_id,
        owner_is_admin,
    );
    assert(startable(seq![], crons, service.user_id, owner_is_admin) =~= seq![]);
}

proof fn lemma_count_is_filter(samples: Seq<bool>)
    ensures
        count_true(samples) == samples.filter(|s: bool| s).len(),
    decreases samples.len(),
{
    reveal(Seq::filter);
    if samples.len() > 0 {
        lemma_count_is_filter(samples.drop_last());
    }
}

/// A service is good while at least 96 in a hundred of its last reports
/// succeeded, of low availability while at least 81 did, down while at least one
/// did, and without data below that.
pub proof fn successes_decide_the_status(samples: Seq<bool>)
    requires
        samples.len() > 0,
    ensures
        ({
            let up = samples.filter(|s: bool| s).len() * 100;
            let n = samples.len();
            let status = status_of_window(samples);
            &&& status == SERVICE_STATUS_GOOD <==> up >= 96 * n
            &&& status == SERVICE_STATUS_LOW_AVAILABILITY <==> 81 * n <= up < 96 * n
            &&& status == SERVICE_STATUS_DOWN <==> n <= up < 81 * n
            &&& status == SERVICE_STATUS_NO_DATA <==> up < n
        }),
{
    lemma_count_is_filter(samples);
    let up = (count_true(samples) * 100) as int;
    let n = samples.len() as int;
    let p = up / n;
    assert(up == n * p + up % n && 0 <= up % n < n) by {
        vstd::arithmetic::div_mod::lemma_fundamental_div_mod(up, n);
    }
    assert(p >= 96 <==> up >= 96 * n) by (nonlinear_arith)
        requires
            up == n * p + up % n,
            0 <= up % n < n,
    ;
    assert(p >= 81 <==> up >= 81 * n) by (nonlinear_arith)
        requires
            up == n * p + up % n,
            0 <= up % n < n,
    ;
    assert(p >= 1 <==> up >= n) by (nonlinear_arith)
        requires
            up == n * p + up % n,
            0 <= up % n < n,
    ;
    assert(p >= 0) by (nonlinear_arith)
        requires
            up == n * p + up % n,
            0 <= up % n < n,
            up >= 0,
    ;
}

/// The last thirty reports count: a new one is the last of them, the ones before
/// keep their order, and only the oldest of thirty makes room.
pub proof fn windows_hold_the_last_reports(samples: Seq<bool>, sample: bool)
    requires
        samples.len() <= 30,
    ensures
        ({
            let after = window_after(samples, sample);
            &&& after.len() == if samples.len() < 30 {
                samples.len() + 1
            } else {
                30
            }
            &&& after.last() == sample
            &&& after.drop_last() == if samples.len() < 30 {
                samples
            } else {
                samples.drop_first()
            }
        }),
{
    let after = window_after(samples, sample);
    assert(after.drop_last() =~= if samples.len() < 30 {
        samples
    } else {
        samples.drop_first()
    });
}

/// A report leads to a message about the status exactly where messages are
/// switched on and the service is down, or goes from one known status to another.
pub proof fn status_messages_tell_of_changes(
    watch: ServiceWatch,
    service: ServiceResource,
    successful: bool,
    reporter: Seq<char>,
    data: Seq<char>,
)
    ensures
        ({
            let last = watch.last_status(service.id);
            let current = status_of_window(window_after(watch.window(service.id), successful));
            let told = status_notes(
                service,
                status_step(watch, service.id, successful),
                reporter,
                data,
            ).len();
            &&& told == 1 <==> service.notify && (current == SERVICE_STATUS_DOWN || (last
                != SERVICE_STATUS_UNSET && last != current))
            &&& told <= 1
        }),
{
}

/// A message says that a certificate expires exactly where it does so within
/// seven days, and another one that it changed exactly where another one was there
/// before.
pub proof fn certificates_are_told_in_time(
    name: Seq<char>,
    was: Option<CertificateView>,
    new: CertificateView,
    now: Moment,
)
    requires
        moment::in_calendar(now.secs + 7 * 24 * 60 * 60),
        now.nanos < 1_000_000_000,
    ensures
        ({
            let told = certificate_notes(name, was, new, now);
            let soon = moment::earlier(
                new.expires,
                (Moment { secs: (now.secs + 7 * 24 * 60 * 60) as i64, nanos: now.nanos }),
            );
            &&& told.contains(expiry_message(name, new)) || !soon
            &&& was matches Some(c) ==> told.last() == change_message(name, c, new)
            &&& told.len() == (if soon {
                1int
            } else {
                0
            }) + (if was is Some {
                1int
            } else {
                0
            })
        }),
{
    let told = certificate_notes(name, was, new, now);
    if moment::earlier(new.expires, moment::after_seconds(now, WEEK as int)->0) {
        assert(told[0] == expiry_message(name, new));
    }
}

proof fn lemma_server_by_id(servers: Seq<PublicServer>, id: u64, at: int)
    requires
        0 <= at <= servers.len(),
        forall|i: int| 0 <= i < at ==> (#[trigger] servers[i]).id != id,
        at < servers.len() ==> servers[at].id == id,
    ensures
        server_by_id(servers, id) == if at < servers.len() {
            Some(servers[at])
        } else {
            None
        },
    decreases servers.len(),
{
    if at > 0 {
        let rest = servers.drop_first();
        assert forall|i: int| 0 <= i < at - 1 implies (#[trigger] rest[i]).id != id by {
            assert(rest[i] == servers[i + 1]);
        }
        lemma_server_by_id(rest, id, at - 1);
    }
}

/// Who reports is told by the name of the first server with the number, or by the number
/// where no server has it.
pub proof fn reporters_are_told_by_name(servers: Seq<PublicServer>, id: u64, at: int)
    requires
        0 <= at <= servers.len(),
        forall|i: int| 0 <= i < at ==> (#[trigger] servers[i]).id != id,
        at < servers.len() ==> servers[at].id == id,
    ensures
        at < servers.len() ==> reporter_of(servers, id) == servers[at].name@,
        at == servers.len() ==> reporter_of(servers, id) == decimal::decimal(id as nat),
{
    lemma_server_by_id(servers, id, at);
}

/// A report of a certificate tells its issuer, up to the first bar, and behind it the
/// time at which it expires; without a bar it tells none.
pub proof fn certificates_are_told_with_a_bar(issuer: Seq<char>, time: Seq<char>, t: (i64, u32))
    requires
        forall|i: int| 0 <= i < issuer.len() ==> #[trigger] issuer[i] != '|',
        moment::time_by_format(text::trimmed(time), "%Y-%m-%d %H:%M:%S %z %Z"@) == Some(t),
    ensures
        certificate_of(issuer + seq!['|'] + time) matches Some(c) && c.0 == issuer && c.1.secs
            == t.0 && c.1.nanos == t.1,
        certificate_of(issuer) is None,
{
    let raw = issuer + seq!['|'] + time;
    search::lemma_index_of_char(raw, '|', 0);
    search::lemma_index_of_char(issuer, '|', 0);
    let bar = search::index_of_char(raw, '|', 0);
    assert(raw[issuer.len() as int] == '|');
    if bar < issuer.len() {
        assert(raw[bar] == issuer[bar]);
    }
    assert(raw.take(bar) =~= issuer);
    assert(raw.skip(bar + 1) =~= time);
    let at = search::index_of_char(issuer, '|', 0);
    if at < issuer.len() {
        assert(issuer[at] == '|');
    }
}

/// A delay above the bound is told as more and one below as less, where messages about
/// delays are switched on, and one within the bounds never.
pub proof fn delays_outside_the_bounds_are_told(
    service: ServiceResource,
    delay: String,
    bound: String,
    reporter: Seq<char>,
)
    ensures
        !service.latency_notify ==> latency_notes(
            service,
            (Latency::Above { delay, bound }),
            reporter,
        ).len() == 0 && latency_notes(service, (Latency::Below { delay, bound }), reporter).len()
            == 0,
        latency_notes(service, Latency::Within, reporter).len() == 0,
        service.latency_notify ==> ({
            let above = latency_notes(service, (Latency::Above { delay, bound }), reporter);
            let below = latency_notes(service, (Latency::Below { delay, bound }), reporter);
            &&& above.len() == 1 && below.len() == 1
            &&& above[0].0 == "[Latency] "@ + service.name@ + " "@ + delay@ + " > "@ + bound@
                + ", Reporter: "@ + reporter
            &&& below[0].0 == "[Latency] "@ + service.name@ + " "@ + delay@ + " < "@ + bound@
                + ", Reporter: "@ + reporter
        }),
{
}

/// The names of the four statuses of a service are all different and not empty.
pub proof fn statuses_are_told_apart(a: u8, b: u8)
    requires
        1 <= a <= 4,
        1 <= b <= 4,
        a != b,
    ensures
        label_of_status(a) != label_of_status(b),
        label_of_status(a).len() > 0,
        label_of_status(SERVICE_STATUS_GOOD) == "Good"@,
        label_of_status(SERVICE_STATUS_DOWN) == "Down"@,
        label_of_status(SERVICE_STATUS_LOW_AVAILABILITY) == "Low Availability"@,
        label_of_status(SERVICE_STATUS_NO_DATA) == "No Data"@,
{
    reveal_strlit("Good");
    reveal_strlit("Down");
    reveal_strlit("No Data");
    reveal_strlit("Low Availability");
    assert("Good"@[0] == 'G' && "Down"@[0] == 'D' && "No Data"@[0] == 'N'
        && "Low Availability"@[0] == 'L');
}

/// A report starts tasks by what it makes of the last thirty reports: where these were
/// good and no longer are, those for failure, where they were not and now are, those for
/// recovery, of all that the service's owner may start. An owner who is no administrator
/// starts none of others.
pub proof fn reports_start_tasks_of_the_owner(
    watch: ServiceWatch,
    service: ServiceResource,
    successful: bool,
    crons: Seq<CronResource>,
    owner_is_admin: bool,
)
    ensures
        ({
            let last = watch.last_status(service.id);
            let now = status_of_window(window_after(watch.window(service.id), successful));
            let started = tasks_started(watch, service, successful, crons, owner_is_admin);
            let allowed = |id: u64| may_start(crons, id, service.user_id, owner_is_admin);
            &&& service.enable_trigger_task && last == SERVICE_STATUS_GOOD && now
                != SERVICE_STATUS_GOOD ==> started == service.fail_trigger_tasks@.filter(allowed)
            &&& service.enable_trigger_task && last != SERVICE_STATUS_UNSET && last
                != SERVICE_STATUS_GOOD && now == SERVICE_STATUS_GOOD ==> started
                == service.recover_trigger_tasks@.filter(allowed)
            &&& !service.enable_trigger_task || last == SERVICE_STATUS_UNSET || last == now
                ==> started.len() == 0
        }),
{
    let step = status_step(watch, service.id, successful);
    failure_and_recovery_start_their_own_tasks(service, step.0, step.1, crons, owner_is_admin);
}

/// The status that counts as acted on after a report is the one that the last thirty
/// reports make; a certificate is remembered where messages are switched on and it can be
/// read, and else the one before stays.
pub proof fn reports_are_remembered(
    watch: ServiceWatch,
    service: ServiceResource,
    successful: bool,
    data: Seq<char>,
)
    ensures
        status_after(watch, service.id, successful) == status_of_window(
            window_after(watch.window(service.id), successful),
        ),
        service.notify && certificate_of(data) is Some ==> certificate_after(watch, service, data)
            == Some(data),
        !service.notify || certificate_of(data) is None ==> certificate_after(watch, service, data)
            == watch.certificate(service.id),
{
}

/// A report leads to its messages in this order: about the status, about the delay, about
/// the certificate; those about the last only where messages are switched on.
pub proof fn messages_are_told_in_order(
    watch: ServiceWatch,
    service: ServiceResource,
    successful: bool,
    data: Seq<char>,
    latency: Latency,
    reporter: Seq<char>,
    now: Moment,
)
    ensures
        ({
            let told = notes_told(watch, service, successful, data, latency, reporter, now);
            let status = status_notes(
                service,
                status_step(watch, service.id, successful),
                reporter,
                data,
            );
            let delay = latency_notes(service, latency, reporter);
            &&& status.is_prefix_of(told)
            &&& (status + delay).is_prefix_of(told)
            &&& !service.notify ==> told == status + delay
            &&& service.notify && certificate_of(data) is None ==> told == status + delay
            &&& service.notify && certificate_of(data) is Some && watch.certificate(service.id)
                is None ==> told.len() <= status.len() + delay.len() + 1
        }),
{
    let told = notes_told(watch, service, successful, data, latency, reporter, now);
    let status = status_notes(
        service,
        status_step(watch, service.id, successful),
        reporter,
        data,
    );
    let delay = latency_notes(service, latency, reporter);
    assert(told.take(status.len() as int) =~= status);
    assert(told.take((status.len() + delay.len()) as int) =~= status + delay);
    if !service.notify || certificate_of(data) is None {
        assert(told =~= status + delay);
    }
}

/// A certificate that stays the same is not told as changed; another one is, where both
/// can be read. Data that is no certificate leads to no message.
pub proof fn changed_certificates_are_told(
    name: Seq<char>,
    old: Seq<char>,
    data: Seq<char>,
    now: Moment,
)
    ensures
        reported_certificate(data) is None ==> tls_messages(name, old, data, now).len() == 0,
        tls_messages(name, data, data, now).len() <= 1,
        old != data && reported_certificate(old) is Some && reported_certificate(data) is Some
            ==> tls_messages(name, old, data, now).len() > 0 && tls_messages(
            name,
            old,
            data,
            now,
        ).last() == change_message(
            name,
            reported_certificate(old)->0,
            reported_certificate(data)->0,
        ),
{
}

/// A message about the status tells it in front, then the service, who reported, and the
/// error; one about a certificate tells both issuers and both times, the old ones first.
pub proof fn messages_tell_what_they_are_about(
    service: ServiceResource,
    current: u8,
    reporter: Seq<char>,
    data: Seq<char>,
    name: Seq<char>,
    was: CertificateView,
    new: CertificateView,
)
    ensures
        data.is_suffix_of(status_message(service, current, reporter, data)),
        ("["@ + label_of_status(current) + "] "@ + service.name@ + " Reporter: "@
            + reporter).is_prefix_of(status_message(service, current, reporter, data)),
        ("[TLS] "@ + name + " TLS certificate changed, old: issuer "@ + was.issuer
            + ", expires at "@ + was.shown).is_prefix_of(change_message(name, was, new)),
        ("; new: issuer "@ + new.issuer + ", expires at "@ + new.shown).is_suffix_of(
            change_message(name, was, new),
        ),
        ("[TLS] "@ + name).is_prefix_of(expiry_message(name, new)),
        new.shown.is_suffix_of(expiry_message(name, new)),
{
    let m = status_message(service, current, reporter, data);
    assert(m.skip(m.len() - data.len()) =~= data);
    let front = "["@ + label_of_status(current) + "] "@ + service.name@ + " Reporter: "@ + reporter;
    assert(m.take(front.len() as int) =~= front);
    let c = change_message(name, was, new);
    let a = "[TLS] "@ + name + " TLS certificate changed, old: issuer "@ + was.issuer
        + ", expires at "@ + was.shown;
    let b = "; new: issuer "@ + new.issuer + ", expires at "@ + new.shown;
    assert(c.take(a.len() as int) =~= a);
    assert(c.skip(c.len() - b.len()) =~= b);
    let e = expiry_message(name, new);
    let f = "[TLS] "@ + name;
    assert(e.take(f.len() as int) =~= f);
    assert(e.skip(e.len() - new.shown.len()) =~= new.shown);
}

} // verus!
