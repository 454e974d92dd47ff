//! Notifications: what is sent, how it is written, and how often it is tried.
use vstd::prelude::*;

use crate::{clock, decimal, encode, ip, json, jsontext, search, text};
use crate::clock::utc_now_text;
use crate::ddns::RequestMethod;
use crate::decimal::to_decimal;
use crate::encode::percent_encode;
use crate::ip::{IpBits, notification_ip_allowed};
use crate::json::Json;
use crate::jsontext::{MapError, json_escape, json_string_map};
use crate::model::NotificationResource;
use crate::search::{contains, join, replace};
use crate::text::{concat2, same, trim};

verus! {

pub const REQUEST_METHOD_GET: u8 = 1;

pub const REQUEST_METHOD_POST: u8 = 2;

pub const REQUEST_TYPE_JSON: u8 = 1;

pub const REQUEST_TYPE_FORM: u8 = 2;

pub const NOTIFICATION_MAX_ATTEMPTS: u32 = 3;

pub const TEMPLATE_MAX_PASSES: usize = 8;

/// Why a notification is not sent.
#[derive(Debug, Clone, Copy, PartialEq, Eq, Structural)]
pub enum NotificationError {
    UnsupportedMethod,
    UnsupportedType,
    NotJson,
    NotObject,
    TargetNotAllowed,
    InvalidUrl,
}

pub open spec fn notification_error_text(e: NotificationError) -> Seq<char> {
    match e {
        NotificationError::UnsupportedMethod => "unsupported request method"@,
        NotificationError::UnsupportedType => "unsupported request type"@,
        NotificationError::NotJson => "failed to parse json object"@,
        NotificationError::NotObject => "expected json object"@,
        NotificationError::TargetNotAllowed => "HTTP URL target is not allowed"@,
        NotificationError::InvalidUrl => "invalid notification url"@,
    }
}

impl NotificationError {
    /// What is told of it.
    pub fn message(self) -> (r: &'static str)
        ensures
            r@ == notification_error_text(self),
    {
        match self {
            NotificationError::UnsupportedMethod => "unsupported request method",
            NotificationError::UnsupportedType => "unsupported request type",
            NotificationError::NotJson => "failed to parse json object",
            NotificationError::NotObject => "expected json object",
            NotificationError::TargetNotAllowed => "HTTP URL target is not allowed",
            NotificationError::InvalidUrl => "invalid notification url",
        }
    }
}

/// What a template writes for the placeholders that it names.
pub open spec fn value_views(values: Seq<(&str, String)>) -> Seq<(Seq<char>, Seq<char>)> {
    values.map_values(|e: (&str, String)| (e.0@, e.1@))
}

/// A text after one pass over the placeholders, in order.
pub open spec fn substituted(s: Seq<char>, values: Seq<(Seq<char>, Seq<char>)>) -> Seq<char>
    decreases values.len(),
{
    if values.len() == 0 {
        s
    } else {
        let before = substituted(s, values.drop_last());
        if search::occurs(before, values.last().0) {
            search::replaced(before, values.last().0, values.last().1)
        } else {
            before
        }
    }
}

/// A text after passes over the placeholders: at most so many, and none once a
/// pass has changed nothing.
pub open spec fn expanded(
    s: Seq<char>,
    values: Seq<(Seq<char>, Seq<char>)>,
    passes: nat,
) -> Seq<char>
    decreases passes,
{
    if passes == 0 || substituted(s, values) == s {
        s
    } else {
        expanded(substituted(s, values), values, (passes - 1) as nat)
    }
}

fn substitute(s: &str, values: &[(&str, String)]) -> (r: String)
    ensures
        r@ == substituted(s@, value_views(values@)),
{
    let mut next = s.to_owned();
    let mut i: usize = 0;
    let ghost views = value_views(values@);
    proof {
        assert(views.take(0) =~= seq![]);
    }
    while i < values.len()
        invariant
            i <= values@.len(),
            views == value_views(values@),
            next@ == substituted(s@, views.take(i as int)),
        decreases values@.len() - i,
    {
        proof {
            assert(views.take(i + 1).drop_last() =~= views.take(i as int));
            assert(views.take(i + 1).last() == (values@[i as int].0@, values@[i as int].1@));
        }
        if contains(next.as_str(), values[i].0) {
            next = replace(next.as_str(), values[i].0, values[i].1.as_str());
        }
        i += 1;
    }
    proof {
        assert(views.take(views.len() as int) =~= views);
    }
    next
}

/// A template with what its placeholders stand for. What they stand for may
/// name placeholders again, up to eight levels deep.
pub fn expand_placeholders(raw: &str, context: &[(&str, String)]) -> (r: String)
    ensures
        r@ == expanded(raw@, value_views(context@), TEMPLATE_MAX_PASSES as nat),
{
    let mut current = raw.to_owned();
    let mut pass: usize = 0;
    let ghost views = value_views(context@);
    while pass < TEMPLATE_MAX_PASSES
        invariant
            pass <= TEMPLATE_MAX_PASSES,
            views == value_views(context@),
            expanded(raw@, views, TEMPLATE_MAX_PASSES as nat) == expanded(
                current@,
                views,
                (TEMPLATE_MAX_PASSES - pass) as nat,
            ),
        decreases TEMPLATE_MAX_PASSES - pass,
    {
        let next = substitute(current.as_str(), context);
        if same(next.as_str(), current.as_str()) {
            return next;
        }
        current = next;
        pass += 1;
    }
    current
}

proof fn lemma_nothing_substituted(s: Seq<char>, values: Seq<(Seq<char>, Seq<char>)>)
    requires
        forall|i: int| 0 <= i < values.len() ==> !search::occurs(s, (#[trigger] values[i]).0),
    ensures
        substituted(s, values) == s,
    decreases values.len(),
{
    if values.len() > 0 {
        assert(values.last() == values[values.len() - 1]);
        assert forall|i: int| 0 <= i < values.drop_last().len() implies !search::occurs(
            s,
            (#[trigger] values.drop_last()[i]).0,
        ) by {
            assert(values.drop_last()[i] == values[i]);
        }
        lemma_nothing_substituted(s, values.drop_last());
    }
}

/// A text that names no placeholder is kept.
pub proof fn plain_texts_are_kept(
    s: Seq<char>,
    values: Seq<(Seq<char>, Seq<char>)>,
    passes: nat,
)
    requires
        forall|i: int| 0 <= i < values.len() ==> !search::occurs(s, (#[trigger] values[i]).0),
    ensures
        expanded(s, values, passes) == s,
{
    lemma_nothing_substituted(s, values);
}

/// What a server is when a notification tells of it. Shares and loads are
/// written with two digits behind the point, and volumes are given both as
/// bytes and in their units.
#[derive(Debug)]
pub struct ServerTemplateContext {
    pub name: String,
    pub ip: String,
    pub ipv4: String,
    pub ipv6: String,
    pub cpu: String,
    pub mem: String,
    pub swap: String,
    pub disk: String,
    pub transfer_in: Volume,
    pub transfer_out: Volume,
    pub net_in_speed: Volume,
    pub net_out_speed: Volume,
    pub load1: String,
    pub load5: String,
    pub load15: String,
}

/// A number of bytes, and how it is written in its unit.
#[derive(Debug)]
pub struct Volume {
    pub bytes: u64,
    pub in_units: String,
}

/// How a text is written where it is put.
#[derive(Debug, Clone, Copy, PartialEq, Eq, Structural)]
pub enum Notation {
    Plain,
    Address,
    Json,
}

/// A text as it is written.
pub open spec fn noted(s: Seq<char>, notation: Notation) -> Seq<char> {
    match notation {
        Notation::Plain => s,
        Notation::Address => encode::percent_text(vstd::utf8::encode_utf8(s), false),
        Notation::Json => jsontext::json_quoted(s).subrange(1, jsontext::json_quoted(s).len() - 1),
    }
}

fn note(s: &str, notation: Notation) -> (r: String)
    ensures
        r@ == noted(s@, notation),
{
    match notation {
        Notation::Plain => s.to_owned(),
        Notation::Address => percent_encode(s),
        Notation::Json => json_escape(s),
    }
}

/// A share in percent as it is written.
pub open spec fn share_text(s: Seq<char>, units: bool) -> Seq<char> {
    if units {
        s + "%"@
    } else {
        s
    }
}

/// A volume as it is written.
pub open spec fn volume_text(v: Volume, units: bool) -> Seq<char> {
    if units {
        v.in_units@
    } else {
        decimal::decimal(v.bytes as nat)
    }
}

/// A speed as it is written.
pub open spec fn speed_text(v: Volume, units: bool) -> Seq<char> {
    if units {
        v.in_units@ + "/s"@
    } else {
        decimal::decimal(v.bytes as nat)
    }
}

/// What the placeholders of a server stand for.
pub open spec fn server_values(
    s: ServerTemplateContext,
    units: bool,
    notation: Notation,
) -> Seq<(Seq<char>, Seq<char>)> {
    seq![
        ("#SERVER.NAME#"@, noted(s.name@, notation)),
        ("#SERVER.IP#"@, noted(s.ip@, notation)),
        ("#SERVER.IPV4#"@, noted(s.ipv4@, notation)),
        ("#SERVER.IPV6#"@, noted(s.ipv6@, notation)),
        ("#SERVER.CPU#"@, noted(share_text(s.cpu@, units), notation)),
        ("#SERVER.MEM#"@, noted(share_text(s.mem@, units), notation)),
        ("#SERVER.SWAP#"@, noted(share_text(s.swap@, units), notation)),
        ("#SERVER.DISK#"@, noted(share_text(s.disk@, units), notation)),
        ("#SERVER.TRANSFERIN#"@, noted(volume_text(s.transfer_in, units), notation)),
        ("#SERVER.TRANSFEROUT#"@, noted(volume_text(s.transfer_out, units), notation)),
        ("#SERVER.NETINSPEED#"@, noted(speed_text(s.net_in_speed, units), notation)),
        ("#SERVER.NETOUTSPEED#"@, noted(speed_text(s.net_out_speed, units), notation)),
        ("#SERVER.LOAD1#"@, noted(s.load1@, notation)),
        ("#SERVER.LOAD5#"@, noted(s.load5@, notation)),
        ("#SERVER.LOAD15#"@, noted(s.load15@, notation)),
    ]
}

fn show_share(s: &str, units: bool) -> (r: String)
    ensures
        r@ == share_text(s@, units),
{
    if units {
        concat2(s, "%")
    } else {
        s.to_owned()
    }
}

fn show_volume(v: &Volume, units: bool) -> (r: String)
    ensures
        r@ == volume_text(*v, units),
{
    if units {
        v.in_units.as_str().to_owned()
    } else {
        to_decimal(v.bytes)
    }
}

fn show_speed(v: &Volume, units: bool) -> (r: String)
    ensures
        r@ == speed_text(*v, units),
{
    if units {
        concat2(v.in_units.as_str(), "/s")
    } else {
        to_decimal(v.bytes)
    }
}

fn put<'a>(values: &mut Vec<(&'a str, String)>, name: &'a str, value: &str, notation: Notation)
    ensures
        value_views(final(values)@) == value_views(old(values)@).push(
            (name@, noted(value@, notation)),
        ),
{
    let ghost before = values@;
    values.push((name, note(value, notation)));
    proof {
        assert(value_views(values@) =~= value_views(before).push((name@, noted(value@, notation))));
    }
}

/// Puts what the placeholders of a server stand for behind other values.
fn server_template_values(
    values: &mut Vec<(&str, String)>,
    server: &ServerTemplateContext,
    units: bool,
    notation: Notation,
)
    ensures
        value_views(final(values)@) == value_views(old(values)@) + server_values(
            *server,
            units,
            notation,
        ),
{
    let cpu = show_share(server.cpu.as_str(), units);
    let mem = show_share(server.mem.as_str(), units);
    let swap = show_share(server.swap.as_str(), units);
    let disk = show_share(server.disk.as_str(), units);
    let transfer_in = show_volume(&server.transfer_in, units);
    let transfer_out = show_volume(&server.transfer_out, units);
    let net_in = show_speed(&server.net_in_speed, units);
    let net_out = show_speed(&server.net_out_speed, units);
    put(values, "#SERVER.NAME#", server.name.as_str(), notation);
    put(values, "#SERVER.IP#", server.ip.as_str(), notation);
    put(values, "#SERVER.IPV4#", server.ipv4.as_str(), notation);
    put(values, "#SERVER.IPV6#", server.ipv6.as_str(), notation);
    put(values, "#SERVER.CPU#", cpu.as_str(), notation);
    put(values, "#SERVER.MEM#", mem.as_str(), notation);
    put(values, "#SERVER.SWAP#", swap.as_str(), notation);
    put(values, "#SERVER.DISK#", disk.as_str(), notation);
    put(values, "#SERVER.TRANSFERIN#", transfer_in.as_str(), notation);
    put(values, "#SERVER.TRANSFEROUT#", transfer_out.as_str(), notation);
    put(values, "#SERVER.NETINSPEED#", net_in.as_str(), notation);
    put(values, "#SERVER.NETOUTSPEED#", net_out.as_str(), notation);
    put(values, "#SERVER.LOAD1#", server.load1.as_str(), notation);
    put(values, "#SERVER.LOAD5#", server.load5.as_str(), notation);
    put(values, "#SERVER.LOAD15#", server.load15.as_str(), notation);
    proof {
        assert(value_views(values@) =~= value_views(old(values)@) + server_values(
            *server,
            units,
            notation,
        ));
    }
}

/// What the placeholders of a notification stand for.
pub open spec fn template_values(
    message: Seq<char>,
    now: Seq<char>,
    server: Option<&ServerTemplateContext>,
    units: bool,
    notation: Notation,
) -> Seq<(Seq<char>, Seq<char>)> {
    let general = seq![
        ("#NEZHA#"@, noted(message, notation)),
        ("#DATETIME#"@, noted(now, notation)),
    ];
    match server {
        Some(s) => general + server_values(*s, units, notation),
        None => general,
    }
}

/// A template as it is sent.
pub open spec fn rendered(
    raw: Seq<char>,
    message: Seq<char>,
    now: Seq<char>,
    server: Option<&ServerTemplateContext>,
    units: bool,
    notation: Notation,
) -> Seq<char> {
    expanded(
        raw,
        template_values(message, now, server, units, notation),
        TEMPLATE_MAX_PASSES as nat,
    )
}

/// A template as it is sent at the time `now`.
pub fn render_template_at(
    raw: &str,
    message: &str,
    now: &str,
    server: Option<&ServerTemplateContext>,
    format_metric_units: bool,
    notation: Notation,
) -> (r: String)
    ensures
        r@ == rendered(raw@, message@, now@, server, format_metric_units, notation),
{
    let mut values: Vec<(&str, String)> = Vec::new();
    put(&mut values, "#NEZHA#", message, notation);
    put(&mut values, "#DATETIME#", now, notation);
    proof {
        assert(value_views(values@) =~= seq![
            ("#NEZHA#"@, noted(message@, notation)),
            ("#DATETIME#"@, noted(now@, notation)),
        ]);
    }
    if let Some(s) = server {
        server_template_values(&mut values, s, format_metric_units, notation);
    }
    expand_placeholders(raw, &values)
}

/// A template as it is sent now.
pub fn render_template(
    raw: &str,
    message: &str,
    server: Option<&ServerTemplateContext>,
    format_metric_units: bool,
    notation: Notation,
) -> (r: String)
    ensures
        exists|now: Seq<char>|
            clock::is_time_text(now) && r@ == #[trigger] rendered(
                raw@,
                message@,
                now,
                server,
                format_metric_units,
                notation,
            ),
{
    let now = utc_now_text();
    let r = render_template_at(raw, message, now.as_str(), server, format_metric_units, notation);
    proof {
        assert(r@ == rendered(raw@, message@, now@, server, format_metric_units, notation));
    }
    r
}

/// An address in its normal form: its scheme, its host, its port or that of the
/// scheme, and all of it; by the crate `url`.
pub uninterp spec fn url_parts(text: Seq<char>) -> Option<
    (Seq<char>, Option<Seq<char>>, Option<u16>, Seq<char>),
>;

/// An address in its normal form.
#[derive(Debug)]
pub struct NotificationUrl {
    pub scheme: String,
    pub host: Option<String>,
    pub port: Option<u16>,
    pub text: String,
}

pub open spec fn text_opt(s: Option<String>) -> Option<Seq<char>> {
    match s {
        Some(s) => Some(s@),
        None => None,
    }
}

impl View for NotificationUrl {
    type V = (Seq<char>, Option<Seq<char>>, Option<u16>, Seq<char>);

    open spec fn view(&self) -> Self::V {
        (self.scheme@, text_opt(self.host), self.port, self.text@)
    }
}

impl NotificationUrl {
    /// The whole address.
    pub fn as_str(&self) -> (r: &str)
        ensures
            r@ == self@.3,
    {
        self.text.as_str()
    }
}

/// Calls `reqwest::Url::parse`, and `scheme`, `host_str`, `port_or_known_default`
/// and `as_str` of the address that it gives, or tells that it gives none.
#[verifier::external_body]
fn url_parse(text: &str) -> (r: Option<NotificationUrl>)
    ensures
        match r {
            Some(u) => url_parts(text@) == Some(u@),
            None => url_parts(text@) is None,
        },
{
    let url = reqwest::Url::parse(text).ok()?;
    Some(
        NotificationUrl {
            scheme: url.scheme().to_owned(),
            host: url.host_str().map(|host| host.to_owned()),
            port: url.port_or_known_default(),
            text: url.as_str().to_owned(),
        },
    )
}

/// The address that a text writes.
pub open spec fn is_url(r: Result<NotificationUrl, NotificationError>, text: Seq<char>) -> bool {
    match r {
        Ok(u) => url_parts(text) == Some(u@),
        Err(e) => url_parts(text) is None && e == NotificationError::InvalidUrl,
    }
}

/// The address that a text writes.
pub fn parse_url(text: &str) -> (r: Result<NotificationUrl, NotificationError>)
    ensures
        is_url(r, text@),
{
    match url_parse(text) {
        Some(u) => Ok(u),
        None => Err(NotificationError::InvalidUrl),
    }
}

/// The address that a notification is sent to now.
pub fn render_template_url(
    raw: &str,
    message: &str,
    server: Option<&ServerTemplateContext>,
    format_metric_units: bool,
) -> (r: Result<NotificationUrl, NotificationError>)
    ensures
        exists|now: Seq<char>|
            clock::is_time_text(now) && is_url(
                r,
                #[trigger] rendered(
                    raw@,
                    message@,
                    now,
                    server,
                    format_metric_units,
                    Notation::Address,
                ),
            ),
{
    let text = render_template(raw, message, server, format_metric_units, Notation::Address);
    parse_url(text.as_str())
}

/// Where a notification goes: to an address that stands in its target, or to those
/// of a name.
#[derive(Debug)]
pub enum Target {
    Address,
    Name { host: String, port: u16 },
}

/// Whether a notification may go to `url`, `literal` being the address that its host
/// writes, if it is one.
pub open spec fn may_go_to(url: NotificationUrl, literal: Option<IpBits>) -> bool {
    (url.scheme@ == "http"@ || url.scheme@ == "https"@) && url.host is Some && (
    literal matches Some(ip) ==> ip::is_open(ip))
}

/// Where a notification to `url` goes, `literal` being the address that its host
/// writes, if it is one.
pub fn notification_target(url: &NotificationUrl, literal: Option<IpBits>) -> (r: Result<
    Target,
    NotificationError,
>)
    ensures
        ({
            let allowed = may_go_to(*url, literal);
            match r {
                Ok(Target::Address) => allowed && literal is Some,
                Ok(Target::Name { host, port }) => allowed && literal is None && host@
                    == url.host->0@ && port == json::or_else(url.port, 80),
                Err(e) => !allowed && e == NotificationError::TargetNotAllowed,
            }
        }),
{
    match scheme_allowed(url.scheme.as_str()) {
        Ok(_) => {},
        Err(e) => {
            return Err(e);
        },
    }
    match &url.host {
        Some(host) => match literal {
            Some(ip) => match ensure_allowed_notification_ip(ip) {
                Ok(_) => Ok(Target::Address),
                Err(e) => Err(e),
            },
            None => {
                let port: u16 = match url.port {
                    Some(port) => port,
                    None => 80,
                };
                Ok(Target::Name { host: host.as_str().to_owned(), port })
            },
        },
        None => Err(NotificationError::TargetNotAllowed),
    }
}

/// A plain text that is sent now.
pub fn render_template_plain(
    raw: &str,
    message: &str,
    server: Option<&ServerTemplateContext>,
    format_metric_units: bool,
) -> (r: String)
    ensures
        exists|now: Seq<char>|
            clock::is_time_text(now) && r@ == #[trigger] rendered(
                raw@,
                message@,
                now,
                server,
                format_metric_units,
                Notation::Plain,
            ),
{
    render_template(raw, message, server, format_metric_units, Notation::Plain)
}

/// A text in JSON notation that is sent now.
pub fn render_template_json_string(
    raw: &str,
    message: &str,
    server: Option<&ServerTemplateContext>,
    format_metric_units: bool,
) -> (r: String)
    ensures
        exists|now: Seq<char>|
            clock::is_time_text(now) && r@ == #[trigger] rendered(
                raw@,
                message@,
                now,
                server,
                format_metric_units,
                Notation::Json,
            ),
{
    render_template(raw, message, server, format_metric_units, Notation::Json)
}

/// By which method a notification is sent.
pub open spec fn method_of(method: u8) -> Result<RequestMethod, NotificationError> {
    if method == REQUEST_METHOD_GET {
        Ok(RequestMethod::Get)
    } else if method == REQUEST_METHOD_POST {
        Ok(RequestMethod::Post)
    } else {
        Err(NotificationError::UnsupportedMethod)
    }
}

/// By which method a notification is sent.
pub fn request_method(method: u8) -> (r: Result<RequestMethod, NotificationError>)
    ensures
        r == method_of(method),
{
    if method == REQUEST_METHOD_GET {
        Ok(RequestMethod::Get)
    } else if method == REQUEST_METHOD_POST {
        Ok(RequestMethod::Post)
    } else {
        Err(NotificationError::UnsupportedMethod)
    }
}

/// Whether volumes are written in their units.
pub open spec fn wants_units(n: NotificationResource) -> bool {
    n.format_metric_units == Some(true)
}

pub open spec fn map_error(e: MapError) -> NotificationError {
    match e {
        MapError::NotJson => NotificationError::NotJson,
        MapError::NotObject => NotificationError::NotObject,
    }
}

fn string_map(raw: &str) -> (r: Result<Vec<(String, String)>, NotificationError>)
    ensures
        match jsontext::string_map_of(raw@) {
            Ok(pairs) => r is Ok && jsontext::pair_texts(r->Ok_0@) == pairs,
            Err(e) => r == Err::<Vec<(String, String)>, NotificationError>(map_error(e)),
        },
{
    match json_string_map(raw) {
        Ok(v) => Ok(v),
        Err(MapError::NotJson) => Err(NotificationError::NotJson),
        Err(MapError::NotObject) => Err(NotificationError::NotObject),
    }
}

/// The fields of a form as they are sent.
pub open spec fn sent_fields(
    fields: Seq<(Seq<char>, Seq<char>)>,
    message: Seq<char>,
    now: Seq<char>,
    server: Option<&ServerTemplateContext>,
    units: bool,
) -> Seq<Seq<char>> {
    fields.map_values(
        |e: (Seq<char>, Seq<char>)|
            noted(e.0, Notation::Address) + "="@ + noted(
                rendered(e.1, message, now, server, units, Notation::Plain),
                Notation::Address,
            ),
    )
}

/// The fields of a form, filled in at the time `now`.
pub fn form_body(
    fields: &Vec<(String, String)>,
    message: &str,
    now: &str,
    server: Option<&ServerTemplateContext>,
    units: bool,
) -> (r: String)
    ensures
        r@ == search::joined(
            sent_fields(jsontext::pair_texts(fields@), message@, now@, server, units),
            "&"@,
        ),
{
    let ghost goal = sent_fields(jsontext::pair_texts(fields@), message@, now@, server, units);
    let mut sent: Vec<String> = Vec::new();
    let mut i: usize = 0;
    proof {
        assert(search::texts(sent@) =~= goal.take(0));
    }
    while i < fields.len()
        invariant
            i <= fields@.len(),
            goal == sent_fields(jsontext::pair_texts(fields@), message@, now@, server, units),
            search::texts(sent@) == goal.take(i as int),
        decreases fields@.len() - i,
    {
        let value = render_template_at(
            fields[i].1.as_str(),
            message,
            now,
            server,
            units,
            Notation::Plain,
        );
        let mut field = percent_encode(fields[i].0.as_str());
        field.append("=");
        let encoded = percent_encode(value.as_str());
        field.append(encoded.as_str());
        proof {
            assert(jsontext::pair_texts(fields@)[i as int]
                == (fields@[i as int].0@, fields@[i as int].1@));
            assert(goal[i as int] == field@);
            search::lemma_texts_push(sent@, field);
            assert(goal.take(i + 1) =~= goal.take(i as int).push(field@));
        }
        sent.push(field);
        i += 1;
    }
    proof {
        assert(goal.take(goal.len() as int) =~= goal);
    }
    join(&sent, "&")
}

/// What the body of a notification is. A request of the method GET and one
/// without a message have none.
pub open spec fn body_sent(
    n: NotificationResource,
    message: Seq<char>,
    now: Seq<char>,
    server: Option<&ServerTemplateContext>,
) -> Result<Option<Seq<char>>, NotificationError> {
    if n.request_method == REQUEST_METHOD_GET || message.len() == 0 {
        Ok(None)
    } else if n.request_type == REQUEST_TYPE_JSON {
        Ok(
            Some(
                rendered(n.request_body@, message, now, server, wants_units(n), Notation::Json),
            ),
        )
    } else if n.request_type == REQUEST_TYPE_FORM {
        match jsontext::string_map_of(n.request_body@) {
            Ok(fields) => Ok(
                Some(search::joined(sent_fields(fields, message, now, server, wants_units(n)), "&"@)),
            ),
            Err(e) => Err(map_error(e)),
        }
    } else {
        Err(NotificationError::UnsupportedType)
    }
}

/// Whether a result is one with these texts.
pub open spec fn is_body(
    r: Result<Option<String>, NotificationError>,
    body: Result<Option<Seq<char>>, NotificationError>,
) -> bool {
    match (r, body) {
        (Ok(Some(s)), Ok(Some(t))) => s@ == t,
        (Ok(None), Ok(None)) => true,
        (Err(a), Err(b)) => a == b,
        _ => false,
    }
}

/// The body of a notification at the time `now`.
pub fn request_body_at(
    notification: &NotificationResource,
    message: &str,
    now: &str,
    server: Option<&ServerTemplateContext>,
) -> (r: Result<Option<String>, NotificationError>)
    ensures
        is_body(r, body_sent(*notification, message@, now@, server)),
{
    if notification.request_method == REQUEST_METHOD_GET || message.is_empty() {
        return Ok(None);
    }
    let units: bool = notification.format_metric_units.unwrap_or(false);
    if notification.request_type == REQUEST_TYPE_JSON {
        return Ok(
            Some(
                render_template_at(
                    notification.request_body.as_str(),
                    message,
                    now,
                    server,
                    units,
                    Notation::Json,
                ),
            ),
        );
    }
    if notification.request_type != REQUEST_TYPE_FORM {
        return Err(NotificationError::UnsupportedType);
    }
    let fields = match string_map(notification.request_body.as_str()) {
        Ok(v) => v,
        Err(e) => {
            return Err(e);
        },
    };
    Ok(Some(form_body(&fields, message, now, server, units)))
}

/// The body of a notification now.
pub fn request_body(
    notification: &NotificationResource,
    message: &str,
    server: Option<&ServerTemplateContext>,
) -> (r: Result<Option<String>, NotificationError>)
    ensures
        exists|now: Seq<char>|
            clock::is_time_text(now) && is_body(
                r,
                #[trigger] body_sent(*notification, message@, now, server),
            ),
{
    let now = utc_now_text();
    let r = request_body_at(notification, message, now.as_str(), server);
    proof {
        assert(is_body(r, body_sent(*notification, message@, now@, server)));
    }
    r
}

/// The kind of content that the body of a notification is.
pub open spec fn type_of_body(request_type: u8) -> Seq<char> {
    if request_type == REQUEST_TYPE_FORM {
        "application/x-www-form-urlencoded"@
    } else {
        "application/json"@
    }
}

/// The kind of content that the body of a notification is.
pub fn body_type(request_type: u8) -> (r: &'static str)
    ensures
        r@ == type_of_body(request_type),
{
    if request_type == REQUEST_TYPE_FORM {
        "application/x-www-form-urlencoded"
    } else {
        "application/json"
    }
}

/// The headers of a notification as they are sent.
pub open spec fn sent_headers(
    headers: Seq<(Seq<char>, Seq<char>)>,
    message: Seq<char>,
    now: Seq<char>,
    server: Option<&ServerTemplateContext>,
    units: bool,
) -> Seq<(Seq<char>, Seq<char>)> {
    headers.map_values(
        |e: (Seq<char>, Seq<char>)|
            (e.0, rendered(e.1, message, now, server, units, Notation::Plain)),
    )
}

/// Headers, filled in at the time `now`.
pub fn filled_headers(
    headers: &Vec<(String, String)>,
    message: &str,
    now: &str,
    server: Option<&ServerTemplateContext>,
    units: bool,
) -> (r: Vec<(String, String)>)
    ensures
        jsontext::pair_texts(r@) == sent_headers(
            jsontext::pair_texts(headers@),
            message@,
            now@,
            server,
            units,
        ),
{
    let mut out: Vec<(String, String)> = Vec::new();
    let ghost goal = sent_headers(jsontext::pair_texts(headers@), message@, now@, server, units);
    let mut i: usize = 0;
    proof {
        assert(jsontext::pair_texts(out@) =~= goal.take(0));
    }
    while i < headers.len()
        invariant
            i <= headers@.len(),
            goal == sent_headers(jsontext::pair_texts(headers@), message@, now@, server, units),
            jsontext::pair_texts(out@) == goal.take(i as int),
        decreases headers@.len() - i,
    {
        let ghost before = out@;
        let value = render_template_at(
            headers[i].1.as_str(),
            message,
            now,
            server,
            units,
            Notation::Plain,
        );
        let name = headers[i].0.as_str().to_owned();
        proof {
            assert(jsontext::pair_texts(headers@)[i as int] == (
                headers@[i as int].0@,
                headers@[i as int].1@,
            ));
            assert(goal[i as int] == (name@, value@));
            assert(goal.take(i + 1) =~= goal.take(i as int).push((name@, value@)));
        }
        out.push((name, value));
        proof {
            assert(jsontext::pair_texts(out@)
                =~= jsontext::pair_texts(before).push((name@, value@)));
        }
        i += 1;
    }
    proof {
        assert(goal.take(goal.len() as int) =~= goal);
    }
    out
}

/// What the headers of a notification are.
pub open spec fn headers_sent(
    n: NotificationResource,
    message: Seq<char>,
    now: Seq<char>,
    server: Option<&ServerTemplateContext>,
) -> Result<Seq<(Seq<char>, Seq<char>)>, NotificationError> {
    if text::trimmed(n.request_header@).len() == 0 {
        Ok(seq![])
    } else {
        match jsontext::string_map_of(n.request_header@) {
            Ok(headers) => Ok(sent_headers(headers, message, now, server, wants_units(n))),
            Err(e) => Err(map_error(e)),
        }
    }
}

pub open spec fn are_headers(
    r: Result<Vec<(String, String)>, NotificationError>,
    headers: Result<Seq<(Seq<char>, Seq<char>)>, NotificationError>,
) -> bool {
    match (r, headers) {
        (Ok(v), Ok(h)) => jsontext::pair_texts(v@) == h,
        (Err(a), Err(b)) => a == b,
        _ => false,
    }
}

/// The headers of a notification at the time `now`.
pub fn request_headers_at(
    notification: &NotificationResource,
    message: &str,
    now: &str,
    server: Option<&ServerTemplateContext>,
) -> (r: Result<Vec<(String, String)>, NotificationError>)
    ensures
        are_headers(r, headers_sent(*notification, message@, now@, server)),
{
    let raw = trim(notification.request_header.as_str());
    if raw.as_str().is_empty() {
        let none: Vec<(String, String)> = Vec::new();
        proof {
            assert(jsontext::pair_texts(none@) =~= seq![]);
        }
        return Ok(none);
    }
    let units: bool = notification.format_metric_units.unwrap_or(false);
    let headers = match string_map(notification.request_header.as_str()) {
        Ok(v) => v,
        Err(e) => {
            return Err(e);
        },
    };
    Ok(filled_headers(&headers, message, now, server, units))
}

/// The headers of a notification now.
pub fn request_headers(
    notification: &NotificationResource,
    message: &str,
    server: Option<&ServerTemplateContext>,
) -> (r: Result<Vec<(String, String)>, NotificationError>)
    ensures
        exists|now: Seq<char>|
            clock::is_time_text(now) && are_headers(
                r,
                #[trigger] headers_sent(*notification, message@, now, server),
            ),
{
    let now = utc_now_text();
    let r = request_headers_at(notification, message, now.as_str(), server);
    proof {
        assert(are_headers(r, headers_sent(*notification, message@, now@, server)));
    }
    r
}

/// Whether a notification may go to an address at all.
pub fn scheme_allowed(scheme: &str) -> (r: Result<(), NotificationError>)
    ensures
        r == if scheme@ == "http"@ || scheme@ == "https"@ {
            Ok::<(), NotificationError>(())
        } else {
            Err(NotificationError::TargetNotAllowed)
        },
{
    if same(scheme, "http") || same(scheme, "https") {
        Ok(())
    } else {
        Err(NotificationError::TargetNotAllowed)
    }
}

/// Refuses an address that is not on the open internet.
pub fn ensure_allowed_notification_ip(ip: IpBits) -> (r: Result<(), NotificationError>)
    ensures
        r == if ip::is_open(ip) {
            Ok::<(), NotificationError>(())
        } else {
            Err(NotificationError::TargetNotAllowed)
        },
{
    if notification_ip_allowed(ip) {
        Ok(())
    } else {
        Err(NotificationError::TargetNotAllowed)
    }
}

/// How long to wait after the attempt with the number `attempt`, from zero on, has
/// failed, in milliseconds.
pub open spec fn wait_after(attempt: u32) -> Option<u64> {
    if attempt + 1 < NOTIFICATION_MAX_ATTEMPTS {
        if attempt == 0 {
            Some(1000)
        } else {
            Some(2000)
        }
    } else {
        None
    }
}

/// How long to wait after the attempt with the number `attempt`, from zero on,
/// has failed, in milliseconds. After the last one there is nothing to wait for.
pub fn retry_delay(attempt: u32) -> (r: Option<u64>)
    ensures
        r == wait_after(attempt),
{
    if attempt >= NOTIFICATION_MAX_ATTEMPTS - 1 {
        None
    } else if attempt == 0 {
        Some(1000)
    } else {
        Some(2000)
    }
}

/// A notification that could not be sent.
#[derive(Debug)]
pub struct DeadLetter {
    pub notification_id: u64,
    pub message: String,
    pub error: String,
    pub attempts: u32,
}

pub struct DeadLetterView {
    pub notification_id: u64,
    pub message: Seq<char>,
    pub error: Seq<char>,
    pub attempts: u32,
}

pub open spec fn letter_views(v: Seq<DeadLetter>) -> Seq<DeadLetterView> {
    v.map_values(
        |d: DeadLetter|
            DeadLetterView {
                notification_id: d.notification_id,
                message: d.message@,
                error: d.error@,
                attempts: d.attempts,
            },
    )
}

/// The notifications that could not be sent.
pub open spec fn failures(results: Seq<(u64, Result<(), String>)>, message: Seq<char>) -> Seq<
    DeadLetterView,
>
    decreases results.len(),
{
    if results.len() == 0 {
        seq![]
    } else {
        let before = failures(results.drop_last(), message);
        match results.last().1 {
            Ok(()) => before,
            Err(e) => before.push(
                DeadLetterView {
                    notification_id: results.last().0,
                    message,
                    error: e@,
                    attempts: NOTIFICATION_MAX_ATTEMPTS,
                },
            ),
        }
    }
}

/// What is kept of the notifications that could not be sent.
pub fn record_dead_letters(message: &str, results: &[(u64, Result<(), String>)]) -> (r: Vec<
    DeadLetter,
>)
    ensures
        letter_views(r@) == failures(results@, message@),
{
    let mut out: Vec<DeadLetter> = Vec::new();
    let mut i: usize = 0;
    proof {
        assert(results@.take(0) =~= seq![]);
        assert(letter_views(out@) =~= seq![]);
    }
    while i < results.len()
        invariant
            i <= results@.len(),
            letter_views(out@) == failures(results@.take(i as int), message@),
        decreases results@.len() - i,
    {
        let ghost before = out@;
        proof {
            assert(results@.take(i + 1).drop_last() =~= results@.take(i as int));
        }
        match &results[i].1 {
            Ok(()) => {},
            Err(e) => {
                let letter = DeadLetter {
                    notification_id: results[i].0,
                    message: message.to_owned(),
                    error: e.as_str().to_owned(),
                    attempts: NOTIFICATION_MAX_ATTEMPTS,
                };
                out.push(letter);
                proof {
                    assert(letter_views(out@) =~= letter_views(before).push(
                        DeadLetterView {
                            notification_id: letter.notification_id,
                            message: letter.message@,
                            error: letter.error@,
                            attempts: letter.attempts,
                        },
                    ));
                }
            },
        }
        i += 1;
    }
    proof {
        assert(results@.take(results@.len() as int) =~= results@);
    }
    out
}

proof fn lemma_marks()
    ensures
        search::is_mark("#NEZHA#"@) && "#NEZHA#"@.len() == 7,
        search::is_mark("#DATETIME#"@) && "#DATETIME#"@.len() == 10,
        search::is_mark("#SERVER.NAME#"@) && "#SERVER.NAME#"@.len() == 13 && "#SERVER.NAME#"@[8] == 'N' && "#SERVER.NAME#"@[11] == 'E',
        search::is_mark("#SERVER.IP#"@) && "#SERVER.IP#"@.len() == 11 && "#SERVER.IP#"@[8] == 'I',
        search::is_mark("#SERVER.IPV4#"@) && "#SERVER.IPV4#"@.len() == 13 && "#SERVER.IPV4#"@[8] == 'I' && "#SERVER.IPV4#"@[11] == '4',
        search::is_mark("#SERVER.IPV6#"@) && "#SERVER.IPV6#"@.len() == 13 && "#SERVER.IPV6#"@[8] == 'I' && "#SERVER.IPV6#"@[11] == '6',
        search::is_mark("#SERVER.CPU#"@) && "#SERVER.CPU#"@.len() == 12 && "#SERVER.CPU#"@[8] == 'C',
        search::is_mark("#SERVER.MEM#"@) && "#SERVER.MEM#"@.len() == 12 && "#SERVER.MEM#"@[8] == 'M',
        search::is_mark("#SERVER.SWAP#"@) && "#SERVER.SWAP#"@.len() == 13 && "#SERVER.SWAP#"@[8] == 'S' && "#SERVER.SWAP#"@[11] == 'P',
        search::is_mark("#SERVER.DISK#"@) && "#SERVER.DISK#"@.len() == 13 && "#SERVER.DISK#"@[8] == 'D' && "#SERVER.DISK#"@[11] == 'K',
        search::is_mark("#SERVER.TRANSFERIN#"@) && "#SERVER.TRANSFERIN#"@.len() == 19 && "#SERVER.TRANSFERIN#"@[8] == 'T',
        search::is_mark("#SERVER.TRANSFEROUT#"@) && "#SERVER.TRANSFEROUT#"@.len() == 20 && "#SERVER.TRANSFEROUT#"@[8] == 'T',
        search::is_mark("#SERVER.NETINSPEED#"@) && "#SERVER.NETINSPEED#"@.len() == 19 && "#SERVER.NETINSPEED#"@[8] == 'N',
        search::is_mark("#SERVER.NETOUTSPEED#"@) && "#SERVER.NETOUTSPEED#"@.len() == 20 && "#SERVER.NETOUTSPEED#"@[8] == 'N',
        search::is_mark("#SERVER.LOAD1#"@) && "#SERVER.LOAD1#"@.len() == 14 && "#SERVER.LOAD1#"@[8] == 'L' && "#SERVER.LOAD1#"@[11] == 'D' && "#SERVER.LOAD1#"@[12] == '1',
        search::is_mark("#SERVER.LOAD5#"@) && "#SERVER.LOAD5#"@.len() == 14 && "#SERVER.LOAD5#"@[8] == 'L' && "#SERVER.LOAD5#"@[11] == 'D' && "#SERVER.LOAD5#"@[12] == '5',
        search::is_mark("#SERVER.LOAD15#"@) && "#SERVER.LOAD15#"@.len() == 15 && "#SERVER.LOAD15#"@[8] == 'L',
{
    reveal_strlit("#NEZHA#");
    reveal_strlit("#DATETIME#");
    reveal_strlit("#SERVER.NAME#");
    reveal_strlit("#SERVER.IP#");
    reveal_strlit("#SERVER.IPV4#");
    reveal_strlit("#SERVER.IPV6#");
    reveal_strlit("#SERVER.CPU#");
    reveal_strlit("#SERVER.MEM#");
    reveal_strlit("#SERVER.SWAP#");
    reveal_strlit("#SERVER.DISK#");
    reveal_strlit("#SERVER.TRANSFERIN#");
    reveal_strlit("#SERVER.TRANSFEROUT#");
    reveal_strlit("#SERVER.NETINSPEED#");
    reveal_strlit("#SERVER.NETOUTSPEED#");
    reveal_strlit("#SERVER.LOAD1#");
    reveal_strlit("#SERVER.LOAD5#");
    reveal_strlit("#SERVER.LOAD15#");
}

proof fn lemma_passed_over(
    s: Seq<char>,
    values: Seq<(Seq<char>, Seq<char>)>,
    k: int,
    a: Seq<char>,
    b: Seq<char>,
)
    requires
        0 <= k < values.len(),
        s == a + values[k].0 + b,
        search::has_no_hash(a),
        search::has_no_hash(b),
        search::has_no_hash(values[k].1),
        forall|j: int| 0 <= j < values.len() ==> search::is_mark((#[trigger] values[j]).0),
        forall|j: int| 0 <= j < k ==> (#[trigger] values[j]).0 != values[k].0,
    ensures
        substituted(s, values) == a + values[k].1 + b,
        forall|j: int|
            0 <= j < values.len() ==> !search::occurs(
                a + values[k].1 + b,
                (#[trigger] values[j]).0,
            ),
    decreases values.len(),
{
    let done = a + values[k].1 + b;
    assert(search::has_no_hash(done)) by {
        assert forall|i: int| 0 <= i < done.len() implies #[trigger] done[i] != '#' by {
            if i < a.len() {
                assert(done[i] == a[i]);
            } else if i < a.len() + values[k].1.len() {
                assert(done[i] == values[k].1[i - a.len()]);
            } else {
                assert(done[i] == b[i - a.len() - values[k].1.len()]);
            }
        }
    }
    assert forall|j: int| 0 <= j < values.len() implies !search::occurs(
        done,
        (#[trigger] values[j]).0,
    ) by {
        search::lemma_no_mark_in(done, values[j].0, seq![]);
    }
    let front = values.drop_last();
    assert forall|j: int| 0 <= j < front.len() implies search::is_mark(
        (#[trigger] front[j]).0,
    ) by {
        assert(front[j] == values[j]);
    }
    if k < front.len() {
        assert forall|j: int| 0 <= j < k implies (#[trigger] front[j]).0 != front[k].0 by {
            assert(front[j] == values[j]);
        }
        lemma_passed_over(s, front, k, a, b);
        assert(!search::occurs(done, values[values.len() - 1].0));
    } else {
        assert forall|j: int| 0 <= j < front.len() implies !search::occurs(
            s,
            (#[trigger] front[j]).0,
        ) by {
            assert(front[j] == values[j]);
            search::one_mark_is_no_other(a, values[k].0, b, values[j].0);
        }
        lemma_nothing_substituted(s, front);
        search::lemma_mark_is_filled(a, values[k].0, b, values[k].1);
    }
}

proof fn lemma_filled_in(
    a: Seq<char>,
    b: Seq<char>,
    values: Seq<(Seq<char>, Seq<char>)>,
    k: int,
    passes: nat,
)
    requires
        0 <= k < values.len(),
        passes >= 2,
        search::has_no_hash(a),
        search::has_no_hash(b),
        search::has_no_hash(values[k].1),
        forall|j: int| 0 <= j < values.len() ==> search::is_mark((#[trigger] values[j]).0),
        forall|j: int| 0 <= j < k ==> (#[trigger] values[j]).0 != values[k].0,
    ensures
        expanded(a + values[k].0 + b, values, passes) == a + values[k].1 + b,
{
    let s = a + values[k].0 + b;
    let done = a + values[k].1 + b;
    lemma_passed_over(s, values, k, a, b);
    plain_texts_are_kept(done, values, (passes - 1) as nat);
}

/// A template that names the message or the time writes it there, in the notation of
/// its place, and is otherwise kept.
pub proof fn templates_tell_the_message(
    a: Seq<char>,
    b: Seq<char>,
    message: Seq<char>,
    now: Seq<char>,
    server: Option<&ServerTemplateContext>,
    units: bool,
    notation: Notation,
)
    requires
        search::has_no_hash(a),
        search::has_no_hash(b),
        search::has_no_hash(noted(message, notation)),
        search::has_no_hash(noted(now, notation)),
    ensures
        rendered(a + "#NEZHA#"@ + b, message, now, server, units, notation) == a + noted(
            message,
            notation,
        ) + b,
        rendered(a + "#DATETIME#"@ + b, message, now, server, units, notation) == a + noted(
            now,
            notation,
        ) + b,
        rendered(a, message, now, server, units, notation) == a,
{
    lemma_marks();
    let values = template_values(message, now, server, units, notation);
    lemma_values_are_marks(message, now, server, units, notation);
    assert(values[0].0 == "#NEZHA#"@ && values[1].0 == "#DATETIME#"@);
    lemma_filled_in(a, b, values, 0, 8);
    lemma_filled_in(a, b, values, 1, 8);
    assert forall|j: int| 0 <= j < values.len() implies !search::occurs(
        a,
        (#[trigger] values[j]).0,
    ) by {
        search::lemma_no_mark_in(a, values[j].0, seq![]);
    }
    plain_texts_are_kept(a, values, 8);
}

proof fn lemma_values_are_marks(
    message: Seq<char>,
    now: Seq<char>,
    server: Option<&ServerTemplateContext>,
    units: bool,
    notation: Notation,
)
    ensures
        forall|j: int|
            0 <= j < template_values(message, now, server, units, notation).len()
                ==> search::is_mark(
                (#[trigger] template_values(message, now, server, units, notation)[j]).0,
            ),
{
    lemma_marks();
    let values = template_values(message, now, server, units, notation);
    assert forall|j: int| 0 <= j < values.len() implies search::is_mark(
        (#[trigger] values[j]).0,
    ) by {
        if j >= 2 {
            assert(values[j] == server_values(*server->0, units, notation)[j - 2]);
        }
    }
}

/// A template that names something of a server writes it there: its name and
/// addresses, its loads, its shares, its transfer and its speeds, those of the one
/// direction and of the other.
pub proof fn templates_tell_of_the_server(
    a: Seq<char>,
    b: Seq<char>,
    message: Seq<char>,
    now: Seq<char>,
    s: ServerTemplateContext,
    units: bool,
    mark: Seq<char>,
    value: Seq<char>,
)
    requires
        search::has_no_hash(a),
        search::has_no_hash(b),
        search::has_no_hash(value),
        ({
            ||| mark == "#SERVER.NAME#"@ && value == s.name@
            ||| mark == "#SERVER.IP#"@ && value == s.ip@
            ||| mark == "#SERVER.IPV4#"@ && value == s.ipv4@
            ||| mark == "#SERVER.IPV6#"@ && value == s.ipv6@
            ||| mark == "#SERVER.LOAD1#"@ && value == s.load1@
            ||| mark == "#SERVER.LOAD5#"@ && value == s.load5@
            ||| mark == "#SERVER.LOAD15#"@ && value == s.load15@
            ||| !units && mark == "#SERVER.CPU#"@ && value == s.cpu@
            ||| !units && mark == "#SERVER.MEM#"@ && value == s.mem@
            ||| !units && mark == "#SERVER.SWAP#"@ && value == s.swap@
            ||| !units && mark == "#SERVER.DISK#"@ && value == s.disk@
            ||| units && mark == "#SERVER.CPU#"@ && value == s.cpu@ + "%"@
            ||| units && mark == "#SERVER.MEM#"@ && value == s.mem@ + "%"@
            ||| units && mark == "#SERVER.SWAP#"@ && value == s.swap@ + "%"@
            ||| units && mark == "#SERVER.DISK#"@ && value == s.disk@ + "%"@
            ||| !units && mark == "#SERVER.TRANSFERIN#"@ && value == decimal::decimal(
                s.transfer_in.bytes as nat,
            )
            ||| !units && mark == "#SERVER.TRANSFEROUT#"@ && value == decimal::decimal(
                s.transfer_out.bytes as nat,
            )
            ||| !units && mark == "#SERVER.NETINSPEED#"@ && value == decimal::decimal(
                s.net_in_speed.bytes as nat,
            )
            ||| !units && mark == "#SERVER.NETOUTSPEED#"@ && value == decimal::decimal(
                s.net_out_speed.bytes as nat,
            )
            ||| units && mark == "#SERVER.TRANSFERIN#"@ && value == s.transfer_in.in_units@
            ||| units && mark == "#SERVER.TRANSFEROUT#"@ && value == s.transfer_out.in_units@
            ||| units && mark == "#SERVER.NETINSPEED#"@ && value == s.net_in_speed.in_units@
                + "/s"@
            ||| units && mark == "#SERVER.NETOUTSPEED#"@ && value == s.net_out_speed.in_units@
                + "/s"@
        }),
    ensures
        rendered(a + mark + b, message, now, Some(&s), units, Notation::Plain) == a + value + b,
{
    lemma_marks();
    let values = template_values(message, now, Some(&s), units, Notation::Plain);
    lemma_values_are_marks(message, now, Some(&s), units, Notation::Plain);
    let own = server_values(s, units, Notation::Plain);
    assert forall|j: int| 2 <= j < 17 implies #[trigger] values[j] == own[j - 2] by {}
    let k: int = if mark == "#SERVER.NAME#"@ {
        0
    } else if mark == "#SERVER.IP#"@ {
        1
    } else if mark == "#SERVER.IPV4#"@ {
        2
    } else if mark == "#SERVER.IPV6#"@ {
        3
    } else if mark == "#SERVER.CPU#"@ {
        4
    } else if mark == "#SERVER.MEM#"@ {
        5
    } else if mark == "#SERVER.SWAP#"@ {
        6
    } else if mark == "#SERVER.DISK#"@ {
        7
    } else if mark == "#SERVER.TRANSFERIN#"@ {
        8
    } else if mark == "#SERVER.TRANSFEROUT#"@ {
        9
    } else if mark == "#SERVER.NETINSPEED#"@ {
        10
    } else if mark == "#SERVER.NETOUTSPEED#"@ {
        11
    } else if mark == "#SERVER.LOAD1#"@ {
        12
    } else if mark == "#SERVER.LOAD5#"@ {
        13
    } else {
        14
    };
    assert(own[k].0 == mark);
    assert(own[k].1 == value);
    assert(values[k + 2] == own[k]);
    assert(values[0].0 == "#NEZHA#"@ && values[1].0 == "#DATETIME#"@);
    assert forall|j: int| 0 <= j < k + 2 implies (#[trigger] values[j]).0 != values[k + 2].0 by {
        if j >= 2 {
            assert(values[j] == own[j - 2]);
        }
    }
    lemma_filled_in(a, b, values, k + 2, 8);
}

/// Placeholders are looked for eight times over, so that values which name others are
/// filled in too.
pub proof fn placeholders_are_looked_for_eight_times(
    raw: Seq<char>,
    message: Seq<char>,
    now: Seq<char>,
    server: Option<&ServerTemplateContext>,
    units: bool,
    notation: Notation,
)
    ensures
        rendered(raw, message, now, server, units, notation) == expanded(
            raw,
            template_values(message, now, server, units, notation),
            8,
        ),
{
}

/// A notification by `GET`, or without a message, has no body. Another has the filled
/// template, or the fields of its form, by its type 1 or 2; of other types there is
/// none.
pub proof fn bodies_follow_the_type(
    n: NotificationResource,
    message: Seq<char>,
    now: Seq<char>,
    server: Option<&ServerTemplateContext>,
)
    ensures
        n.request_method == 1 || message.len() == 0 ==> body_sent(n, message, now, server) == Ok::<
            Option<Seq<char>>,
            NotificationError,
        >(None),
        n.request_method != 1 && message.len() > 0 && n.request_type == 1 ==> body_sent(
            n,
            message,
            now,
            server,
        ) == Ok::<Option<Seq<char>>, NotificationError>(
            Some(
                rendered(
                    n.request_body@,
                    message,
                    now,
                    server,
                    n.format_metric_units == Some(true),
                    Notation::Json,
                ),
            ),
        ),
        n.request_method != 1 && message.len() > 0 && n.request_type == 2 ==> (body_sent(
            n,
            message,
            now,
            server,
        ) is Ok <==> jsontext::string_map_of(n.request_body@) is Ok),
        n.request_method != 1 && message.len() > 0 && n.request_type != 1 && n.request_type != 2
            ==> body_sent(n, message, now, server) == Err::<Option<Seq<char>>, NotificationError>(
            NotificationError::UnsupportedType,
        ),
        type_of_body(2) == "application/x-www-form-urlencoded"@,
        type_of_body(1) == "application/json"@,
        method_of(1) == Ok::<RequestMethod, NotificationError>(RequestMethod::Get),
        method_of(2) == Ok::<RequestMethod, NotificationError>(RequestMethod::Post),
        n.request_method != 1 && n.request_method != 2 ==> method_of(n.request_method) is Err,
{
}

/// Each field of a form is its name and its filled value, both escaped, with a `=`
/// between them; no field is lost and the order is kept.
pub proof fn forms_hold_every_field(
    fields: Seq<(Seq<char>, Seq<char>)>,
    message: Seq<char>,
    now: Seq<char>,
    server: Option<&ServerTemplateContext>,
    units: bool,
    i: int,
)
    requires
        0 <= i < fields.len(),
    ensures
        ({
            let sent = sent_fields(fields, message, now, server, units);
            let name = encode::percent_text(vstd::utf8::encode_utf8(fields[i].0), false);
            let value = rendered(fields[i].1, message, now, server, units, Notation::Plain);
            let escaped = encode::percent_text(vstd::utf8::encode_utf8(value), false);
            &&& sent.len() == fields.len()
            &&& name.is_prefix_of(sent[i])
            &&& escaped.is_suffix_of(sent[i])
            &&& sent[i].len() == name.len() + 1 + escaped.len()
            &&& sent[i][name.len() as int] == '='
            &&& sent_headers(fields, message, now, server, units).len() == fields.len()
            &&& sent_headers(fields, message, now, server, units)[i] == (fields[i].0, value)
        }),
{
    reveal_strlit("=");
    let sent = sent_fields(fields, message, now, server, units);
    let name = encode::percent_text(vstd::utf8::encode_utf8(fields[i].0), false);
    let value = rendered(fields[i].1, message, now, server, units, Notation::Plain);
    let escaped = encode::percent_text(vstd::utf8::encode_utf8(value), false);
    assert(sent[i] == name + "="@ + escaped);
    assert(sent[i].take(name.len() as int) =~= name);
    assert(sent[i].skip(sent[i].len() - escaped.len()) =~= escaped);
}

/// Notifications go over `http` and `https` only, to a host, and to no address that is
/// closed.
pub proof fn notifications_go_to_open_hosts(url: NotificationUrl, literal: Option<IpBits>)
    ensures
        may_go_to(url, literal) ==> (url.scheme@ == "http"@ || url.scheme@ == "https"@) && url.host
            is Some,
        literal matches Some(ip) ==> (may_go_to(url, literal) ==> ip::is_open(ip)),
        url.scheme@ == "http"@ && url.host is Some && literal is None ==> may_go_to(url, literal),
        url.scheme@ == "https"@ && url.host is Some && literal is None ==> may_go_to(url, literal),
        literal matches Some(ip) ==> (url.scheme@ == "https"@ && url.host is Some && ip::is_open(ip)
            ==> may_go_to(url, literal)),
{
}

/// A notification is tried three times: after the first failure one second goes by,
/// after the second two, and after the third it is given up.
pub proof fn notifications_are_tried_three_times(attempt: u32)
    ensures
        wait_after(attempt) is Some <==> attempt < 2,
        wait_after(attempt) matches Some(ms) ==> ms == (attempt + 1) * 1000,
{
}

/// What is kept of the notifications that failed: each of them with its error, the
/// message and the three attempts, in their order, and none that succeeded.
pub proof fn failed_notifications_are_kept(
    results: Seq<(u64, Result<(), String>)>,
    message: Seq<char>,
)
    ensures
        failures(results, message) == results.filter(
            |r: (u64, Result<(), String>)| r.1 is Err,
        ).map_values(
            |r: (u64, Result<(), String>)|
                DeadLetterView {
                    notification_id: r.0,
                    message,
                    error: r.1->Err_0@,
                    attempts: 3,
                },
        ),
    decreases results.len(),
{
    reveal(Seq::filter);
    if results.len() > 0 {
        failed_notifications_are_kept(results.drop_last(), message);
    }
    assert(failures(results, message) =~= results.filter(
        |r: (u64, Result<(), String>)| r.1 is Err,
    ).map_values(
        |r: (u64, Result<(), String>)|
            DeadLetterView {
                notification_id: r.0,
                message,
                error: r.1->Err_0@,
                attempts: 3,
            },
    ));
}

} // verus!
