//! Who may see and change what.
use std::collections::HashMap;
use vstd::prelude::*;

use crate::alerts;
use crate::alerts::{CycleTransferStats, StatsView};
use crate::model::{
    AlertRuleResource, CronResource, DdnsResource, NatResource, NotificationGroupResource,
    NotificationResource, PublicServer, ServerGroupResource, ServiceResource,
};

verus! {

/// Who makes a request, as their token says.
#[derive(Debug, Clone)]
pub struct Claims {
    pub sub: String,
    pub uid: u64,
    pub username: String,
    pub role: u8,
    pub exp: u64,
}

/// Why a request is refused.
#[derive(Debug, Clone, Copy, PartialEq, Eq, Structural)]
pub enum AccessError {
    PermissionDenied,
    InvalidServerId,
    ServerNotFound,
    UserIdRequired,
    DeleteSelf,
    Unauthorized,
    GuestPeriod,
}

/// What is told of a request that is refused.
pub open spec fn access_error_text(e: AccessError) -> Seq<char> {
    match e {
        AccessError::PermissionDenied => "permission denied"@,
        AccessError::InvalidServerId => "have invalid server id"@,
        AccessError::ServerNotFound => "server not found"@,
        AccessError::UserIdRequired => "user id is required"@,
        AccessError::DeleteSelf => "can't delete yourself"@,
        AccessError::Unauthorized => "unauthorized"@,
        AccessError::GuestPeriod => "unauthorized: only 1d data available for guests"@,
    }
}

impl AccessError {
    /// What is told of a request that is refused.
    pub fn message(self) -> (r: &'static str)
        ensures
            r@ == access_error_text(self),
    {
        match self {
            AccessError::PermissionDenied => "permission denied",
            AccessError::InvalidServerId => "have invalid server id",
            AccessError::ServerNotFound => "server not found",
            AccessError::UserIdRequired => "user id is required",
            AccessError::DeleteSelf => "can't delete yourself",
            AccessError::Unauthorized => "unauthorized",
            AccessError::GuestPeriod => "unauthorized: only 1d data available for guests",
        }
    }
}

/// A thing that has a number and belongs to a user.
pub trait Owned {
    spec fn id_of(&self) -> u64;

    spec fn owner_of(&self) -> u64;

    fn item_id(&self) -> (r: u64)
        ensures
            r == self.id_of(),
    ;

    fn owner_id(&self) -> (r: u64)
        ensures
            r == self.owner_of(),
    ;
}

impl Owned for PublicServer {
    open spec fn id_of(&self) -> u64 {
        self.id
    }

    open spec fn owner_of(&self) -> u64 {
        self.user_id
    }

    fn item_id(&self) -> (r: u64) {
        self.id
    }

    fn owner_id(&self) -> (r: u64) {
        self.user_id
    }
}

impl Owned for NotificationResource {
    open spec fn id_of(&self) -> u64 {
        self.id
    }

    open spec fn owner_of(&self) -> u64 {
        self.user_id
    }

    fn item_id(&self) -> (r: u64) {
        self.id
    }

    fn owner_id(&self) -> (r: u64) {
        self.user_id
    }
}

impl Owned for CronResource {
    open spec fn id_of(&self) -> u64 {
        self.id
    }

    open spec fn owner_of(&self) -> u64 {
        self.user_id
    }

    fn item_id(&self) -> (r: u64) {
        self.id
    }

    fn owner_id(&self) -> (r: u64) {
        self.user_id
    }
}

impl Owned for NatResource {
    open spec fn id_of(&self) -> u64 {
        self.id
    }

    open spec fn owner_of(&self) -> u64 {
        self.user_id
    }

    fn item_id(&self) -> (r: u64) {
        self.id
    }

    fn owner_id(&self) -> (r: u64) {
        self.user_id
    }
}

impl Owned for ServiceResource {
    open spec fn id_of(&self) -> u64 {
        self.id
    }

    open spec fn owner_of(&self) -> u64 {
        self.user_id
    }

    fn item_id(&self) -> (r: u64) {
        self.id
    }

    fn owner_id(&self) -> (r: u64) {
        self.user_id
    }
}

impl Owned for DdnsResource {
    open spec fn id_of(&self) -> u64 {
        self.id
    }

    open spec fn owner_of(&self) -> u64 {
        self.user_id
    }

    fn item_id(&self) -> (r: u64) {
        self.id
    }

    fn owner_id(&self) -> (r: u64) {
        self.user_id
    }
}

impl Owned for AlertRuleResource {
    open spec fn id_of(&self) -> u64 {
        self.id
    }

    open spec fn owner_of(&self) -> u64 {
        self.user_id
    }

    fn item_id(&self) -> (r: u64) {
        self.id
    }

    fn owner_id(&self) -> (r: u64) {
        self.user_id
    }
}

impl Owned for ServerGroupResource {
    open spec fn id_of(&self) -> u64 {
        self.group.id
    }

    open spec fn owner_of(&self) -> u64 {
        self.group.user_id
    }

    fn item_id(&self) -> (r: u64) {
        self.group.id
    }

    fn owner_id(&self) -> (r: u64) {
        self.group.user_id
    }
}

impl Owned for NotificationGroupResource {
    open spec fn id_of(&self) -> u64 {
        self.group.id
    }

    open spec fn owner_of(&self) -> u64 {
        self.group.user_id
    }

    fn item_id(&self) -> (r: u64) {
        self.group.id
    }

    fn owner_id(&self) -> (r: u64) {
        self.group.user_id
    }
}

/// Whether the one who asks is an administrator.
pub open spec fn is_administrator(claims: Claims) -> bool {
    claims.role == 0
}

/// Whether the one who asks may change what `owner_id` owns.
pub open spec fn permits(claims: Claims, owner_id: u64) -> bool {
    is_administrator(claims) || claims.uid == owner_id
}

/// Whether the one who asks may change what `owner_id` owns.
pub fn owner_is_permitted(claims: &Claims, owner_id: u64) -> (r: bool)
    ensures
        r == permits(*claims, owner_id),
{
    claims.role == 0 || claims.uid == owner_id
}

/// The things among `items` that the one who asks may change.
pub open spec fn permitted_items<T: Owned>(items: Seq<T>, claims: Claims) -> Seq<T>
    decreases items.len(),
{
    if items.len() == 0 {
        seq![]
    } else {
        let before = permitted_items(items.drop_last(), claims);
        if permits(claims, items.last().owner_of()) {
            before.push(items.last())
        } else {
            before
        }
    }
}

/// The things among `items` that the one who asks may change.
pub fn filter_owned<T: Owned>(items: Vec<T>, claims: &Claims) -> (r: Vec<T>)
    ensures
        r@ == permitted_items(items@, *claims),
{
    let ghost all = items@;
    let mut out: Vec<T> = Vec::new();
    for item in it: items
        invariant
            it.seq() == all,
            out@ == permitted_items(all.take(it.index() as int), *claims),
    {
        proof {
            assert(all.take(it.index() + 1).drop_last() =~= all.take(it.index() as int));
        }
        let owner: u64 = item.owner_id();
        if owner_is_permitted(claims, owner) {
            out.push(item);
        }
    }
    proof {
        assert(all.take(all.len() as int) =~= all);
    }
    out
}

/// The first of `items` from `i` on that has the number `id`, or `items.len()`.
pub open spec fn place_of<T: Owned>(items: Seq<T>, id: u64, i: int) -> int
    decreases items.len() - i,
{
    if i >= items.len() {
        items.len() as int
    } else if items[i].id_of() == id {
        i
    } else {
        place_of(items, id, i + 1)
    }
}

pub proof fn lemma_place_of<T: Owned>(items: Seq<T>, id: u64, i: int)
    requires
        0 <= i <= items.len(),
    ensures
        i <= place_of(items, id, i) <= items.len(),
        place_of(items, id, i) < items.len() ==> items[place_of(items, id, i)].id_of() == id,
        forall|k: int| i <= k < place_of(items, id, i) ==> (#[trigger] items[k]).id_of() != id,
    decreases items.len() - i,
{
    if i < items.len() && items[i].id_of() != id {
        lemma_place_of(items, id, i + 1);
    }
}

/// Where the first thing with the number `id` stands.
pub fn find_item<T: Owned>(items: &[T], id: u64) -> (r: Option<usize>)
    ensures
        match r {
            Some(i) => i == place_of(items@, id, 0) && i < items@.len(),
            None => place_of(items@, id, 0) == items@.len(),
        },
{
    let mut i: usize = 0;
    while i < items.len()
        invariant
            i <= items@.len(),
            place_of(items@, id, 0) == place_of(items@, id, i as int),
        decreases items@.len() - i,
    {
        let x: u64 = items[i].item_id();
        if x == id {
            return Some(i);
        }
        i += 1;
    }
    None
}

/// Whether there is a thing with the number `id`, and the one who asks may
/// change it.
pub open spec fn owned_among<T: Owned>(items: Seq<T>, id: u64, claims: Claims) -> bool {
    let i = place_of(items, id, 0);
    i < items.len() && permits(claims, items[i].owner_of())
}

/// Whether there is a thing with the number `id`, and the one who asks may
/// change it.
pub fn id_is_owned<T: Owned>(items: &[T], id: u64, claims: &Claims) -> (r: bool)
    ensures
        r == owned_among(items@, id, *claims),
{
    proof {
        lemma_place_of(items@, id, 0);
    }
    match find_item(items, id) {
        Some(i) => {
            let owner: u64 = items[i].owner_id();
            owner_is_permitted(claims, owner)
        },
        None => false,
    }
}

/// Whether that holds of every number.
pub open spec fn all_owned_among<T: Owned>(items: Seq<T>, ids: Seq<u64>, claims: Claims) -> bool {
    forall|k: int| 0 <= k < ids.len() ==> owned_among(items, #[trigger] ids[k], claims)
}

/// Whether there is a thing with each of the numbers, and the one who asks may
/// change all of them.
pub fn ids_are_owned<T: Owned>(items: &[T], ids: &[u64], claims: &Claims) -> (r: bool)
    ensures
        r == all_owned_among(items@, ids@, *claims),
{
    let mut k: usize = 0;
    while k < ids.len()
        invariant
            k <= ids@.len(),
            forall|j: int| 0 <= j < k ==> owned_among(items@, #[trigger] ids@[j], *claims),
        decreases ids@.len() - k,
    {
        if !id_is_owned(items, ids[k], claims) {
            proof {
                assert(!owned_among(items@, ids@[k as int], *claims));
            }
            return false;
        }
        k += 1;
    }
    true
}

/// Whether the one who asks may see a server.
pub open spec fn can_view(claims: Option<&Claims>, server: PublicServer) -> bool {
    !server.hide_for_guest || (claims is Some && permits(*claims->0, server.user_id))
}

/// Whether the one who asks may see a server.
pub fn user_can_view_server(claims: Option<&Claims>, server: &PublicServer) -> (r: bool)
    ensures
        r == can_view(claims, *server),
{
    match claims {
        Some(c) => if c.role == 0 || c.uid == server.user_id {
            true
        } else {
            !server.hide_for_guest
        },
        None => !server.hide_for_guest,
    }
}

/// Whether there is a server with the number `id`, and the one who asks may see
/// it.
pub open spec fn sees(claims: Option<&Claims>, servers: Seq<PublicServer>, id: u64) -> bool {
    let i = place_of(servers, id, 0);
    i < servers.len() && can_view(claims, servers[i])
}

/// Whether there is a server with the number `id`, and the one who asks may see
/// it.
pub fn server_is_visible(claims: Option<&Claims>, servers: &[PublicServer], id: u64) -> (r: bool)
    ensures
        r == sees(claims, servers@, id),
{
    proof {
        lemma_place_of(servers@, id, 0);
    }
    match find_item(servers, id) {
        Some(i) => user_can_view_server(claims, &servers[i]),
        None => false,
    }
}

/// The numbers of the servers that the one who asks may see.
pub open spec fn seen_ids(
    claims: Option<&Claims>,
    servers: Seq<PublicServer>,
    ids: Seq<u64>,
) -> Seq<u64>
    decreases ids.len(),
{
    if ids.len() == 0 {
        seq![]
    } else {
        let before = seen_ids(claims, servers, ids.drop_last());
        if sees(claims, servers, ids.last()) {
            before.push(ids.last())
        } else {
            before
        }
    }
}

/// The numbers of the servers that the one who asks may see.
pub fn visible_ids(claims: Option<&Claims>, servers: &[PublicServer], ids: &[u64]) -> (r: Vec<u64>)
    ensures
        r@ == seen_ids(claims, servers@, ids@),
{
    let mut out: Vec<u64> = Vec::new();
    let mut i: usize = 0;
    proof {
        assert(ids@.take(0) =~= seq![]);
    }
    while i < ids.len()
        invariant
            i <= ids@.len(),
            out@ == seen_ids(claims, servers@, ids@.take(i as int)),
        decreases ids@.len() - i,
    {
        proof {
            assert(ids@.take(i + 1).drop_last() =~= ids@.take(i as int));
        }
        if server_is_visible(claims, servers, ids[i]) {
            out.push(ids[i]);
        }
        i += 1;
    }
    proof {
        assert(ids@.take(ids@.len() as int) =~= ids@);
    }
    out
}

/// Whether the one who asks may change the server with the number
/// `server_id`.
pub fn user_can_manage_server(servers: &[PublicServer], claims: &Claims, server_id: u64) -> (r:
    bool)
    ensures
        r == owned_among(servers@, server_id, *claims),
{
    id_is_owned(servers, server_id, claims)
}

/// The name of a server.
pub fn server_name(servers: &[PublicServer], server_id: u64) -> (r: Result<String, AccessError>)
    ensures
        ({
            let i = place_of(servers@, server_id, 0);
            match r {
                Ok(name) => i < servers@.len() && name@ == servers@[i].name@,
                Err(e) => i == servers@.len() && e == AccessError::ServerNotFound,
            }
        }),
{
    proof {
        lemma_place_of(servers@, server_id, 0);
    }
    match find_item(servers, server_id) {
        Some(i) => Ok(servers[i].name.as_str().to_owned()),
        None => Err(AccessError::ServerNotFound),
    }
}

/// The keys of a map.
fn keys_of<V>(m: &HashMap<u64, V>) -> (r: Vec<u64>)
    ensures
        r@.to_set() == m@.dom(),
        r@.no_duplicates(),
{
    broadcast use vstd::std_specs::hash::group_hash_axioms;

    let mut out: Vec<u64> = Vec::new();
    for k in it: m.keys()
        invariant
            out@ == it.seq().unref().take(it.index() as int),
            it.seq().unref().to_set() == m@.dom(),
            it.seq().no_duplicates(),
            it.index() == it.seq().len() ==> out@ == it.seq().unref(),
    {
        proof {
            assert(it.seq().unref().take(it.index() + 1) =~= it.seq().unref().take(
                it.index() as int,
            ).push(*k));
        }
        out.push(*k);
        proof {
            assert(it.seq().unref().take(it.seq().len() as int) =~= it.seq().unref());
        }
    }
    out
}

/// The servers that the one who asks may see, by number.
pub open spec fn seen_servers(claims: Option<&Claims>, servers: Seq<PublicServer>) -> Set<u64> {
    Set::new(|id: u64| sees(claims, servers, id))
}

/// Keeps what a map says of the servers that the one who asks may see.
fn keep_visible<V>(m: HashMap<u64, V>, claims: Option<&Claims>, servers: &[PublicServer]) -> (r:
    HashMap<u64, V>)
    ensures
        r@ == m@.restrict(seen_servers(claims, servers@)),
{
    broadcast use vstd::std_specs::hash::group_hash_axioms;

    let ghost all = m@;
    let keys = keys_of(&m);
    let mut m = m;
    let mut out: HashMap<u64, V> = HashMap::new();
    let mut i: usize = 0;
    let ghost seen = seen_servers(claims, servers@);
    while i < keys.len()
        invariant
            i <= keys@.len(),
            keys@.to_set() == all.dom(),
            keys@.no_duplicates(),
            seen == seen_servers(claims, servers@),
            forall|k: int| i <= k < keys@.len() ==> m@.contains_key(#[trigger] keys@[k])
                && m@[keys@[k]] == all[keys@[k]],
            out@ == all.restrict(seen.intersect(keys@.take(i as int).to_set())),
        decreases keys@.len() - i,
    {
        let key: u64 = keys[i];
        let ghost before = out@;
        proof {
            assert(m@.contains_key(keys@[i as int]));
            assert(keys@.contains(key));
            assert(all.dom().contains(key));
            let a = keys@.take(i as int);
            let b = keys@.take(i + 1);
            assert forall|x: u64| b.to_set().contains(x) == (a.to_set().contains(x) || x
                == key) by {
                if b.contains(x) {
                    let k = choose|k: int| 0 <= k < b.len() && b[k] == x;
                    if k < i {
                        assert(a[k] == x);
                    }
                }
                if a.contains(x) {
                    let k = choose|k: int| 0 <= k < a.len() && a[k] == x;
                    assert(b[k] == x);
                }
                assert(b[i as int] == key);
            }
        }
        if server_is_visible(claims, servers, key) {
            if let Some(v) = m.remove(&key) {
                out.insert(key, v);
            }
        }
        proof {
            assert(out@ =~= all.restrict(seen.intersect(keys@.take(i + 1).to_set())));
        }
        i += 1;
    }
    proof {
        assert(keys@.take(keys@.len() as int) =~= keys@);
        assert(out@ =~= all.restrict(seen));
    }
    out
}

/// What is published of a cycle's transfer to the one who asks.
pub open spec fn seen_stats(
    stats: StatsView,
    claims: Option<&Claims>,
    servers: Seq<PublicServer>,
) -> StatsView {
    let seen = seen_servers(claims, servers);
    StatsView {
        server_name: stats.server_name.restrict(seen),
        transfer: stats.transfer.restrict(seen),
        next_update: stats.next_update.restrict(seen),
        ..stats
    }
}

/// Whether nothing is said of any server.
pub open spec fn says_nothing(stats: StatsView) -> bool {
    stats.server_name.dom().is_empty() && stats.transfer.dom().is_empty()
        && stats.next_update.dom().is_empty()
}

fn is_empty_map<V>(m: &HashMap<u64, V>) -> (r: bool)
    ensures
        r == m@.dom().is_empty(),
{
    broadcast use vstd::std_specs::hash::group_hash_axioms;

    proof {
        if m@.dom().len() == 0 {
            vstd::set_lib::lemma_set_empty_equivalency_len(m@.dom());
        }
    }
    m.len() == 0
}

fn filter_stats(stats: CycleTransferStats, claims: Option<&Claims>, servers: &[PublicServer]) -> (r:
    CycleTransferStats)
    ensures
        r@ == seen_stats(stats@, claims, servers@),
{
    let ghost seen = seen_servers(claims, servers@);
    let server_name = keep_visible(stats.server_name, claims, servers);
    proof {
        assert(alerts::names(stats.server_name@.restrict(seen))
            =~= alerts::names(stats.server_name@).restrict(
            seen,
        ));
    }
    CycleTransferStats {
        name: stats.name,
        from: stats.from,
        to: stats.to,
        max: stats.max,
        min: stats.min,
        server_name,
        transfer: keep_visible(stats.transfer, claims, servers),
        next_update: keep_visible(stats.next_update, claims, servers),
    }
}

/// What is published of all cycles to the one who asks: of each cycle the
/// servers that they may see, and no cycle without a server.
pub open spec fn seen_cycles(
    stats: Map<u64, StatsView>,
    claims: Option<&Claims>,
    servers: Seq<PublicServer>,
) -> Map<u64, StatsView> {
    Map::new(
        |id: u64|
            stats.contains_key(id) && !says_nothing(seen_stats(stats[id], claims, servers)),
        |id: u64| seen_stats(stats[id], claims, servers),
    )
}

/// What is published of all cycles to the one who asks.
pub fn filter_cycle_transfer_stats(
    stats: HashMap<u64, CycleTransferStats>,
    claims: Option<&Claims>,
    servers: &[PublicServer],
) -> (r: HashMap<u64, CycleTransferStats>)
    ensures
        alerts::stats_views(r@) == seen_cycles(alerts::stats_views(stats@), claims, servers@),
{
    broadcast use vstd::std_specs::hash::group_hash_axioms;

    let ghost all = stats@;
    let keys = keys_of(&stats);
    let mut stats = stats;
    let mut out: HashMap<u64, CycleTransferStats> = HashMap::new();
    let mut i: usize = 0;
    let ghost goal = seen_cycles(alerts::stats_views(all), claims, servers@);
    while i < keys.len()
        invariant
            i <= keys@.len(),
            keys@.to_set() == all.dom(),
            keys@.no_duplicates(),
            goal == seen_cycles(alerts::stats_views(all), claims, servers@),
            forall|k: int| i <= k < keys@.len() ==> stats@.contains_key(#[trigger] keys@[k])
                && stats@[keys@[k]] == all[keys@[k]],
            forall|k: int| 0 <= k < i ==> (out@.contains_key(#[trigger] keys@[k])
                <==> goal.contains_key(keys@[k])),
            forall|k: int| i <= k < keys@.len() ==> !out@.contains_key(#[trigger] keys@[k]),
            forall|id: u64| #[trigger]
                out@.contains_key(id) ==> all.contains_key(id) && goal.contains_key(id)
                    && out@[id]@ == goal[id],
        decreases keys@.len() - i,
    {
        let key: u64 = keys[i];
        proof {
            assert(stats@.contains_key(keys@[i as int]));
            assert(keys@.contains(key));
            assert(all.dom().contains(key));
            assert(alerts::stats_views(all).contains_key(key));
            assert(alerts::stats_views(all)[key] == all[key]@);
        }
        if let Some(s) = stats.remove(&key) {
            let kept = filter_stats(s, claims, servers);
            if !is_empty_map(&kept.server_name) || !is_empty_map(&kept.transfer) || !is_empty_map(
                &kept.next_update,
            ) {
                proof {
                    assert(alerts::names(kept.server_name@).dom() =~= kept.server_name@.dom());
                }
                out.insert(key, kept);
            } else {
                proof {
                    assert(alerts::names(kept.server_name@).dom() =~= kept.server_name@.dom());
                }
            }
        }
        i += 1;
    }
    proof {
        assert forall|id: u64| #[trigger] goal.contains_key(id) implies out@.contains_key(id) by {
            assert(all.contains_key(id));
            assert(keys@.to_set().contains(id));
            let k = choose|k: int| 0 <= k < keys@.len() && keys@[k] == id;
            assert(out@.contains_key(keys@[k]));
        }
        assert(alerts::stats_views(out@) =~= goal);
    }
    out
}

/// An administrator may change everything, and a user what they own and nothing
/// else.
pub proof fn users_keep_to_what_they_own(claims: Claims, owner_id: u64)
    ensures
        claims.role == 0 ==> permits(claims, owner_id),
        claims.role != 0 ==> (permits(claims, owner_id) <==> claims.uid == owner_id),
        permits(claims, claims.uid),
{
}

/// A user is given what they own, in its order, and nothing else.
pub proof fn users_are_given_what_they_own<T: Owned>(items: Seq<T>, claims: Claims)
    requires
        claims.role != 0,
    ensures
        permitted_items(items, claims) == items.filter(|x: T| x.owner_of() == claims.uid),
    decreases items.len(),
{
    reveal(Seq::filter);
    if items.len() > 0 {
        users_are_given_what_they_own(items.drop_last(), claims);
    }
}

/// Guests see every server that is not hidden from them and no other. A hidden one
/// is seen by its owner and by administrators alone.
pub proof fn hidden_servers_are_seen_by_few(claims: Claims, server: PublicServer)
    ensures
        can_view(None, server) <==> !server.hide_for_guest,
        !server.hide_for_guest ==> can_view(Some(&claims), server),
        server.hide_for_guest ==> (can_view(Some(&claims), server) <==> claims.role == 0
            || claims.uid == server.user_id),
{
}

/// A number stands for the first thing that has it: it is owned where that may be
/// changed, and never where no thing has the number.
pub proof fn numbers_stand_for_the_first_thing<T: Owned>(
    items: Seq<T>,
    id: u64,
    claims: Claims,
    at: int,
)
    requires
        0 <= at <= items.len(),
        forall|k: int| 0 <= k < at ==> (#[trigger] items[k]).id_of() != id,
        at < items.len() ==> items[at].id_of() == id,
    ensures
        owned_among(items, id, claims) <==> at < items.len() && (claims.role == 0 || claims.uid
            == items[at].owner_of()),
{
    lemma_place_of(items, id, 0);
    let i = place_of(items, id, 0);
    if i < at {
        assert(items[i].id_of() != id);
    } else if at < i {
        assert(items[at].id_of() != id);
    }
}

/// A number of a server is seen where the first server that has it may be seen.
pub proof fn numbers_of_seen_servers_are_seen(
    claims: Option<&Claims>,
    servers: Seq<PublicServer>,
    id: u64,
    at: int,
)
    requires
        0 <= at <= servers.len(),
        forall|k: int| 0 <= k < at ==> (#[trigger] servers[k]).id != id,
        at < servers.len() ==> servers[at].id == id,
    ensures
        sees(claims, servers, id) <==> at < servers.len() && (!servers[at].hide_for_guest || (
        claims matches Some(c) && (c.role == 0 || c.uid == servers[at].user_id))),
{
    lemma_place_of(servers, id, 0);
    let i = place_of(servers, id, 0);
    if i < at {
        assert(servers[i].id != id);
    } else if at < i {
        assert(servers[at].id != id);
    }
}

/// Of a list of numbers those are shown that are seen, in their order.
pub proof fn shown_numbers_are_those_seen(
    claims: Option<&Claims>,
    servers: Seq<PublicServer>,
    ids: Seq<u64>,
)
    ensures
        seen_ids(claims, servers, ids) == ids.filter(|id: u64| sees(claims, servers, id)),
    decreases ids.len(),
{
    reveal(Seq::filter);
    if ids.len() > 0 {
        shown_numbers_are_those_seen(claims, servers, ids.drop_last());
    }
}

/// What is published of the transfer of a seen server is what was measured, and the
/// dates and bounds of its cycle are published with it.
pub proof fn seen_transfer_is_published(
    stats: Map<u64, StatsView>,
    claims: Option<&Claims>,
    servers: Seq<PublicServer>,
    alert: u64,
    server: u64,
)
    requires
        stats.contains_key(alert),
        sees(claims, servers, server),
        stats[alert].transfer.contains_key(server),
    ensures
        seen_cycles(stats, claims, servers).contains_key(alert),
        ({
            let shown = seen_cycles(stats, claims, servers)[alert];
            &&& shown.transfer.contains_key(server) && shown.transfer[server]
                == stats[alert].transfer[server]
            &&& shown.name == stats[alert].name && shown.from == stats[alert].from && shown.to
                == stats[alert].to && shown.max == stats[alert].max && shown.min
                == stats[alert].min
        }),
{
    let shown = seen_stats(stats[alert], claims, servers);
    assert(shown.transfer.dom().contains(server));
}

} // verus!
