//! Who is online, which addresses are blocked, and which tasks an alert has
//! started and waits for.
use vstd::prelude::*;

use crate::{search, sorting};
use crate::requests::contains_text;
use crate::text::same;

verus! {

/// Somebody who looks at the pages.
#[derive(Debug)]
pub struct OnlineUser {
    pub user_id: u64,
    pub connected_at: u64,
    pub ip: String,
}

pub struct OnlineView {
    pub user_id: u64,
    pub connected_at: u64,
    pub ip: Seq<char>,
}

impl View for OnlineUser {
    type V = OnlineView;

    open spec fn view(&self) -> OnlineView {
        OnlineView { user_id: self.user_id, connected_at: self.connected_at, ip: self.ip@ }
    }
}

impl OnlineUser {
    fn copied(&self) -> (r: OnlineUser)
        ensures
            r@ == self@,
    {
        OnlineUser {
            user_id: self.user_id,
            connected_at: self.connected_at,
            ip: self.ip.as_str().to_owned(),
        }
    }
}

/// Those who are online, by connection, and the addresses that are blocked.
pub struct OnlineRegistry {
    users: Vec<(String, OnlineUser)>,
    blocked: Vec<String>,
}

pub open spec fn connections(v: Seq<(String, OnlineUser)>) -> Seq<(Seq<char>, OnlineView)> {
    v.map_values(|e: (String, OnlineUser)| (e.0@, e.1@))
}

pub open spec fn users_of(v: Seq<(Seq<char>, OnlineView)>) -> Seq<OnlineView> {
    v.map_values(|e: (Seq<char>, OnlineView)| e.1)
}

/// Where a connection stands from `i` on, or the length.
pub open spec fn connection_at(v: Seq<(Seq<char>, OnlineView)>, id: Seq<char>, i: int) -> int
    decreases v.len() - i,
{
    if i >= v.len() {
        v.len() as int
    } else if v[i].0 == id {
        i
    } else {
        connection_at(v, id, i + 1)
    }
}

proof fn lemma_connection_at(v: Seq<(Seq<char>, OnlineView)>, id: Seq<char>, i: int)
    requires
        0 <= i <= v.len(),
    ensures
        i <= connection_at(v, id, i) <= v.len(),
        connection_at(v, id, i) < v.len() ==> v[connection_at(v, id, i)].0 == id,
        forall|k: int| i <= k < connection_at(v, id, i) ==> (#[trigger] v[k]).0 != id,
    decreases v.len() - i,
{
    if i < v.len() && v[i].0 != id {
        lemma_connection_at(v, id, i + 1);
    }
}

/// Those online, once somebody has come by a connection.
pub open spec fn with_connection(
    v: Seq<(Seq<char>, OnlineView)>,
    id: Seq<char>,
    user: OnlineView,
) -> Seq<(Seq<char>, OnlineView)> {
    let i = connection_at(v, id, 0);
    if i < v.len() {
        v.update(i, (id, user))
    } else {
        v.push((id, user))
    }
}

/// Those online, once a connection has ended.
pub open spec fn without_connection(v: Seq<(Seq<char>, OnlineView)>, id: Seq<char>) -> Seq<
    (Seq<char>, OnlineView),
> {
    let i = connection_at(v, id, 0);
    if i < v.len() {
        v.remove(i)
    } else {
        v
    }
}

/// Whether no connection is there twice.
pub open spec fn distinct_connections(v: Seq<(Seq<char>, OnlineView)>) -> bool {
    forall|i: int, j: int| 0 <= i < j < v.len() ==> (#[trigger] v[i]).0 != (#[trigger] v[j]).0
}

proof fn lemma_unblocked(v: Seq<(Seq<char>, OnlineView)>, blocked: Seq<Seq<char>>)
    requires
        distinct_connections(v),
    ensures
        distinct_connections(unblocked(v, blocked)),
        forall|i: int|
            0 <= i < unblocked(v, blocked).len()
                ==> v.contains(#[trigger] unblocked(v, blocked)[i]),
    decreases v.len(),
{
    if v.len() > 0 {
        let before = unblocked(v.drop_last(), blocked);
        lemma_unblocked(v.drop_last(), blocked);
        assert forall|i: int| 0 <= i < unblocked(v, blocked).len() implies v.contains(
            #[trigger] unblocked(v, blocked)[i],
        ) by {
            if i < before.len() {
                assert(v.drop_last().contains(before[i]));
                let k = choose|k: int|
                    0 <= k < v.drop_last().len() && v.drop_last()[k] == before[i];
                assert(v[k] == before[i]);
            } else {
                assert(v[v.len() - 1] == unblocked(v, blocked)[i]);
            }
        }
        assert forall|i: int, j: int| 0 <= i < j < unblocked(v, blocked).len() implies (
        #[trigger] unblocked(v, blocked)[i]).0 != (#[trigger] unblocked(v, blocked)[j]).0 by {
            if j == before.len() {
                assert(v.drop_last().contains(before[i]));
                let k = choose|k: int|
                    0 <= k < v.drop_last().len() && v.drop_last()[k] == before[i];
                assert(v[k].0 != v[v.len() - 1].0);
            }
        }
    }
}

/// Those whose address is not blocked.
pub open spec fn unblocked(v: Seq<(Seq<char>, OnlineView)>, blocked: Seq<Seq<char>>) -> Seq<
    (Seq<char>, OnlineView),
>
    decreases v.len(),
{
    if v.len() == 0 {
        seq![]
    } else {
        let before = unblocked(v.drop_last(), blocked);
        if blocked.contains(v.last().1.ip) {
            before
        } else {
            before.push(v.last())
        }
    }
}

/// Whether those who came earlier stand first.
pub open spec fn in_order_of_time(v: Seq<OnlineView>) -> bool {
    forall|i: int, j: int|
        0 <= i <= j < v.len() ==> (#[trigger] v[i]).connected_at <= (#[trigger] v[j]).connected_at
}

/// The smaller of two numbers.
pub open spec fn least(a: int, b: int) -> int {
    if a < b {
        a
    } else {
        b
    }
}

/// The part of a list that a page shows.
pub open spec fn page<A>(v: Seq<A>, limit: u64, offset: u64) -> Seq<A> {
    let start = least(offset as int, v.len() as int);
    v.subrange(start, least(start + limit, v.len() as int))
}

pub open spec fn online_views(v: Seq<OnlineUser>) -> Seq<OnlineView> {
    v.map_values(|u: OnlineUser| u@)
}

impl OnlineRegistry {
    /// The connections and who they are from, in no order that counts.
    pub closed spec fn online(&self) -> Seq<(Seq<char>, OnlineView)> {
        connections(self.users@)
    }

    /// Whether no connection is there twice.
    pub open spec fn wf(&self) -> bool {
        distinct_connections(self.online())
    }

    /// The addresses that are blocked.
    pub closed spec fn blocked(&self) -> Seq<Seq<char>> {
        search::texts(self.blocked@)
    }

    pub fn new() -> (r: OnlineRegistry)
        ensures
            r.online() == Seq::<(Seq<char>, OnlineView)>::empty(),
            r.blocked() == Seq::<Seq<char>>::empty(),
            r.wf(),
    {
        let r = OnlineRegistry { users: Vec::new(), blocked: Vec::new() };
        proof {
            assert(r.online() =~= seq![]);
            assert(r.blocked() =~= seq![]);
        }
        r
    }

    fn find(&self, conn_id: &str) -> (r: usize)
        ensures
            r == connection_at(self.online(), conn_id@, 0),
            r <= self.users@.len(),
    {
        let mut i: usize = 0;
        while i < self.users.len()
            invariant
                i <= self.users@.len(),
                connection_at(self.online(), conn_id@, i as int) == connection_at(
                    self.online(),
                    conn_id@,
                    0,
                ),
            decreases self.users@.len() - i,
        {
            proof {
                assert(self.online()[i as int].0 == self.users@[i as int].0@);
            }
            if same(self.users[i].0.as_str(), conn_id) {
                return i;
            }
            i += 1;
        }
        i
    }

    /// Somebody comes online, or comes back by the same connection.
    pub fn add_online_user(&mut self, conn_id: String, user: OnlineUser)
        requires
            old(self).wf(),
        ensures
            final(self).wf(),
            final(self).online() == with_connection(old(self).online(), conn_id@, user@),
            final(self).blocked() == old(self).blocked(),
    {
        let i = self.find(conn_id.as_str());
        let ghost before = self.users@;
        proof {
            lemma_connection_at(self.online(), conn_id@, 0);
        }
        if i < self.users.len() {
            self.users.set(i, (conn_id, user));
            proof {
                assert(connections(self.users@) =~= connections(before).update(
                    i as int,
                    (conn_id@, user@),
                ));
            }
        } else {
            self.users.push((conn_id, user));
            proof {
                assert(connections(self.users@) =~= connections(before).push((conn_id@, user@)));
            }
        }
    }

    /// A connection ends.
    pub fn remove_online_user(&mut self, conn_id: &str)
        requires
            old(self).wf(),
        ensures
            final(self).wf(),
            final(self).online() == without_connection(old(self).online(), conn_id@),
            final(self).blocked() == old(self).blocked(),
    {
        let i = self.find(conn_id);
        let ghost before = self.users@;
        if i < self.users.len() {
            self.users.remove(i);
            proof {
                assert(connections(self.users@) =~= connections(before).remove(i as int));
            }
        }
    }

    /// How many are online.
    pub fn online_user_count(&self) -> (r: u64)
        ensures
            r == self.online().len(),
    {
        self.users.len() as u64
    }

    /// A page of those who are online, in the order in which they came, and how
    /// many there are.
    pub fn list_online_users(&self, limit: u64, offset: u64) -> (r: (Vec<OnlineUser>, u64))
        ensures
            r.1 == self.online().len(),
            exists|all: Seq<OnlineView>| #[trigger]
                in_order_of_time(all) && all.to_multiset() == users_of(
                    self.online(),
                ).to_multiset() && online_views(r.0@) == page(all, limit, offset),
    {
        let mut all: Vec<OnlineUser> = Vec::new();
        let mut n: usize = 0;
        let ghost given = users_of(self.online());
        proof {
            assert(online_views(all@) =~= given.take(0));
        }
        while n < self.users.len()
            invariant
                n <= self.users@.len(),
                given == users_of(self.online()),
                all@.len() == n,
                in_order_of_time(online_views(all@)),
                online_views(all@).to_multiset() == given.take(n as int).to_multiset(),
            decreases self.users@.len() - n,
        {
            let ghost before = online_views(all@);
            let time: u64 = self.users[n].1.connected_at;
            let mut i: usize = 0;
            while i < all.len() && all[i].connected_at <= time
                invariant
                    i <= all@.len(),
                    before == online_views(all@),
                    forall|k: int| 0 <= k < i ==> (#[trigger] before[k]).connected_at <= time,
                decreases all@.len() - i,
            {
                proof {
                    assert(before[i as int] == all@[i as int]@);
                }
                i += 1;
            }
            let user = self.users[n].1.copied();
            proof {
                assert(self.online()[n as int].1 == user@);
                if i < all@.len() {
                    assert(before[i as int] == all@[i as int]@);
                }
                lemma_user_inserted(before, i as int, user@);
                given.take(n as int).to_multiset_ensures();
                assert(given.take(n + 1) =~= given.take(n as int).push(user@));
            }
            all.insert(i, user);
            proof {
                assert(online_views(all@) =~= before.insert(i as int, user@));
            }
            n += 1;
        }
        proof {
            assert(given.take(n as int) =~= given);
        }
        let total: usize = all.len();
        let start: usize = if offset < total as u64 {
            offset as usize
        } else {
            total
        };
        let end: usize = if limit < (total - start) as u64 {
            start + limit as usize
        } else {
            total
        };
        let ghost sorted = online_views(all@);
        let mut out: Vec<OnlineUser> = Vec::new();
        let mut k: usize = start;
        proof {
            assert(online_views(out@) =~= sorted.subrange(start as int, k as int));
        }
        while k < end
            invariant
                start <= k <= end <= all@.len(),
                sorted == online_views(all@),
                online_views(out@) == sorted.subrange(start as int, k as int),
            decreases end - k,
        {
            let user = all[k].copied();
            let ghost before = out@;
            out.push(user);
            proof {
                assert(sorted[k as int] == user@);
                assert(online_views(out@) =~= online_views(before).push(user@));
                assert(sorted.subrange(start as int, k + 1) =~= sorted.subrange(
                    start as int,
                    k as int,
                ).push(user@));
            }
            k += 1;
        }
        proof {
            assert(sorted.to_multiset() == given.to_multiset());
            sorted.to_multiset_ensures();
            given.to_multiset_ensures();
            assert(online_views(out@) == page(sorted, limit, offset));
            assert(in_order_of_time(sorted));
        }
        (out, total as u64)
    }

    /// Whether an address is blocked.
    pub fn online_ip_is_blocked(&self, ip: &str) -> (r: bool)
        ensures
            r == self.blocked().contains(ip@),
    {
        contains_text(&self.blocked, ip)
    }

    /// Blocks addresses, and ends every connection from a blocked one.
    pub fn block_online_ips(&mut self, ips: &[String])
        requires
            old(self).wf(),
        ensures
            final(self).wf(),
            final(self).blocked() == old(self).blocked() + search::texts(ips@),
            final(self).online() == unblocked(old(self).online(), final(self).blocked()),
    {
        let ghost before = self.blocked@;
        let mut i: usize = 0;
        proof {
            assert(search::texts(self.blocked@)
                =~= search::texts(before) + search::texts(ips@).take(0));
        }
        while i < ips.len()
            invariant
                i <= ips@.len(),
                self.users@ == old(self).users@,
                search::texts(self.blocked@)
                    == search::texts(before) + search::texts(ips@).take(i as int),
            decreases ips@.len() - i,
        {
            let ip = ips[i].as_str().to_owned();
            proof {
                search::lemma_texts_push(self.blocked@, ip);
                assert(search::texts(ips@).take(i + 1)
                    =~= search::texts(ips@).take(i as int).push(ip@));
                assert((search::texts(before) + search::texts(ips@).take(i as int)).push(ip@)
                    =~= search::texts(before)
                    + search::texts(ips@).take(i as int).push(ip@));
            }
            self.blocked.push(ip);
            i += 1;
        }
        proof {
            assert(search::texts(ips@).take(i as int) =~= search::texts(ips@));
        }
        let ghost all = connections(self.users@);
        let ghost blocked = search::texts(self.blocked@);
        let mut kept: Vec<(String, OnlineUser)> = Vec::new();
        let mut k: usize = 0;
        proof {
            assert(all.take(0) =~= seq![]);
            assert(connections(kept@) =~= seq![]);
        }
        while k < self.users.len()
            invariant
                k <= self.users@.len(),
                all == connections(self.users@),
                blocked == search::texts(self.blocked@),
                connections(kept@) == unblocked(all.take(k as int), blocked),
            decreases self.users@.len() - k,
        {
            proof {
                assert(all.take(k + 1).drop_last() =~= all.take(k as int));
                assert(all.take(k + 1).last() == all[k as int]);
            }
            if !contains_text(&self.blocked, self.users[k].1.ip.as_str()) {
                let ghost so_far = kept@;
                let name = self.users[k].0.as_str().to_owned();
                let user = self.users[k].1.copied();
                kept.push((name, user));
                proof {
                    assert(connections(kept@) =~= connections(so_far).push((name@, user@)));
                }
            }
            k += 1;
        }
        proof {
            assert(all.take(k as int) =~= all);
            lemma_unblocked(all, blocked);
        }
        self.users = kept;
    }
}

proof fn lemma_user_inserted(s: Seq<OnlineView>, i: int, x: OnlineView)
    requires
        0 <= i <= s.len(),
        in_order_of_time(s),
        forall|k: int| 0 <= k < i ==> (#[trigger] s[k]).connected_at <= x.connected_at,
        i < s.len() ==> s[i].connected_at > x.connected_at,
    ensures
        in_order_of_time(s.insert(i, x)),
        s.insert(i, x).to_multiset() == s.to_multiset().insert(x),
{
    let t = s.insert(i, x);
    assert forall|a: int, b: int| 0 <= a <= b < t.len() implies (#[trigger] t[a]).connected_at <= (
    #[trigger] t[b]).connected_at by {
        if a < i && b < i {
            assert(s[a].connected_at <= s[b].connected_at);
        } else if a < i && b == i {
            assert(s[a].connected_at <= x.connected_at);
        } else if a < i {
            assert(s[a].connected_at <= s[b - 1].connected_at);
        } else if a == i && b > i {
            assert(s[i].connected_at <= s[b - 1].connected_at);
        } else if a > i {
            assert(s[a - 1].connected_at <= s[b - 1].connected_at);
        }
    }
    sorting::lemma_inserted(s, i, x);
}

/// Once addresses are blocked, nobody is online from a blocked one.
pub proof fn nobody_is_online_from_a_blocked_address(
    v: Seq<(Seq<char>, OnlineView)>,
    blocked: Seq<Seq<char>>,
    i: int,
)
    requires
        0 <= i < unblocked(v, blocked).len(),
    ensures
        !blocked.contains(unblocked(v, blocked)[i].1.ip),
    decreases v.len(),
{
    if i < unblocked(v.drop_last(), blocked).len() {
        nobody_is_online_from_a_blocked_address(v.drop_last(), blocked, i);
    }
}

/// A connection that ends leaves those online as they were before it began.
pub proof fn leaving_undoes_coming(
    v: Seq<(Seq<char>, OnlineView)>,
    id: Seq<char>,
    user: OnlineView,
)
    requires
        connection_at(v, id, 0) == v.len(),
    ensures
        connection_at(v.push((id, user)), id, 0) == v.len(),
        v.push((id, user)).remove(v.len() as int) == v,
        without_connection(with_connection(v, id, user), id) == v,
{
    let w = v.push((id, user));
    lemma_connection_at(v, id, 0);
    lemma_connection_at(w, id, 0);
    let i = connection_at(w, id, 0);
    if i < v.len() {
        assert(w[i] == v[i]);
    }
    assert(w[v.len() as int].0 == id);
    assert(w.remove(v.len() as int) =~= v);
}

/// Whoever comes by a connection is online by it, once, and all who are online by
/// another connection stay.
pub proof fn whoever_comes_is_online(
    v: Seq<(Seq<char>, OnlineView)>,
    id: Seq<char>,
    user: OnlineView,
    other: (Seq<char>, OnlineView),
)
    requires
        distinct_connections(v),
        other.0 != id,
    ensures
        ({
            let after = with_connection(v, id, user);
            &&& after.contains((id, user))
            &&& forall|i: int|
                0 <= i < after.len() && (#[trigger] after[i]).0 == id ==> after[i].1 == user
            &&& after.contains(other) <==> v.contains(other)
            &&& distinct_connections(after)
        }),
{
    lemma_connection_at(v, id, 0);
    let at = connection_at(v, id, 0);
    let after = with_connection(v, id, user);
    assert(after[at] == (id, user));
    assert forall|i: int|
        0 <= i < after.len() && (#[trigger] after[i]).0 == id implies after[i].1 == user by {
        if i != at {
            assert(v[i].0 == id);
            if at < v.len() {
                assert(v[at].0 == id);
            }
        }
    }
    if v.contains(other) {
        let k = choose|k: int| 0 <= k < v.len() && v[k] == other;
        assert(after[k] == other);
    }
    if after.contains(other) {
        let k = choose|k: int| 0 <= k < after.len() && after[k] == other;
        assert(v[k] == other);
    }
    assert forall|i: int, j: int| 0 <= i < j < after.len() implies (#[trigger] after[i]).0 != (
    #[trigger] after[j]).0 by {
        if i != at && j != at {
            assert(v[i].0 != v[j].0);
        } else if j == at {
            assert(v[i].0 != id) by {
                if at < v.len() {
                    assert(v[i].0 != v[at].0);
                }
            }
        } else {
            assert(v[at].0 != v[j].0);
        }
    }
}

/// Once a connection has ended nobody is online by it, and all others stay.
pub proof fn whoever_leaves_is_gone(
    v: Seq<(Seq<char>, OnlineView)>,
    id: Seq<char>,
    other: (Seq<char>, OnlineView),
)
    requires
        distinct_connections(v),
        other.0 != id,
    ensures
        ({
            let after = without_connection(v, id);
            &&& forall|i: int| 0 <= i < after.len() ==> (#[trigger] after[i]).0 != id
            &&& after.contains(other) <==> v.contains(other)
        }),
{
    lemma_connection_at(v, id, 0);
    let at = connection_at(v, id, 0);
    let after = without_connection(v, id);
    assert forall|i: int| 0 <= i < after.len() implies (#[trigger] after[i]).0 != id by {
        if at < v.len() {
            let k = if i < at {
                i
            } else {
                i + 1
            };
            assert(after[i] == v[k]);
            assert(v[at].0 == id);
            if k < at {
                assert(v[k].0 != v[at].0);
            } else {
                assert(v[at].0 != v[k].0);
            }
        } else {
            assert(v[i].0 != id);
        }
    }
    if v.contains(other) {
        let k = choose|k: int| 0 <= k < v.len() && v[k] == other;
        if at < v.len() && k > at {
            assert(after[k - 1] == other);
        } else {
            assert(after[k] == other);
        }
    }
    if after.contains(other) {
        let k = choose|k: int| 0 <= k < after.len() && after[k] == other;
        if at < v.len() && k >= at {
            assert(v[k + 1] == other);
        } else {
            assert(v[k] == other);
        }
    }
}

/// Blocking addresses ends exactly the connections from them.
pub proof fn blocking_ends_connections_from_there(
    v: Seq<(Seq<char>, OnlineView)>,
    blocked: Seq<Seq<char>>,
)
    ensures
        unblocked(v, blocked) == v.filter(
            |e: (Seq<char>, OnlineView)| !blocked.contains(e.1.ip),
        ),
    decreases v.len(),
{
    reveal(Seq::filter);
    if v.len() > 0 {
        blocking_ends_connections_from_there(v.drop_last(), blocked);
    }
}

/// A page begins behind as many as are passed over and shows as many as are asked
/// for, or as are left; what stands on it is what stands there in the whole.
pub proof fn pages_show_what_is_asked_for<A>(v: Seq<A>, limit: u64, offset: u64)
    ensures
        offset >= v.len() ==> page(v, limit, offset).len() == 0,
        offset < v.len() && offset + limit <= v.len() ==> page(v, limit, offset).len() == limit,
        offset < v.len() && offset + limit > v.len() ==> page(v, limit, offset).len() == v.len()
            - offset,
        forall|i: int|
            0 <= i < page(v, limit, offset).len() ==> #[trigger] page(v, limit, offset)[i]
                == v[offset + i],
{
}

/// Pages that follow each other show everything, once.
pub proof fn pages_follow_each_other<A>(v: Seq<A>, limit: u64, offset: u64)
    requires
        offset + limit <= v.len(),
        offset + limit <= u64::MAX,
        v.len() <= u64::MAX,
    ensures
        page(v, limit, offset) + page(v, v.len() as u64, (offset + limit) as u64) == page(
            v,
            v.len() as u64,
            offset,
        ),
{
    assert(page(v, limit, offset) + page(v, v.len() as u64, (offset + limit) as u64) =~= page(
        v,
        v.len() as u64,
        offset,
    ));
}

/// Whoever came first stands first.
pub proof fn who_came_first_stands_first(v: Seq<OnlineView>, i: int, j: int)
    requires
        in_order_of_time(v),
        0 <= i < v.len(),
        0 <= j < v.len(),
        v[i].connected_at < v[j].connected_at,
    ensures
        i < j,
{
    if j <= i {
        assert(v[j].connected_at <= v[i].connected_at);
    }
}

} // verus!
