//! What the pages show to guests, to users and to administrators.
use vstd::prelude::*;

use crate::access;
use crate::access::{Claims, Owned, owner_is_permitted, visible_ids};
use crate::alerts::StatsView;
use crate::model::{NamedResource, PublicServer, ServerGroupResource};

verus! {

/// A group of servers as it is shown.
pub struct GroupView {
    pub group: NamedResource,
    pub servers: Seq<u64>,
}

pub open spec fn group_view(g: ServerGroupResource) -> GroupView {
    GroupView { group: g.group, servers: g.servers@ }
}

pub open spec fn group_views(v: Seq<ServerGroupResource>) -> Seq<GroupView> {
    v.map_values(|g: ServerGroupResource| group_view(g))
}

/// The groups of servers that are shown: all to administrators, to a user the
/// ones they own, and to guests all, with the servers that guests may see.
pub open spec fn shown_groups(
    groups: Seq<ServerGroupResource>,
    servers: Seq<PublicServer>,
    claims: Option<&Claims>,
) -> Seq<GroupView>
    decreases groups.len(),
{
    if groups.len() == 0 {
        seq![]
    } else {
        let before = shown_groups(groups.drop_last(), servers, claims);
        let g = group_view(groups.last());
        match claims {
            Some(c) => if access::permits(*c, g.group.user_id) {
                before.push(g)
            } else {
                before
            },
            None => before.push(
                GroupView {
                    group: g.group,
                    servers: access::seen_ids(claims, servers, g.servers),
                },
            ),
        }
    }
}

/// The groups of servers that are shown.
pub fn filter_server_groups(
    groups: Vec<ServerGroupResource>,
    servers: &[PublicServer],
    claims: Option<&Claims>,
) -> (r: Vec<ServerGroupResource>)
    ensures
        group_views(r@) == shown_groups(groups@, servers@, claims),
{
    let ghost all = groups@;
    let mut out: Vec<ServerGroupResource> = Vec::new();
    proof {
        assert(all.take(0) =~= seq![]);
        assert(group_views(out@) =~= seq![]);
    }
    for item in it: groups
        invariant
            it.seq() == all,
            group_views(out@) == shown_groups(all.take(it.index() as int), servers@, claims),
    {
        let ghost before = out@;
        proof {
            assert(all.take(it.index() + 1).drop_last() =~= all.take(it.index() as int));
        }
        match claims {
            Some(c) => {
                if owner_is_permitted(c, item.group.user_id) {
                    out.push(item);
                    proof {
                        assert(group_views(out@) =~= group_views(before).push(group_view(item)));
                    }
                }
            },
            None => {
                let kept = visible_ids(claims, servers, &item.servers);
                let shown = ServerGroupResource { group: item.group, servers: kept };
                out.push(shown);
                proof {
                    assert(group_views(out@) =~= group_views(before).push(group_view(shown)));
                }
            },
        }
    }
    proof {
        assert(all.take(all.len() as int) =~= all);
    }
    out
}

/// A server as it is streamed. Where `hide_host` is set, only the general part
/// of what is known of its machine is sent.
pub struct StreamedServer {
    pub server: PublicServer,
    pub hide_host: bool,
}

/// The user who looks; nobody is 0.
pub open spec fn viewer(claims: Option<&Claims>) -> u64 {
    match claims {
        Some(c) => c.uid,
        None => 0,
    }
}

pub open spec fn views_as_admin(claims: Option<&Claims>) -> bool {
    claims is Some && access::is_administrator(*claims->0)
}

/// Whether a server is streamed to the one who looks.
pub open spec fn is_streamed(claims: Option<&Claims>, server: PublicServer) -> bool {
    views_as_admin(claims) || (viewer(claims) != 0 && viewer(claims) == server.user_id)
        || !server.hide_for_guest
}

/// The servers that are streamed.
pub open spec fn streamed(servers: Seq<PublicServer>, claims: Option<&Claims>) -> Seq<PublicServer>
    decreases servers.len(),
{
    if servers.len() == 0 {
        seq![]
    } else {
        let before = streamed(servers.drop_last(), claims);
        if is_streamed(claims, servers.last()) {
            before.push(servers.last())
        } else {
            before
        }
    }
}

/// Whether `s` is how a server is streamed: only its owner and administrators
/// are told all of its machine, and its public note is left out where it is
/// not asked for.
pub open spec fn streams(
    s: StreamedServer,
    server: PublicServer,
    claims: Option<&Claims>,
    with_public_note: bool,
) -> bool {
    &&& s.hide_host == (!views_as_admin(claims) && viewer(claims) != server.user_id)
    &&& s.server.public_note@ == if with_public_note {
        server.public_note@
    } else {
        seq![]
    }
    &&& s.server == (PublicServer { public_note: s.server.public_note, ..server })
}

/// The servers that are streamed to the one who looks.
pub fn server_stream_frame(
    servers: Vec<PublicServer>,
    claims: Option<&Claims>,
    with_public_note: bool,
) -> (r: Vec<StreamedServer>)
    ensures
        r@.len() == streamed(servers@, claims).len(),
        forall|i: int|
            0 <= i < r@.len() ==> streams(
                #[trigger] r@[i],
                streamed(servers@, claims)[i],
                claims,
                with_public_note,
            ),
{
    let viewer_user_id: u64 = match claims {
        Some(c) => c.uid,
        None => 0,
    };
    let viewer_is_admin: bool = match claims {
        Some(c) => c.role == 0,
        None => false,
    };
    let ghost all = servers@;
    let mut out: Vec<StreamedServer> = Vec::new();
    proof {
        assert(all.take(0) =~= seq![]);
    }
    for item in it: servers
        invariant
            it.seq() == all,
            viewer_user_id == viewer(claims),
            viewer_is_admin == views_as_admin(claims),
            out@.len() == streamed(all.take(it.index() as int), claims).len(),
            forall|i: int|
                0 <= i < out@.len() ==> streams(
                    #[trigger] out@[i],
                    streamed(all.take(it.index() as int), claims)[i],
                    claims,
                    with_public_note,
                ),
    {
        proof {
            assert(all.take(it.index() + 1).drop_last() =~= all.take(it.index() as int));
        }
        if viewer_is_admin || (viewer_user_id != 0 && viewer_user_id == item.user_id)
            || !item.hide_for_guest {
            let hide_host = !viewer_is_admin && viewer_user_id != item.user_id;
            let mut server = item;
            if !with_public_note {
                server.public_note = String::new();
                proof {
                    assert(server.public_note@ =~= seq![]);
                }
            }
            out.push(StreamedServer { server, hide_host });
        }
    }
    proof {
        assert(all.take(all.len() as int) =~= all);
    }
    out
}

/// Whoever asks is given only what they may change.
pub proof fn given_items_are_permitted<T: Owned>(items: Seq<T>, claims: Claims, i: int)
    requires
        0 <= i < access::permitted_items(items, claims).len(),
    ensures
        access::permits(claims, access::permitted_items(items, claims)[i].owner_of()),
        items.contains(access::permitted_items(items, claims)[i]),
    decreases items.len(),
{
    let before = access::permitted_items(items.drop_last(), claims);
    if i < before.len() {
        given_items_are_permitted(items.drop_last(), claims, i);
        let k = choose|k: int|
            0 <= k < items.drop_last().len() && items.drop_last()[k] == before[i];
        assert(items[k] == before[i]);
    } else {
        assert(items[items.len() - 1] == access::permitted_items(items, claims)[i]);
    }
}

/// Administrators are given everything.
pub proof fn administrators_are_given_all<T: Owned>(items: Seq<T>, claims: Claims)
    requires
        access::is_administrator(claims),
    ensures
        access::permitted_items(items, claims) == items,
    decreases items.len(),
{
    if items.len() > 0 {
        administrators_are_given_all(items.drop_last(), claims);
        assert(items.drop_last().push(items.last()) =~= items);
    } else {
        assert(access::permitted_items(items, claims) =~= items);
    }
}

/// A server that is hidden from guests is streamed to no guest.
pub proof fn hidden_servers_are_not_streamed_to_guests(servers: Seq<PublicServer>, i: int)
    requires
        0 <= i < streamed(servers, None).len(),
    ensures
        !streamed(servers, None)[i].hide_for_guest,
    decreases servers.len(),
{
    let before = streamed(servers.drop_last(), None);
    if i < before.len() {
        hidden_servers_are_not_streamed_to_guests(servers.drop_last(), i);
    }
}

/// Nothing is published of a cycle's transfer about a server that the one who
/// asks may not see.
pub proof fn cycles_tell_of_seen_servers(
    stats: Map<u64, StatsView>,
    claims: Option<&Claims>,
    servers: Seq<PublicServer>,
    alert: u64,
    server: u64,
)
    requires
        access::seen_cycles(stats, claims, servers).contains_key(alert),
        !access::sees(claims, servers, server),
    ensures
        !access::seen_cycles(stats, claims, servers)[alert].server_name.contains_key(server),
        !access::seen_cycles(stats, claims, servers)[alert].transfer.contains_key(server),
        !access::seen_cycles(stats, claims, servers)[alert].next_update.contains_key(server),
{
}

/// An administrator is streamed every server, a user their own and those that are
/// not hidden, a guest those that are not hidden; all in their order.
pub proof fn servers_are_streamed_to_whom_they_are_shown(
    servers: Seq<PublicServer>,
    claims: Claims,
)
    requires
        claims.uid != 0,
    ensures
        streamed(servers, None) == servers.filter(|s: PublicServer| !s.hide_for_guest),
        streamed(servers, Some(&claims)) == servers.filter(
            |s: PublicServer| claims.role == 0 || claims.uid == s.user_id || !s.hide_for_guest,
        ),
    decreases servers.len(),
{
    reveal(Seq::filter);
    if servers.len() > 0 {
        servers_are_streamed_to_whom_they_are_shown(servers.drop_last(), claims);
    }
}

/// Only administrators and the owner of a server are told all of its machine; the
/// server itself is streamed as it is, but for its note where that is not asked
/// for.
pub proof fn machines_are_told_to_their_owner(
    s: StreamedServer,
    server: PublicServer,
    claims: Claims,
    with_public_note: bool,
)
    ensures
        streams(s, server, None, with_public_note) && server.user_id != 0 ==> s.hide_host,
        streams(s, server, Some(&claims), with_public_note) ==> (s.hide_host <==> claims.role != 0
            && claims.uid != server.user_id),
        streams(s, server, Some(&claims), true) ==> s.server.public_note@ == server.public_note@,
        streams(s, server, Some(&claims), false) ==> s.server.public_note@.len() == 0,
        streams(s, server, Some(&claims), with_public_note) ==> s.server.id == server.id
            && s.server.name == server.name && s.server.state == server.state,
{
}

/// A guest is shown every group with the servers that guests see, an administrator
/// every group as it is, and a user the groups that they own.
pub proof fn groups_are_shown_to_their_owner(
    groups: Seq<ServerGroupResource>,
    servers: Seq<PublicServer>,
    claims: Claims,
)
    ensures
        claims.role == 0 ==> shown_groups(groups, servers, Some(&claims)) == groups.map_values(
            |g: ServerGroupResource| group_view(g),
        ),
        claims.role != 0 ==> shown_groups(groups, servers, Some(&claims)) == groups.filter(
            |g: ServerGroupResource| g.group.user_id == claims.uid,
        ).map_values(|g: ServerGroupResource| group_view(g)),
        shown_groups(groups, servers, None) == groups.map_values(
            |g: ServerGroupResource|
                GroupView {
                    group: g.group,
                    servers: g.servers@.filter(|id: u64| access::sees(None, servers, id)),
                },
        ),
    decreases groups.len(),
{
    reveal(Seq::filter);
    if groups.len() > 0 {
        groups_are_shown_to_their_owner(groups.drop_last(), servers, claims);
        access::shown_numbers_are_those_seen(None, servers, groups.last().servers@);
    }
    if claims.role == 0 {
        assert(shown_groups(groups, servers, Some(&claims)) =~= groups.map_values(
            |g: ServerGroupResource| group_view(g),
        ));
    } else {
        assert(shown_groups(groups, servers, Some(&claims)) =~= groups.filter(
            |g: ServerGroupResource| g.group.user_id == claims.uid,
        ).map_values(|g: ServerGroupResource| group_view(g)));
    }
    assert(shown_groups(groups, servers, None) =~= groups.map_values(
        |g: ServerGroupResource|
            GroupView {
                group: g.group,
                servers: g.servers@.filter(|id: u64| access::sees(None, servers, id)),
            },
    ));
}

} // verus!
