//! Streams between a user and an agent: who may take part, and how a stream
//! names itself.
use vstd::prelude::*;

use crate::jsontext;
use crate::jsontext::quote;
use crate::text::{concat2, same};

verus! {

/// The bytes that every stream starts with.
pub open spec fn stream_magic() -> Seq<u8> {
    seq![0xffu8, 0x05, 0xff, 0x05]
}

/// Whether data starts as a stream does.
pub fn is_valid_stream_magic(data: &[u8]) -> (r: bool)
    ensures
        r == stream_magic().is_prefix_of(data@),
{
    let r: bool = data.len() >= 4 && data[0] == 0xff && data[1] == 0x05 && data[2] == 0xff
        && data[3] == 0x05;
    proof {
        let m = stream_magic();
        if data@.len() >= 4 {
            let head = data@.subrange(0, 4);
            if r {
                assert(head =~= m);
            } else if head == m {
                assert(head[0] == m[0] && head[1] == m[1] && head[2] == m[2] && head[3] == m[3]);
            }
        }
    }
    r
}

/// Calls `String::from_utf8`: the text whose bytes these are, where they are
/// those of a text.
#[verifier::external_body]
pub(crate) fn text_from_utf8(bytes: Vec<u8>) -> (r: Option<String>)
    ensures
        r is Some <==> vstd::utf8::valid_utf8(bytes@),
        r matches Some(s) ==> vstd::utf8::encode_utf8(s@) == bytes@,
{
    String::from_utf8(bytes).ok()
}

/// The name of a stream, from what its agent sends first: the bytes behind the
/// start, where there are any and they are text.
pub open spec fn init_id(data: Seq<u8>) -> Option<Seq<char>> {
    if stream_magic().is_prefix_of(data) && data.len() > 4 && vstd::utf8::valid_utf8(data.skip(4)) {
        Some(vstd::utf8::decode_utf8(data.skip(4)))
    } else {
        None
    }
}

/// The text in `s`.
pub open spec fn text_opt(s: Option<String>) -> Option<Seq<char>> {
    match s {
        Some(t) => Some(t@),
        None => None,
    }
}

/// The name of a stream, from what its agent sends first.
pub fn stream_id_from_init(data: &[u8]) -> (r: Option<String>)
    ensures
        text_opt(r) == init_id(data@),
{
    if !is_valid_stream_magic(data) || data.len() == 4 {
        return None;
    }
    let mut rest: Vec<u8> = Vec::new();
    let mut i: usize = 4;
    while i < data.len()
        invariant
            4 <= i <= data@.len(),
            rest@ == data@.subrange(4, i as int),
        decreases data@.len() - i,
    {
        proof {
            assert(data@.subrange(4, i + 1) =~= data@.subrange(4, i as int).push(data@[i as int]));
        }
        rest.push(data[i]);
        i += 1;
    }
    proof {
        assert(rest@ =~= data@.skip(4));
    }
    let id = text_from_utf8(rest);
    proof {
        if id is Some {
            vstd::utf8::encode_utf8_decode_utf8(id->0@);
        }
    }
    id
}

/// A stream: who opened it, and the server whose agent it is for.
#[derive(Debug, Clone, Copy, PartialEq, Eq, Structural)]
pub struct IoStreamSession {
    pub creator_user_id: u64,
    pub target_server_id: u64,
}

/// Whether the agent of a server may take part in a stream.
pub open spec fn session_is_for(session: IoStreamSession, server_id: u64) -> bool {
    session.target_server_id != 0 && session.target_server_id == server_id
}

impl IoStreamSession {
    /// Whether the agent of a server may take part.
    pub fn is_authorized_for_agent(&self, server_id: u64) -> (r: bool)
        ensures
            r == session_is_for(*self, server_id),
    {
        self.target_server_id != 0 && self.target_server_id == server_id
    }
}

/// The open streams by name.
pub struct IoStreamRegistry {
    pub streams: Vec<(String, IoStreamSession)>,
}

/// The stream of that name.
pub open spec fn stream_named(streams: Seq<(String, IoStreamSession)>, id: Seq<char>) -> Option<
    IoStreamSession,
>
    decreases streams.len(),
{
    if streams.len() == 0 {
        None
    } else if streams.last().0@ == id {
        Some(streams.last().1)
    } else {
        stream_named(streams.drop_last(), id)
    }
}

/// Whether `after` is what is open once a stream was opened.
pub open spec fn is_opened(
    before: IoStreamRegistry,
    after: IoStreamRegistry,
    name: Seq<char>,
    creator_user_id: u64,
    target_server_id: u64,
) -> bool {
    forall|id: Seq<char>| #[trigger]
        after.stream(id) == if id == name {
            Some(IoStreamSession { creator_user_id, target_server_id })
        } else {
            before.stream(id)
        }
}

/// Whether `after` is what is open once a stream was closed.
pub open spec fn is_closed(before: IoStreamRegistry, after: IoStreamRegistry, name: Seq<char>) -> bool {
    forall|id: Seq<char>| #[trigger]
        after.stream(id) == if id == name {
            None
        } else {
            before.stream(id)
        }
}

impl IoStreamRegistry {
    /// The stream of that name.
    pub open spec fn stream(self, id: Seq<char>) -> Option<IoStreamSession> {
        stream_named(self.streams@, id)
    }

    /// Whether a user may take part in a stream.
    pub open spec fn admits(self, id: Seq<char>, user_id: u64, is_admin: bool) -> bool {
        self.stream(id) matches Some(s) && (is_admin || s.creator_user_id == user_id)
    }

    /// No streams.
    pub fn new() -> (r: IoStreamRegistry)
        ensures
            forall|id: Seq<char>| #[trigger] r.stream(id) == None::<IoStreamSession>,
    {
        IoStreamRegistry { streams: Vec::new() }
    }

    /// Opens a stream; one of the same name is replaced.
    pub fn create_stream(
        &mut self,
        stream_id: String,
        creator_user_id: u64,
        target_server_id: u64,
    )
        ensures
            is_opened(
                *old(self),
                *final(self),
                stream_id@,
                creator_user_id,
                target_server_id,
            ),
    {
        self.close_stream(stream_id.as_str());
        let ghost closed = *self;
        let ghost name = stream_id@;
        self.streams.push((stream_id, IoStreamSession { creator_user_id, target_server_id }));
        proof {
            assert(self.streams@.drop_last() =~= closed.streams@);
            assert forall|id: Seq<char>| #[trigger]
                self.stream(id) == (if id == name {
                    Some(IoStreamSession { creator_user_id, target_server_id })
                } else {
                    old(self).stream(id)
                }) by {
                assert(closed.stream(id) == (if id == name {
                    None
                } else {
                    old(self).stream(id)
                }));
            }
        }
    }

    /// The stream of that name.
    pub fn get_stream(&self, stream_id: &str) -> (r: Option<IoStreamSession>)
        ensures
            r == self.stream(stream_id@),
    {
        let mut n: usize = self.streams.len();
        proof {
            assert(self.streams@.take(n as int) =~= self.streams@);
        }
        while n > 0
            invariant
                n <= self.streams@.len(),
                stream_named(self.streams@.take(n as int), stream_id@) == self.stream(stream_id@),
            decreases n,
        {
            proof {
                assert(self.streams@.take(n as int).drop_last() =~= self.streams@.take(n - 1));
            }
            if same(self.streams[n - 1].0.as_str(), stream_id) {
                return Some(self.streams[n - 1].1);
            }
            n -= 1;
        }
        None
    }

    /// Closes the stream of that name.
    pub fn close_stream(&mut self, stream_id: &str)
        ensures
            is_closed(*old(self), *final(self), stream_id@),
    {
        let mut kept: Vec<(String, IoStreamSession)> = Vec::new();
        let mut i: usize = 0;
        while i < self.streams.len()
            invariant
                i <= self.streams@.len(),
                self.streams == old(self).streams,
                forall|id: Seq<char>| #[trigger]
                    stream_named(kept@, id) == if id == stream_id@ {
                        None
                    } else {
                        stream_named(self.streams@.take(i as int), id)
                    },
            decreases self.streams@.len() - i,
        {
            let ghost before = kept@;
            proof {
                assert(self.streams@.take(i + 1).drop_last() =~= self.streams@.take(i as int));
            }
            if !same(self.streams[i].0.as_str(), stream_id) {
                kept.push((self.streams[i].0.clone(), self.streams[i].1));
                proof {
                    assert(kept@.drop_last() =~= before);
                    assert forall|id: Seq<char>| #[trigger]
                        stream_named(kept@, id) == (if id == stream_id@ {
                            None
                        } else {
                            stream_named(self.streams@.take(i + 1), id)
                        }) by {
                        assert(stream_named(before, id) == (if id == stream_id@ {
                            None
                        } else {
                            stream_named(self.streams@.take(i as int), id)
                        }));
                    }
                }
            } else {
                proof {
                    assert forall|id: Seq<char>| #[trigger]
                        stream_named(kept@, id) == (if id == stream_id@ {
                            None
                        } else {
                            stream_named(self.streams@.take(i + 1), id)
                        }) by {
                        assert(stream_named(before, id) == (if id == stream_id@ {
                            None
                        } else {
                            stream_named(self.streams@.take(i as int), id)
                        }));
                    }
                }
            }
            i += 1;
        }
        proof {
            assert(self.streams@.take(self.streams@.len() as int) =~= self.streams@);
        }
        self.streams = kept;
    }

    /// Whether a user may take part in a stream: whoever opened it, and
    /// administrators. There is no part in a stream that is not open.
    pub fn is_stream_authorized_for_user(
        &self,
        stream_id: &str,
        user_id: u64,
        is_admin: bool,
    ) -> (r: bool)
        ensures
            r == self.admits(stream_id@, user_id, is_admin),
    {
        match self.get_stream(stream_id) {
            Some(s) => is_admin || s.creator_user_id == user_id,
            None => false,
        }
    }
}

/// What an agent is answered that asks for a stream.
#[derive(Debug, Clone, Copy, PartialEq, Eq, Structural)]
pub enum StreamAnswer {
    MissingId,
    InvalidId,
    NotFound,
    NotAuthorized,
    AlreadyConnected,
    Connected,
}

/// What an agent of the server `server_id` is answered that asks for the stream
/// `id`; `taken` tells whether another agent has it.
pub open spec fn stream_answer(
    registry: IoStreamRegistry,
    id: Option<Seq<char>>,
    server_id: u64,
    taken: bool,
) -> StreamAnswer {
    match id {
        None => StreamAnswer::InvalidId,
        Some(id) => match registry.stream(id) {
            None => StreamAnswer::NotFound,
            Some(s) => if !session_is_for(s, server_id) {
                StreamAnswer::NotAuthorized
            } else if taken {
                StreamAnswer::AlreadyConnected
            } else {
                StreamAnswer::Connected
            },
        },
    }
}

/// What an agent is answered whose first message is `init`; one that sends none
/// names no stream.
pub fn open_stream(
    registry: &IoStreamRegistry,
    init: Option<&[u8]>,
    server_id: u64,
    taken: bool,
) -> (r: StreamAnswer)
    ensures
        r == match init {
            None => StreamAnswer::MissingId,
            Some(data) => stream_answer(*registry, init_id(data@), server_id, taken),
        },
{
    match init {
        None => StreamAnswer::MissingId,
        Some(data) => match stream_id_from_init(data) {
            None => StreamAnswer::InvalidId,
            Some(id) => match registry.get_stream(id.as_str()) {
                None => StreamAnswer::NotFound,
                Some(s) => if !s.is_authorized_for_agent(server_id) {
                    StreamAnswer::NotAuthorized
                } else if taken {
                    StreamAnswer::AlreadyConnected
                } else {
                    StreamAnswer::Connected
                },
            },
        },
    }
}

/// A stream's own start and name read back as its name, whatever text it is.
pub proof fn stream_name_reads_back(id: Seq<char>)
    requires
        id.len() > 0,
    ensures
        init_id(stream_magic() + vstd::utf8::encode_utf8(id)) == Some(id),
{
    let bytes = vstd::utf8::encode_utf8(id);
    let data = stream_magic() + bytes;
    vstd::utf8::encode_utf8_decode_utf8(id);
    vstd::utf8::encode_utf8_valid_utf8(id);
    vstd::utf8::encode_utf8_first_scalar(id);
    assert(data.skip(4) =~= bytes);
    assert(data.subrange(0, 4) =~= stream_magic());
    if bytes.len() == 0 {
        assert(vstd::utf8::decode_utf8(bytes).len() == 0);
    }
}

/// No agent connects to a stream of another server.
pub proof fn agents_keep_to_their_server(
    registry: IoStreamRegistry,
    id: Seq<char>,
    server_id: u64,
    taken: bool,
)
    requires
        stream_answer(registry, Some(id), server_id, taken) == StreamAnswer::Connected,
    ensures
        registry.stream(id) matches Some(s) && s.target_server_id == server_id && server_id != 0,
{
}

/// What an agent is told so that it opens a stream.
pub fn stream_payload(stream_id: &str) -> (r: String)
    ensures
        r@ == "{\"StreamID\":"@ + jsontext::json_quoted(stream_id@) + "}"@,
{
    let id = quote(stream_id);
    let mut out = concat2("{\"StreamID\":", id.as_str());
    out.append("}");
    out
}

/// What an agent is told so that it opens a stream to a host of its network.
pub fn nat_payload(stream_id: &str, host: &str) -> (r: String)
    ensures
        r@ == "{\"Host\":"@ + jsontext::json_quoted(host@) + ",\"StreamID\":"@ + jsontext::json_quoted(stream_id@)
            + "}"@,
{
    let id = quote(stream_id);
    let name = quote(host);
    let mut out = concat2("{\"Host\":", name.as_str());
    out.append(",\"StreamID\":");
    out.append(id.as_str());
    out.append("}");
    out
}

/// The agent of a server connects exactly to the streams that are open for that
/// server and not taken; what stands in its way is told.
pub proof fn agents_connect_to_streams_for_them(
    registry: IoStreamRegistry,
    id: Seq<char>,
    session: IoStreamSession,
    server_id: u64,
    taken: bool,
)
    requires
        registry.stream(id) == Some(session),
        server_id != 0,
    ensures
        session.target_server_id == server_id && !taken ==> stream_answer(
            registry,
            Some(id),
            server_id,
            taken,
        ) == StreamAnswer::Connected,
        session.target_server_id == server_id && taken ==> stream_answer(
            registry,
            Some(id),
            server_id,
            taken,
        ) == StreamAnswer::AlreadyConnected,
        session.target_server_id != server_id ==> stream_answer(
            registry,
            Some(id),
            server_id,
            taken,
        ) == StreamAnswer::NotAuthorized,
        session_is_for(session, server_id) <==> session.target_server_id == server_id,
        !session_is_for(session, 0),
{
}

/// A stream that is not open admits nobody; an open one admits whoever opened it
/// and administrators, and no other.
pub proof fn streams_admit_who_opened_them(
    registry: IoStreamRegistry,
    id: Seq<char>,
    user_id: u64,
    is_admin: bool,
)
    ensures
        match registry.stream(id) {
            None => !registry.admits(id, user_id, is_admin) && forall|server_id: u64, taken: bool|
                stream_answer(registry, Some(id), server_id, taken) == StreamAnswer::NotFound,
            Some(s) => {
                &&& registry.admits(id, s.creator_user_id, is_admin)
                &&& registry.admits(id, user_id, true)
                &&& user_id != s.creator_user_id ==> !registry.admits(id, user_id, false)
            },
        },
{
}

/// Data that does not start as a stream does, or that ends there, names no stream.
pub proof fn other_data_names_no_stream(data: Seq<u8>)
    requires
        data.len() <= 4 || data[0] != 0xff || data[1] != 0x05 || data[2] != 0xff || data[3] != 0x05,
    ensures
        init_id(data) is None,
{
    let m = stream_magic();
    if m.is_prefix_of(data) {
        let head = data.subrange(0, 4);
        assert(head[0] == m[0] && head[1] == m[1] && head[2] == m[2] && head[3] == m[3]);
    }
}

/// A stream that was opened admits the agent of its server and the user who opened it, and
/// no longer once it is closed; other streams stay as they are.
pub proof fn streams_are_open_until_closed(
    before: IoStreamRegistry,
    opened: IoStreamRegistry,
    closed: IoStreamRegistry,
    name: Seq<char>,
    creator: u64,
    server: u64,
    other: Seq<char>,
)
    requires
        is_opened(before, opened, name, creator, server),
        is_closed(opened, closed, name),
        server != 0,
        other != name,
    ensures
        stream_answer(opened, Some(name), server, false) == StreamAnswer::Connected,
        opened.admits(name, creator, false),
        forall|user: u64| user != creator ==> !opened.admits(name, user, false),
        stream_answer(closed, Some(name), server, false) == StreamAnswer::NotFound,
        !closed.admits(name, creator, true),
        opened.stream(other) == before.stream(other),
        closed.stream(other) == before.stream(other),
{
}

} // verus!
