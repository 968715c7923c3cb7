//! The server side of a client connection: the client's UDP address, the
//! table of the tasks that forward a channel to each client, and the state
//! machine that answers a client's requests.
//!
//! The state machine decides; whoever owns the sockets performs each action
//! it names and hands the next event back.

use vstd::prelude::*;
use crate::client::{channel_list_of, reply_meaning, ServerReply};
use crate::protocol::{be_value, message_bytes, message_vec, CMD_HELLO, CMD_CHOOSE_CHANNEL, CMD_CONNECTED, CMD_CHANNEL_LIST, INVALID_CHANNEL, NUM_CHANNELS};

verus! {

/// The IP address of a client, as an integer.
#[derive(Clone, Copy, Debug, PartialEq, Eq, Structural)]
pub enum ClientIp {
    V4(u32),
    V6(u128),
}

/// The UDP address where a client receives its captions.
#[derive(Clone, Copy, Debug, PartialEq, Eq, Structural)]
pub struct ClientAddr {
    pub ip: ClientIp,
    pub port: u16,
}

/// No client occurs twice among the entries.
pub open spec fn keys_distinct<H>(s: Seq<(ClientAddr, H)>) -> bool {
    forall|i: int, j: int| 0 <= i < j < s.len() ==> #[trigger] s[i].0 != #[trigger] s[j].0
}

/// Whether some entry belongs to `client`.
pub open spec fn has_key<H>(s: Seq<(ClientAddr, H)>, client: ClientAddr) -> bool {
    exists|i: int| 0 <= i < s.len() && #[trigger] s[i].0 == client
}

/// The entries as a map from client to handle.
pub open spec fn entries_map<H>(s: Seq<(ClientAddr, H)>) -> Map<ClientAddr, H> {
    Map::new(
        |k: ClientAddr| has_key(s, k),
        |k: ClientAddr| s[choose|i: int| 0 <= i < s.len() && #[trigger] s[i].0 == k].1,
    )
}

/// In entries without repeated clients, the map holds entry `i`.
proof fn lemma_entry_in_map<H>(s: Seq<(ClientAddr, H)>, i: int)
    requires
        keys_distinct(s),
        0 <= i < s.len(),
    ensures
        entries_map(s).dom().contains(s[i].0),
        entries_map(s)[s[i].0] == s[i].1,
{
    let k = s[i].0;
    assert(has_key(s, k));
    let j = choose|j: int| 0 <= j < s.len() && #[trigger] s[j].0 == k;
    if j < i {
        assert(s[j].0 != s[i].0);
    } else if i < j {
        assert(s[i].0 != s[j].0);
    }
}

/// Removing entry `i` removes its client from the map and nothing else.
proof fn lemma_remove_entry<H>(s: Seq<(ClientAddr, H)>, i: int)
    requires
        keys_distinct(s),
        0 <= i < s.len(),
    ensures
        keys_distinct(s.remove(i)),
        entries_map(s.remove(i)) == entries_map(s).remove(s[i].0),
{
    let t = s.remove(i);
    let key = s[i].0;
    assert forall|a: int, b: int| 0 <= a < b < t.len() implies #[trigger] t[a].0 != #[trigger] t[b].0 by {
        let a2 = if a < i { a } else { a + 1 };
        let b2 = if b < i { b } else { b + 1 };
        assert(t[a] == s[a2]);
        assert(t[b] == s[b2]);
        assert(s[a2].0 != s[b2].0);
    }
    assert forall|k: ClientAddr| #[trigger] entries_map(t).dom().contains(k)
        == entries_map(s).remove(key).dom().contains(k) by {
        if has_key(t, k) {
            let j = choose|j: int| 0 <= j < t.len() && #[trigger] t[j].0 == k;
            let j2 = if j < i { j } else { j + 1 };
            assert(s[j2].0 == k);
            if j2 < i {
                assert(s[j2].0 != s[i].0);
            } else {
                assert(s[i].0 != s[j2].0);
            }
        }
        if has_key(s, k) && k != key {
            let j = choose|j: int| 0 <= j < s.len() && #[trigger] s[j].0 == k;
            let j2 = if j < i { j } else { j - 1 };
            assert(j != i);
            assert(t[j2].0 == k);
        }
    }
    assert forall|k: ClientAddr| #[trigger] entries_map(t).dom().contains(k) implies entries_map(
        t,
    )[k] == entries_map(s).remove(key)[k] by {
        let j = choose|j: int| 0 <= j < t.len() && #[trigger] t[j].0 == k;
        let j2 = if j < i { j } else { j + 1 };
        assert(t[j] == s[j2]);
        lemma_entry_in_map(t, j);
        lemma_entry_in_map(s, j2);
    }
    assert(entries_map(t) =~= entries_map(s).remove(key));
}

/// Appending an entry for a client that has none adds it to the map.
proof fn lemma_push_entry<H>(s: Seq<(ClientAddr, H)>, client: ClientAddr, handle: H)
    requires
        keys_distinct(s),
        !has_key(s, client),
    ensures
        keys_distinct(s.push((client, handle))),
        entries_map(s.push((client, handle))) == entries_map(s).insert(client, handle),
{
    let t = s.push((client, handle));
    assert forall|a: int, b: int| 0 <= a < b < t.len() implies #[trigger] t[a].0 != #[trigger] t[b].0 by {
        if b == s.len() {
            assert(t[a] == s[a]);
            assert(s[a].0 != client);
        } else {
            assert(t[a] == s[a]);
            assert(t[b] == s[b]);
        }
    }
    assert forall|k: ClientAddr| #[trigger] entries_map(t).dom().contains(k)
        == entries_map(s).insert(client, handle).dom().contains(k) by {
        if has_key(t, k) && k != client {
            let j = choose|j: int| 0 <= j < t.len() && #[trigger] t[j].0 == k;
            assert(j < s.len());
            assert(s[j].0 == k);
        }
        if has_key(s, k) {
            let j = choose|j: int| 0 <= j < s.len() && #[trigger] s[j].0 == k;
            assert(t[j].0 == k);
        }
        if k == client {
            assert(t[s.len() as int].0 == k);
        }
    }
    assert forall|k: ClientAddr| #[trigger] entries_map(t).dom().contains(k) implies entries_map(
        t,
    )[k] == entries_map(s).insert(client, handle)[k] by {
        let j = choose|j: int| 0 <= j < t.len() && #[trigger] t[j].0 == k;
        lemma_entry_in_map(t, j);
        if j < s.len() {
            assert(t[j] == s[j]);
            lemma_entry_in_map(s, j);
        }
    }
    assert(entries_map(t) =~= entries_map(s).insert(client, handle));
}

/// The forwarding tasks of the server, one at most for each client address.
pub struct SubscriptionTable<H> {
    entries: Vec<(ClientAddr, H)>,
}

impl<H> View for SubscriptionTable<H> {
    type V = Map<ClientAddr, H>;

    closed spec fn view(&self) -> Map<ClientAddr, H> {
        entries_map(self.entries@)
    }
}

impl<H> SubscriptionTable<H> {
    #[verifier::type_invariant]
    closed spec fn no_client_twice(self) -> bool {
        keys_distinct(self.entries@)
    }

    /// An empty table.
    pub fn new() -> (table: Self)
        ensures
            table@ == Map::<ClientAddr, H>::empty(),
    {
        let table = SubscriptionTable { entries: Vec::new() };
        assert(table@ =~= Map::<ClientAddr, H>::empty());
        table
    }

    /// Where in the entries `client` stands, if anywhere.
    fn position(&self, client: &ClientAddr) -> (pos: Option<usize>)
        ensures
            match pos {
                Some(i) => i < self.entries@.len() && self.entries@[i as int].0 == *client,
                None => !has_key(self.entries@, *client),
            },
    {
        let mut i: usize = 0;
        while i < self.entries.len()
            invariant
                i <= self.entries@.len(),
                forall|j: int| 0 <= j < i ==> #[trigger] self.entries@[j].0 != *client,
            decreases self.entries@.len() - i,
        {
            if self.entries[i].0 == *client {
                return Some(i);
            }
            i = i + 1;
        }
        None
    }

    /// Whether `client` has a forwarding task.
    pub fn contains(&self, client: &ClientAddr) -> (found: bool)
        ensures
            found == self@.dom().contains(*client),
    {
        self.position(client).is_some()
    }

    /// Number of clients with a forwarding task.
    pub fn len(&self) -> (n: usize)
        ensures
            n == self@.dom().len(),
    {
        proof {
            use_type_invariant(self);
            lemma_map_len(self.entries@);
        }
        self.entries.len()
    }

    /// Takes the task of `client` out of the table, and returns it.
    pub fn remove(&mut self, client: &ClientAddr) -> (handle: Option<H>)
        ensures
            final(self)@ == old(self)@.remove(*client),
            handle == (if old(self)@.dom().contains(*client) {
                Some(old(self)@[*client])
            } else {
                None::<H>
            }),
    {
        proof {
            use_type_invariant(&*self);
        }
        match self.position(client) {
            Some(i) => {
                proof {
                    lemma_entry_in_map(self.entries@, i as int);
                    lemma_remove_entry(self.entries@, i as int);
                }
                let mut entries: Vec<(ClientAddr, H)> = Vec::new();
                std::mem::swap(&mut entries, &mut self.entries);
                let entry = entries.remove(i);
                self.entries = entries;
                Some(entry.1)
            },
            None => {
                assert(self@ =~= self@.remove(*client));
                None
            },
        }
    }

    /// Gives `client` the task `handle`, and returns the task it had before.
    pub fn insert(&mut self, client: ClientAddr, handle: H) -> (previous: Option<H>)
        ensures
            final(self)@ == old(self)@.insert(client, handle),
            previous == (if old(self)@.dom().contains(client) {
                Some(old(self)@[client])
            } else {
                None::<H>
            }),
    {
        let previous = self.remove(&client);
        proof {
            use_type_invariant(&*self);
            assert(!self@.dom().contains(client));
            assert(!has_key(self.entries@, client));
            lemma_push_entry(self.entries@, client, handle);
        }
        let mut entries: Vec<(ClientAddr, H)> = Vec::new();
        std::mem::swap(&mut entries, &mut self.entries);
        entries.push((client, handle));
        self.entries = entries;
        assert(old(self)@.remove(client).insert(client, handle) =~= old(self)@.insert(client, handle));
        previous
    }
}

/// With no client twice, the map has one key per entry.
proof fn lemma_map_len<H>(s: Seq<(ClientAddr, H)>)
    requires
        keys_distinct(s),
    ensures
        entries_map(s).dom().finite(),
        entries_map(s).dom().len() == s.len(),
    decreases s.len(),
{
    if s.len() == 0 {
        assert(entries_map(s).dom() =~= Set::<ClientAddr>::empty());
    } else {
        let last = (s.len() - 1) as int;
        let t = s.remove(last);
        lemma_remove_entry(s, last);
        lemma_map_len(t);
        lemma_entry_in_map(s, last);
        assert(entries_map(s).dom() =~= entries_map(t).dom().insert(s[last].0));
    }
}

/// Where a connection stands.
#[derive(Clone, Copy, Debug, PartialEq, Eq, Structural)]
pub enum SessionState {
    /// Connected from `peer`; the client's hello has not come yet.
    AwaitingHello { peer: ClientIp },
    /// The client said hello; its captions go to `client`.
    Serving { client: ClientAddr },
    /// The connection is over.
    Finished,
}

/// What the connection brought.
pub enum SessionEvent {
    /// Three bytes arrived from the client.
    Received([u8; 3]),
    /// Reading three bytes failed: the client went away.
    ReadFailed,
}

/// What the server does next on a connection.
#[derive(Clone, Copy, Debug, PartialEq, Eq, Structural)]
pub enum SessionAction {
    /// End the connection with the error of the failed read.
    Fail,
    /// End the connection quietly.
    Close,
    /// Send the channel list.
    SendChannelList,
    /// Read on.
    Ignore,
    /// Tell the client its channel does not exist, and read on.
    RejectChannel,
    /// Replace the forwarding task of `client` by one for `channel`, tell the
    /// client it is connected, and read on.
    Subscribe { client: ClientAddr, channel: u16 },
    /// Stop the forwarding task of `client`, and end the connection quietly.
    Unsubscribe { client: ClientAddr },
}

/// How a connection answers an event: the next state and the action.
pub open spec fn transition(state: SessionState, event: SessionEvent) -> (SessionState, SessionAction) {
    match state {
        SessionState::AwaitingHello { peer } => match event {
            SessionEvent::ReadFailed => (SessionState::Finished, SessionAction::Fail),
            SessionEvent::Received(bytes) => if bytes@[0] == CMD_HELLO {
                (
                    SessionState::Serving {
                        client: ClientAddr { ip: peer, port: be_value(bytes@[1], bytes@[2]) as u16 },
                    },
                    SessionAction::SendChannelList,
                )
            } else {
                (SessionState::Finished, SessionAction::Close)
            },
        },
        SessionState::Serving { client } => match event {
            SessionEvent::ReadFailed => (SessionState::Finished, SessionAction::Unsubscribe { client }),
            SessionEvent::Received(bytes) => if bytes@[0] != CMD_CHOOSE_CHANNEL {
                (state, SessionAction::Ignore)
            } else if be_value(bytes@[1], bytes@[2]) >= NUM_CHANNELS {
                (state, SessionAction::RejectChannel)
            } else {
                (
                    state,
                    SessionAction::Subscribe {
                        client,
                        channel: be_value(bytes@[1], bytes@[2]) as u16,
                    },
                )
            },
        },
        SessionState::Finished => (SessionState::Finished, SessionAction::Close),
    }
}

/// The bytes the server writes for an action, if any.
pub open spec fn reply_bytes(action: SessionAction) -> Option<Seq<u8>> {
    match action {
        SessionAction::SendChannelList => Some(message_bytes(CMD_CHANNEL_LIST, NUM_CHANNELS)),
        SessionAction::RejectChannel => Some(seq![INVALID_CHANNEL]),
        SessionAction::Subscribe { client, channel } => Some(message_bytes(CMD_CONNECTED, channel)),
        _ => None,
    }
}

/// The bytes of a reply, byte by byte: the channel list is `[0, 0, 12]`, a
/// refusal is the one byte `[1]`, and a subscription's reply is three bytes,
/// command 2 then the channel, high byte first.
pub open spec fn reply_has_layout(action: SessionAction, bytes: Seq<u8>) -> bool {
    match action {
        SessionAction::SendChannelList => bytes == seq![0u8, 0u8, 12u8],
        SessionAction::RejectChannel => bytes == seq![1u8],
        SessionAction::Subscribe { client, channel } => {
            &&& bytes.len() == 3
            &&& bytes[0] == 2
            &&& bytes[1] as int * 256 + bytes[2] as int == channel
        },
        _ => false,
    }
}

/// Every reply the server writes has the layout of its action: three bytes
/// for the channel list and for a subscription, carrying the channel the
/// client asked for, and one byte for a refusal.
pub proof fn lemma_reply_layout(action: SessionAction)
    ensures
        reply_bytes(action) matches Some(b) ==> reply_has_layout(action, b),
        reply_bytes(action) is Some <==> (action is SendChannelList || action is RejectChannel
            || action is Subscribe),
{
}

impl SessionState {
    /// A connection that has just been accepted from `peer`.
    pub fn new(peer: ClientIp) -> (state: SessionState)
        ensures
            state == (SessionState::AwaitingHello { peer }),
    {
        SessionState::AwaitingHello { peer }
    }

    /// Whether the connection is over.
    pub fn is_finished(&self) -> (finished: bool)
        ensures
            finished == (*self == SessionState::Finished),
    {
        match self {
            SessionState::Finished => true,
            _ => false,
        }
    }

    /// Answers `event`: the next state and what to do.
    pub fn step(&self, event: &SessionEvent) -> (next: (SessionState, SessionAction))
        ensures
            next == transition(*self, *event),
    {
        match self {
            SessionState::AwaitingHello { peer } => match event {
                SessionEvent::ReadFailed => (SessionState::Finished, SessionAction::Fail),
                SessionEvent::Received(bytes) => {
                    let (cmd, port) = crate::protocol::decode_message(*bytes);
                    if cmd == CMD_HELLO {
                        (
                            SessionState::Serving { client: ClientAddr { ip: *peer, port } },
                            SessionAction::SendChannelList,
                        )
                    } else {
                        (SessionState::Finished, SessionAction::Close)
                    }
                },
            },
            SessionState::Serving { client } => match event {
                SessionEvent::ReadFailed => (
                    SessionState::Finished,
                    SessionAction::Unsubscribe { client: *client },
                ),
                SessionEvent::Received(bytes) => {
                    let (cmd, channel) = crate::protocol::decode_message(*bytes);
                    if cmd != CMD_CHOOSE_CHANNEL {
                        (*self, SessionAction::Ignore)
                    } else if channel >= NUM_CHANNELS {
                        (*self, SessionAction::RejectChannel)
                    } else {
                        (*self, SessionAction::Subscribe { client: *client, channel })
                    }
                },
            },
            SessionState::Finished => (SessionState::Finished, SessionAction::Close),
        }
    }
}

impl SessionAction {
    /// The bytes the server writes to the client for this action, if any.
    pub fn reply(&self) -> (bytes: Option<Vec<u8>>)
        ensures
            match bytes {
                Some(b) => reply_bytes(*self) == Some(b@),
                None => reply_bytes(*self) is None,
            },
            bytes is Some <==> (*self is SendChannelList || *self is RejectChannel
                || *self is Subscribe),
            bytes matches Some(b) ==> reply_has_layout(*self, b@),
    {
        match self {
            SessionAction::SendChannelList => {
                Some(message_vec(CMD_CHANNEL_LIST, NUM_CHANNELS))
            },
            SessionAction::RejectChannel => {
                let mut b: Vec<u8> = Vec::new();
                b.push(INVALID_CHANNEL);
                assert(b@ =~= seq![INVALID_CHANNEL]);
                Some(b)
            },
            SessionAction::Subscribe { client, channel } => {
                Some(message_vec(CMD_CONNECTED, *channel))
            },
            _ => None,
        }
    }
}

/// A hello from `peer` naming `udp_port` starts serving the client at that
/// port of `peer`, and the reply tells the client there are `NUM_CHANNELS`
/// channels.
pub proof fn lemma_hello_handshake(peer: ClientIp, udp_port: u16, hello: [u8; 3])
    requires
        hello@ == message_bytes(CMD_HELLO, udp_port),
    ensures
        transition(SessionState::AwaitingHello { peer }, SessionEvent::Received(hello)) == (
            SessionState::Serving { client: ClientAddr { ip: peer, port: udp_port } },
            SessionAction::SendChannelList,
        ),
        channel_list_of(reply_bytes(SessionAction::SendChannelList)->Some_0) == Some(NUM_CHANNELS),
{
}

/// Before its hello, any other first message ends the connection quietly,
/// and a failed first read ends it with an error.
pub proof fn lemma_no_hello_no_session(peer: ClientIp, event: SessionEvent)
    requires
        match event {
            SessionEvent::Received(bytes) => bytes@[0] != CMD_HELLO,
            SessionEvent::ReadFailed => true,
        },
    ensures
        transition(SessionState::AwaitingHello { peer }, event).0 == SessionState::Finished,
        transition(SessionState::AwaitingHello { peer }, event).1 == (match event {
            SessionEvent::Received(_) => SessionAction::Close,
            SessionEvent::ReadFailed => SessionAction::Fail,
        }),
{
}

/// A request for an existing channel subscribes the client to it, and the
/// client reads the reply as connected to that very channel; a request for a
/// channel that does not exist is refused, and the client reads the refusal
/// as such. Either way the session goes on serving the same client.
pub proof fn lemma_channel_request(client: ClientAddr, channel: u16, request: [u8; 3])
    requires
        request@ == message_bytes(CMD_CHOOSE_CHANNEL, channel),
    ensures
        transition(SessionState::Serving { client }, SessionEvent::Received(request)).0
            == (SessionState::Serving { client }),
        channel < NUM_CHANNELS ==> {
            let action = transition(
                SessionState::Serving { client },
                SessionEvent::Received(request),
            ).1;
            &&& action == (SessionAction::Subscribe { client, channel })
            &&& reply_meaning(reply_bytes(action)->Some_0) == ServerReply::Connected
            &&& be_value(reply_bytes(action)->Some_0[1], reply_bytes(action)->Some_0[2]) == channel
            &&& reply_bytes(action)->Some_0 == seq![CMD_CONNECTED, (channel / 256) as u8, (channel % 256) as u8]
        },
        channel >= NUM_CHANNELS ==> {
            let action = transition(
                SessionState::Serving { client },
                SessionEvent::Received(request),
            ).1;
            &&& action == SessionAction::RejectChannel
            &&& reply_meaning(reply_bytes(action)->Some_0) == ServerReply::InvalidChannel
            &&& reply_bytes(action)->Some_0 == seq![INVALID_CHANNEL]
        },
{
}

/// Whatever the state and the event, a subscription names an existing
/// channel and the client that the session serves.
pub proof fn lemma_subscriptions_are_valid(state: SessionState, event: SessionEvent)
    ensures
        transition(state, event).1 matches SessionAction::Subscribe { client, channel } ==> {
            &&& channel < NUM_CHANNELS
            &&& state == (SessionState::Serving { client })
        },
{
}

/// Once serving a client, a session keeps serving that same client until it
/// ends, and it ends, stopping that client's forwarding, exactly when a read
/// fails.
pub proof fn lemma_served_client_is_fixed(client: ClientAddr, event: SessionEvent)
    ensures
        transition(SessionState::Serving { client }, event).0 == (SessionState::Serving { client })
            || transition(SessionState::Serving { client }, event).0 == SessionState::Finished,
        (transition(SessionState::Serving { client }, event).0 == SessionState::Finished) == (
        event is ReadFailed),
        event is ReadFailed ==> transition(SessionState::Serving { client }, event).1
            == (SessionAction::Unsubscribe { client }),
{
}

/// A finished session stays finished and does nothing more.
pub proof fn lemma_finished_is_final(event: SessionEvent)
    ensures
        transition(SessionState::Finished, event) == (SessionState::Finished, SessionAction::Close),
{
}

} // verus!
