//! The clients of all servers.

use vstd::prelude::*;

use crate::buffer::{Buffer, Server};
use crate::channel::{channels_of, Topic};
use crate::config::Config;
use crate::grouping::joins;
use crate::handle::{can_list, left_of, plain_request, quit_message, Handle, HandleView};
use crate::isupport::Parameter;
use crate::proto::{Message, MessageView};
use crate::sender::{rejected_views, Rejected, Request, RequestView, Sender};
use crate::string_map::StringMap;
use crate::text;
use crate::text::{in_order, opt_text, texts};
use crate::user::{listed, user_views, User, UserView};

verus! {

/// Whether a server can be reached.
#[derive(Debug, Clone, Copy, PartialEq, Eq, Structural)]
pub enum Status {
    Unavailable,
    Connected,
    Disconnected,
}

impl Status {
    /// Whether there is a connection.
    pub fn connected(&self) -> (res: bool)
        ensures
            res == (*self is Connected),
    {
        matches!(self, Status::Connected)
    }
}

/// The state of the connection to a server.
#[derive(Debug)]
pub enum State {
    Disconnected,
    Ready(Handle),
}

/// What the state of a connection holds.
#[verifier::ext_equal]
pub enum StateView {
    Disconnected,
    Ready(HandleView),
}

impl View for State {
    type V = StateView;

    open spec fn view(&self) -> StateView {
        match *self {
            State::Disconnected => StateView::Disconnected,
            State::Ready(handle) => StateView::Ready(handle@),
        }
    }
}

/// The state of the connections to all servers, by name.
pub type States = Map<Seq<char>, StateView>;

/// The client of a server, where there is a connection.
pub open spec fn client_of(states: States, server: Seq<char>) -> Option<HandleView> {
    if states.contains_key(server) && states[server] is Ready {
        Some(states[server]->Ready_0)
    } else {
        None
    }
}

/// The states with something else held of a client.
pub open spec fn with_client(states: States, server: Seq<char>, handle: HandleView) -> States {
    states.insert(server, StateView::Ready(handle))
}

/// The status of a server.
pub open spec fn status_of(states: States, server: Seq<char>) -> Status {
    if !states.contains_key(server) {
        Status::Unavailable
    } else {
        match states[server] {
            StateView::Disconnected => Status::Disconnected,
            StateView::Ready(_) => Status::Connected,
        }
    }
}

/// The clients of all servers.
#[derive(Debug)]
pub struct ClientMap(StringMap<State>);

impl View for ClientMap {
    type V = States;

    closed spec fn view(&self) -> States {
        self.0@
    }
}

impl Default for ClientMap {
    fn default() -> (clients: ClientMap)
        ensures
            clients@ == States::empty(),
    {
        ClientMap(StringMap::new())
    }
}

impl ClientMap {
    /// The number of servers.
    pub fn len(&self) -> (len: usize)
        ensures
            len == self@.len(),
            self@.dom().finite(),
    {
        self.0.len()
    }

    /// Whether there is no server.
    pub fn is_empty(&self) -> (res: bool)
        ensures
            res == (self@ == States::empty()),
    {
        self.0.is_empty()
    }

    /// Records that there is no connection to a server.
    pub fn disconnected(&mut self, server: Server)
        ensures
            final(self)@ == old(self)@.insert(server@, StateView::Disconnected),
    {
        let _ = self.0.insert(server.0, State::Disconnected);
    }

    /// Records that there is a connection to a server.
    pub fn ready(&mut self, server: Server, client: Handle)
        ensures
            final(self)@ == with_client(old(self)@, server@, client@),
    {
        let _ = self.0.insert(server.0, State::Ready(client));
    }

    /// Forgets a server, and gives back its client.
    pub fn remove(&mut self, server: &Server) -> (client: Option<Handle>)
        ensures
            final(self)@ == old(self)@.remove(server@),
            match client {
                Some(client) => client_of(old(self)@, server@) == Some(client@),
                None => client_of(old(self)@, server@) is None,
            },
    {
        match self.0.remove(server.0.as_str()) {
            Some(State::Ready(client)) => Some(client),
            _ => None,
        }
    }

    /// The client of a server.
    pub fn client(&self, server: &Server) -> (client: Option<&Handle>)
        ensures
            match client {
                Some(client) => client_of(self@, server@) == Some(client@),
                None => client_of(self@, server@) is None,
            },
    {
        match self.0.get(server.0.as_str()) {
            Some(State::Ready(client)) => Some(client),
            _ => None,
        }
    }

    /// The client of a server, to be changed.
    pub fn client_mut(&mut self, server: &Server) -> (client: Option<&mut Handle>)
        ensures
            match client {
                Some(client) => {
                    &&& client_of(old(self)@, server@) == Some((*client)@)
                    &&& final(self)@ == with_client(old(self)@, server@, final(client)@)
                },
                None => client_of(old(self)@, server@) is None && final(self)@ == old(self)@,
            },
    {
        match self.0.get_mut(server.0.as_str()) {
            Some(State::Ready(client)) => Some(client),
            Some(State::Disconnected) => {
                assert(old(self)@.insert(server@, StateView::Disconnected) =~= old(self)@);
                None
            },
            None => None,
        }
    }

    /// The nickname of the client of a server.
    pub fn nickname(&self, server: &Server) -> (nick: Option<&str>)
        ensures
            match nick {
                Some(nick) => {
                    &&& client_of(self@, server@) is Some
                    &&& nick@ == client_of(self@, server@)->0.nick()
                },
                None => client_of(self@, server@) is None,
            },
    {
        match self.client(server) {
            Some(client) => Some(client.nickname()),
            None => None,
        }
    }

    /// Asks for a message to be sent that was written from a buffer; gives back a request for
    /// which there was no room. Nothing is asked where there is no connection.
    pub fn send(&mut self, buffer: &Buffer, message: Message) -> (rejected: Option<Rejected>)
        ensures
            match client_of(old(self)@, buffer.of_server()) {
                Some(client) => match rejected {
                    Some(rejected) => {
                        &&& rejected.request == Request::Send(message, Some(*buffer))
                        &&& final(self)@ == with_client(
                            old(self)@,
                            buffer.of_server(),
                            client.refused(RequestView::Send(message@, Some(*buffer))),
                        )
                    },
                    None => final(self)@ == with_client(
                        old(self)@,
                        buffer.of_server(),
                        client.accepted(RequestView::Send(message@, Some(*buffer))),
                    ),
                },
                None => rejected is None && final(self)@ == old(self)@,
            },
    {
        let res = match self.client_mut(buffer.server()) {
            Some(client) => client.send(buffer, message),
            None => return None,
        };
        match res {
            Ok(_) => None,
            Err(rejected) => Some(rejected),
        }
    }

    /// Asks for channels to be joined; gives back the requests for which there was no room.
    pub fn join(&mut self, server: &Server, channels: &Vec<String>) -> (rejected: Vec<Rejected>)
        ensures
            match client_of(old(self)@, server@) {
                Some(client) => {
                    let requests = joins(texts(channels@), Map::empty()).map_values(
                        |message: MessageView| plain_request(message),
                    );
                    exists|taken: Seq<bool>|
                        {
                            &&& taken.len() == requests.len()
                            &&& final(self)@ == with_client(
                                old(self)@,
                                server@,
                                #[trigger] client.after_each(requests, taken),
                            )
                            &&& rejected_views(rejected@) == left_of(requests, taken)
                        }
                },
                None => rejected@.len() == 0 && final(self)@ == old(self)@,
            },
    {
        match self.client_mut(server) {
            Some(client) => client.join(channels),
            None => Vec::new(),
        }
    }

    /// Asks for a session to be ended; gives back the request where there was no room for it.
    pub fn quit(&mut self, server: &Server, reason: Option<String>) -> (rejected: Option<Rejected>)
        ensures
            match client_of(old(self)@, server@) {
                Some(client) => match rejected {
                    Some(rejected) => {
                        &&& rejected.request@ == plain_request(quit_message(opt_text(reason)))
                        &&& final(self)@ == with_client(
                            old(self)@,
                            server@,
                            client.refused(plain_request(quit_message(opt_text(reason)))),
                        )
                    },
                    None => final(self)@ == with_client(
                        old(self)@,
                        server@,
                        client.accepted(plain_request(quit_message(opt_text(reason)))),
                    ),
                },
                None => rejected is None && final(self)@ == old(self)@,
            },
    {
        let res = match self.client_mut(server) {
            Some(client) => client.quit(reason),
            None => return None,
        };
        match res {
            Ok(_) => None,
            Err(rejected) => Some(rejected),
        }
    }

    /// What is known of a user in a channel.
    pub fn resolve_user_attributes(&self, server: &Server, channel: &str, user: &User) -> (res: Option<
        &User,
    >)
        ensures
            match res {
                Some(known) => {
                    &&& client_of(self@, server@) is Some
                    &&& client_of(self@, server@)->0.chanmap.contains_key(channel@)
                    &&& client_of(self@, server@)->0.chanmap[channel@].users.contains_key(
                        user@.nickname,
                    )
                    &&& known@ == client_of(
                        self@,
                        server@,
                    )->0.chanmap[channel@].users[user@.nickname]
                },
                None => match client_of(self@, server@) {
                    Some(client) => !(client.chanmap.contains_key(channel@)
                        && client.chanmap[channel@].users.contains_key(user@.nickname)),
                    None => true,
                },
            },
    {
        match self.client(server) {
            Some(client) => client.resolve_user_attributes(channel, user),
            None => None,
        }
    }

    /// The users of a channel in the order in which they are listed.
    pub fn get_channel_users(&self, server: &Server, channel: &str) -> (users: &[User])
        ensures
            user_views(users@) == (match client_of(self@, server@) {
                Some(client) => if client.chanmap.contains_key(channel@) {
                    listed(client.chanmap[channel@].users)
                } else {
                    Seq::empty()
                },
                None => Seq::empty(),
            }),
            client_of(self@, server@) matches Some(client) ==> client.chanmap.contains_key(channel@)
                ==> can_list(client.chanmap[channel@].users),
    {
        match self.client(server) {
            Some(client) => client.users(channel),
            None => {
                let none: &[User] = &[];
                assert(user_views(none@) =~= Seq::<UserView>::empty());
                none
            },
        }
    }

    /// The channels that a user is in.
    pub fn get_user_channels(&self, server: &Server, nick: &str) -> (names: Vec<String>)
        ensures
            texts(names@) == (match client_of(self@, server@) {
                Some(client) => channels_of(client.chanmap, nick@),
                None => Seq::empty(),
            }),
            client_of(self@, server@) matches Some(client) ==> client.chanmap.dom().finite(),
    {
        match self.client(server) {
            Some(client) => client.user_channels(nick),
            None => {
                let none: Vec<String> = Vec::new();
                assert(texts(none@) =~= Seq::<Seq<char>>::empty());
                none
            },
        }
    }

    /// The topic of a channel.
    pub fn get_channel_topic(&self, server: &Server, channel: &str) -> (topic: Option<&Topic>)
        ensures
            match topic {
                Some(topic) => {
                    &&& client_of(self@, server@) is Some
                    &&& client_of(self@, server@)->0.chanmap.contains_key(channel@)
                    &&& *topic == client_of(self@, server@)->0.chanmap[channel@].topic
                },
                None => match client_of(self@, server@) {
                    Some(client) => !client.chanmap.contains_key(channel@),
                    None => true,
                },
            },
    {
        match self.client(server) {
            Some(client) => client.topic(channel),
            None => None,
        }
    }

    /// The names of the channels that the client of a server is in, in order.
    pub fn get_channels(&self, server: &Server) -> (names: &[String])
        ensures
            texts(names@) == (match client_of(self@, server@) {
                Some(client) => in_order(client.chanmap.dom()),
                None => Seq::empty(),
            }),
            client_of(self@, server@) matches Some(client) ==> client.chanmap.dom().finite(),
    {
        match self.client(server) {
            Some(client) => client.channels(),
            None => {
                let none: &[String] = &[];
                assert(texts(none@) =~= Seq::<Seq<char>>::empty());
                none
            },
        }
    }

    /// What a server supports.
    pub fn get_isupport(&self, server: &Server) -> (isupport: StringMap<Parameter>)
        ensures
            isupport@ == (match client_of(self@, server@) {
                Some(client) => client.isupport,
                None => Map::empty(),
            }),
    {
        match self.client(server) {
            Some(client) => client.isupport().copy(),
            None => StringMap::new(),
        }
    }

    /// Where requests for the connection to a server are put.
    pub fn get_sender(&self, server: &Server) -> (sender: Option<&Sender>)
        ensures
            match sender {
                Some(sender) => {
                    &&& client_of(self@, server@) is Some
                    &&& sender@ == client_of(self@, server@)->0.sender
                },
                None => client_of(self@, server@) is None,
            },
    {
        match self.client(server) {
            Some(client) => Some(client.sender()),
            None => None,
        }
    }

    /// The servers to which there is a connection, in order.
    pub fn connected_servers(&self) -> (servers: Vec<Server>)
        ensures
            server_names(servers@) == in_order(
                self@.dom().filter(|name: Seq<char>| self@[name] is Ready),
            ),
            self@.dom().finite(),
    {
        let len = self.0.len();
        let ghost all = self.0.names();
        let mut servers: Vec<Server> = Vec::new();
        for i in 0..len
            invariant
                len == all.len(),
                all == self.0.names(),
                text::increasing(all),
                text::increasing(server_names(servers@)),
                forall|name: Seq<char>| #[trigger]
                    server_names(servers@).contains(name) <==> exists|j: int|
                        0 <= j < i && #[trigger] all[j] == name && self@[name] is Ready,
                forall|j: int| 0 <= j < i ==> self@.contains_key(#[trigger] all[j]),
        {
            let ghost so_far = server_names(servers@);
            let state = self.0.value_at(i);
            if let State::Ready(_) = state {
                let name = self.0.key_at(i);
                servers.push(Server(name.clone()));
                proof {
                    let more = server_names(servers@);
                    assert(more =~= so_far.push(name@));
                    assert forall|a: int, b: int| 0 <= a < b < more.len() implies text::before(
                        #[trigger] more[a],
                        #[trigger] more[b],
                    ) by {
                        assert(so_far[a] == more[a]);
                        if b < so_far.len() {
                            assert(so_far[b] == more[b]);
                        } else {
                            assert(so_far.contains(so_far[a]));
                            let k = choose|k: int| 0 <= k < i && #[trigger] all[k] == so_far[a];
                            assert(text::before(all[k], all[i as int]));
                        }
                    }
                    assert forall|other: Seq<char>| #[trigger]
                        more.contains(other) <==> exists|j: int|
                            0 <= j < i + 1 && #[trigger] all[j] == other && self@[other] is Ready by {
                        if more.contains(other) {
                            let j = more.index_of(other);
                            if j < so_far.len() {
                                assert(so_far[j] == other);
                                assert(so_far.contains(other));
                            } else {
                                assert(all[i as int] == other);
                            }
                        }
                        if exists|j: int|
                            0 <= j < i + 1 && #[trigger] all[j] == other && self@[other] is Ready {
                            let j = choose|j: int|
                                0 <= j < i + 1 && #[trigger] all[j] == other && self@[other] is Ready;
                            if j < i {
                                assert(so_far.contains(other));
                                let k = so_far.index_of(other);
                                assert(more[k] == other);
                            } else {
                                assert(more[so_far.len() as int] == other);
                            }
                        }
                    }
                }
            }
        }
        proof {
            let list = server_names(servers@);
            let chosen = self@.dom().filter(|name: Seq<char>| self@[name] is Ready);
            text::lemma_in_order(list);
            assert forall|name: Seq<char>| list.to_set().contains(name) <==> chosen.contains(name) by {
                if chosen.contains(name) {
                    assert(self@.contains_key(name));
                    assert(all.contains(name));
                    let j = all.index_of(name);
                    assert(all[j] == name);
                }
                assert(list.to_set().contains(name) <==> list.contains(name));
            }
            assert(list.to_set() =~= chosen);
        }
        servers
    }

    /// All servers with the state of their connections, in order.
    pub fn iter(&self) -> (entries: Vec<(&String, &State)>)
        ensures
            entries@.len() == in_order(self@.dom()).len(),
            self@.dom().finite(),
            forall|i: int|
                0 <= i < entries@.len() ==> {
                    &&& (#[trigger] entries@[i]).0@ == in_order(self@.dom())[i]
                    &&& self@.contains_key(entries@[i].0@)
                    &&& entries@[i].1@ == self@[entries@[i].0@]
                },
    {
        let len = self.0.len();
        let ghost all = self.0.names();
        proof {
            text::lemma_in_order(all);
            assert(self@.dom() =~= all.to_set());
        }
        let mut entries: Vec<(&String, &State)> = Vec::new();
        for i in 0..len
            invariant
                len == all.len(),
                all == self.0.names(),
                all == in_order(self@.dom()),
                entries@.len() == i,
                forall|j: int|
                    0 <= j < entries@.len() ==> {
                        &&& (#[trigger] entries@[j]).0@ == all[j]
                        &&& self@.contains_key(entries@[j].0@)
                        &&& entries@[j].1@ == self@[entries@[j].0@]
                    },
        {
            entries.push((self.0.key_at(i), self.0.value_at(i)));
        }
        entries
    }

    /// The status of a server.
    pub fn status(&self, server: &Server) -> (status: Status)
        ensures
            status == status_of(self@, server@),
    {
        match self.0.get(server.0.as_str()) {
            Some(State::Disconnected) => Status::Disconnected,
            Some(State::Ready(_)) => Status::Connected,
            None => Status::Unavailable,
        }
    }

    /// Passes on to all clients what the user has set anew; gives back the servers whose queues had
    /// no room for it.
    pub fn config_updated(&mut self, config: Config) -> (refused: Vec<String>)
        ensures
            final(self)@.dom() == old(self)@.dom(),
            forall|server: Seq<char>| #[trigger]
                old(self)@.contains_key(server) ==> config_passed(
                    old(self)@[server],
                    final(self)@[server],
                    config,
                    texts(refused@).contains(server),
                ),
    {
        let len = self.0.len();
        let ghost names = self.0.names();
        let mut refused: Vec<String> = Vec::new();
        for i in 0..len
            invariant
                len == names.len(),
                text::increasing(names),
                names == old(self).0.names(),
                self.0.names() == names,
                self.0.items().len() == len,
                old(self).0.items().len() == len,
                forall|name: Seq<char>| #[trigger]
                    texts(refused@).contains(name) ==> exists|j: int|
                        0 <= j < i && #[trigger] names[j] == name,
                forall|j: int|
                    0 <= j < i ==> config_passed(
                        old(self).0.items()[j]@,
                        (#[trigger] self.0.items()[j])@,
                        config,
                        texts(refused@).contains(names[j]),
                    ),
                forall|j: int|
                    i <= j < len ==> #[trigger] self.0.items()[j] == old(self).0.items()[j],
        {
            let ghost before = texts(refused@);
            let name = self.0.key_at(i).clone();
            proof {
                assert forall|j: int| 0 <= j < i implies #[trigger] names[j] != name@ by {
                    text::lemma_before_irreflexive(name@);
                    assert(text::before(names[j], names[i as int]));
                }
                assert(!before.contains(name@));
            }
            let state = self.0.value_at_mut(i);
            if let State::Ready(client) = state {
                if client.config_updated(config.clone()).is_err() {
                    refused.push(name);
                    proof {
                        let after = texts(refused@);
                        assert(after =~= before.push(name@));
                        assert(after[before.len() as int] == name@);
                        assert forall|other: Seq<char>| other != name@ implies after.contains(other)
                            == before.contains(other) by {
                            if before.contains(other) {
                                assert(after[before.index_of(other)] == other);
                            }
                            if after.contains(other) {
                                assert(before[after.index_of(other)] == other);
                            }
                        }
                        assert forall|other: Seq<char>| #[trigger] after.contains(other) implies exists|
                            j: int,
                        |
                            0 <= j < i + 1 && #[trigger] names[j] == other by {
                            if other == name@ {
                                assert(names[i as int] == other);
                            } else {
                                let j = choose|j: int| 0 <= j < i && #[trigger] names[j] == other;
                                assert(names[j] == other);
                            }
                        }
                    }
                }
            }
        }
        proof {
            let states = old(self).0;
            let after = self.0;
            assert(self@.dom() =~= old(self)@.dom());
            assert forall|server: Seq<char>| #[trigger]
                old(self)@.contains_key(server) implies config_passed(
                old(self)@[server],
                self@[server],
                config,
                texts(refused@).contains(server),
            ) by {
                let j = names.index_of(server);
                assert(names.contains(server));
                assert(config_passed(
                    states.items()[j]@,
                    after.items()[j]@,
                    config,
                    texts(refused@).contains(names[j]),
                ));
            }
        }
        refused
    }
}

/// What names servers have.
pub open spec fn server_names(servers: Seq<Server>) -> Seq<Seq<char>> {
    servers.map_values(|server: Server| server@)
}

/// Whether a place was sought for what the user has set anew in the queue of a client, and found
/// unless the queue refused. For a server without a connection none was sought.
pub open spec fn config_passed(
    before: StateView,
    after: StateView,
    config: Config,
    refused: bool,
) -> bool {
    match before {
        StateView::Disconnected => after is Disconnected && !refused,
        StateView::Ready(client) => if refused {
            after == StateView::Ready(client.refused(RequestView::ConfigUpdated(config)))
        } else {
            after == StateView::Ready(client.accepted(RequestView::ConfigUpdated(config)))
        },
    }
}

// ---------------------------------------------------------------------------
// What holds of the clients of all servers

/// A server has a client if and only if there is a connection to it.
pub proof fn law_connected_has_client(states: States, server: Seq<char>)
    ensures
        status_of(states, server) is Connected <==> client_of(states, server) is Some,
{
}

/// A server that is ready is connected, and its client is the one that was given; the other servers
/// stay as they were.
pub proof fn law_ready(states: States, server: Seq<char>, handle: HandleView, other: Seq<char>)
    ensures
        status_of(with_client(states, server, handle), server) is Connected,
        client_of(with_client(states, server, handle), server) == Some(handle),
        other != server ==> status_of(with_client(states, server, handle), other) == status_of(
            states,
            other,
        ) && client_of(with_client(states, server, handle), other) == client_of(states, other),
{
}

/// A server that is disconnected stays known, but has no client; the other servers stay as they
/// were.
pub proof fn law_disconnected(states: States, server: Seq<char>, other: Seq<char>)
    ensures
        ({
            let after = states.insert(server, StateView::Disconnected);
            &&& status_of(after, server) is Disconnected
            &&& client_of(after, server) is None
            &&& other != server ==> status_of(after, other) == status_of(states, other)
                && client_of(after, other) == client_of(states, other)
        }),
{
}

/// A server that is removed is not available; the other servers stay as they were.
pub proof fn law_removed(states: States, server: Seq<char>, other: Seq<char>)
    ensures
        status_of(states.remove(server), server) is Unavailable,
        client_of(states.remove(server), server) is None,
        other != server ==> status_of(states.remove(server), other) == status_of(states, other)
            && client_of(states.remove(server), other) == client_of(states, other),
{
}

/// The client of a server is the one that is held for it; a server is connected, disconnected or
/// not available by what is held for it.
pub proof fn law_what_is_held(states: States, server: Seq<char>)
    ensures
        !states.contains_key(server) ==> client_of(states, server) is None && status_of(states, server)
            is Unavailable,
        states.contains_key(server) ==> match states[server] {
            StateView::Ready(client) => client_of(states, server) == Some(client) && status_of(
                states,
                server,
            ) is Connected,
            StateView::Disconnected => client_of(states, server) is None && status_of(
                states,
                server,
            ) is Disconnected,
        },
{
}

/// What the user has set anew is tried on every connected client, as the last request, and on no
/// other; where there was a place it is the last that was put in. All else that is held stays.
pub proof fn law_settings_are_passed(
    before: StateView,
    after: StateView,
    config: Config,
    refused: bool,
)
    requires
        config_passed(before, after, config, refused),
    ensures
        before is Disconnected ==> after is Disconnected && !refused,
        before is Ready ==> {
            let old_client = before->Ready_0;
            let client = after->Ready_0;
            let request = RequestView::ConfigUpdated(config);
            &&& after is Ready
            &&& client.sender.tried == old_client.sender.tried.push(request)
            &&& client.sender.put == if refused {
                old_client.sender.put
            } else {
                old_client.sender.put.push(request)
            }
            &&& client.sender.queue == old_client.sender.queue
            &&& client == HandleView { sender: client.sender, ..old_client }
        },
{
}

} // verus!
