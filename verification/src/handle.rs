//! A handle on a client: what those see and ask who are not the connection.

use vstd::prelude::*;

use crate::buffer::Buffer;
use crate::channel;
use crate::channel::{channels_of, Channel, ChannelView, Channels, Topic};
use crate::config;
use crate::config::Config;
use crate::grouping;
use crate::grouping::joins;
use crate::isupport::Parameter;
use crate::order;
use crate::proto::{message_views, Command, CommandView, Message, MessageView};
use crate::sender::{rejected_views, Rejected, Request, RequestView, Sender, SenderView};
use crate::string_map::StringMap;
use crate::text;
use crate::text::{in_order, opt_text, texts};
use crate::user::{keyed, listed, user_views, User, UserView, Users};

verus! {

/// A list of users.
#[derive(Debug)]
pub struct UserList {
    pub list: Vec<User>,
}

impl View for UserList {
    type V = Seq<UserView>;

    open spec fn view(&self) -> Seq<UserView> {
        user_views(self.list@)
    }
}

/// The users of each channel in the order in which they are listed.
pub open spec fn listings(channels: Channels) -> Map<Seq<char>, Seq<UserView>> {
    channels.map_values(|channel: ChannelView| listed(channel.users))
}

/// Whether users can be listed: there are only so many, and each has its own nickname.
pub open spec fn can_list(users: Users) -> bool {
    users.dom().finite() && keyed(users)
}

/// The channels that a client is in, with the lists that are shown of them.
#[derive(Debug)]
struct Roster {
    chanmap: StringMap<Channel>,
    channels: Vec<String>,
    users: StringMap<UserList>,
}

impl Roster {
    #[verifier::type_invariant]
    spec fn lists_agree(self) -> bool {
        &&& texts(self.channels@) == in_order(self.chanmap@.dom())
        &&& self.chanmap@.dom().finite()
        &&& self.users@ == listings(self.chanmap@)
        &&& forall|name: Seq<char>| #[trigger]
            self.chanmap@.contains_key(name) ==> can_list(self.chanmap@[name].users)
    }

    /// The lists of channels.
    fn of(chanmap: StringMap<Channel>) -> (roster: Roster)
        ensures
            roster.chanmap@ == chanmap@,
    {
        let channels = chanmap.keys();
        let mut users: StringMap<UserList> = StringMap::new();
        let len = chanmap.len();
        let ghost names = chanmap.names();
        let ghost all = listings(chanmap@);
        proof {
            assert(names.take(0).to_set() =~= Set::<Seq<char>>::empty());
            assert(users@ =~= all.restrict(names.take(0).to_set()));
        }
        for i in 0..len
            invariant
                len == names.len(),
                names == chanmap.names(),
                all == listings(chanmap@),
                users@ == all.restrict(names.take(i as int).to_set()),
                forall|j: int| 0 <= j < i ==> can_list(chanmap@[#[trigger] names[j]].users),
        {
            let list = UserList { list: chanmap.value_at(i).users.sorted() };
            let name = chanmap.key_at(i).clone();
            let ghost so_far = users@;
            let ghost listing = list@;
            let _ = users.insert(name, list);
            proof {
                assert(names.take(i + 1) =~= names.take(i as int).push(name@));
                assert(names.take(i + 1).to_set() =~= names.take(i as int).to_set().insert(name@)) by {
                    broadcast use vstd::seq_lib::group_seq_properties;

                }
                assert(users@ =~= all.restrict(names.take(i + 1).to_set()));
            }
        }
        proof {
            assert(names.take(len as int) =~= names);
            text::lemma_in_order(names);
            assert(all.dom() =~= chanmap@.dom());
            assert forall|name: Seq<char>| all.contains_key(name) implies names.to_set().contains(name) by {
                assert(chanmap@.contains_key(name));
                assert(names.contains(name));
            }
            assert(users@ =~= all);
            assert forall|name: Seq<char>| #[trigger] chanmap@.contains_key(name) implies can_list(
                chanmap@[name].users,
            ) by {
                assert(names.contains(name));
                assert(names[names.index_of(name)] == name);
            }
        }
        Roster { chanmap, channels, users }
    }
}

/// A handle on a client.
#[derive(Debug)]
pub struct Handle {
    sender: Sender,
    config: config::Server,
    resolved_nick: Option<String>,
    roster: Roster,
    isupport: StringMap<Parameter>,
}

/// What a handle holds: the requests that went through it, what the user has set, and what the
/// client knows.
#[verifier::ext_equal]
pub struct HandleView {
    pub sender: SenderView,
    pub config: config::ServerView,
    pub resolved_nick: Option<Seq<char>>,
    pub chanmap: Channels,
    pub isupport: Map<Seq<char>, Parameter>,
}

impl View for Handle {
    type V = HandleView;

    closed spec fn view(&self) -> HandleView {
        HandleView {
            sender: self.sender@,
            config: self.config@,
            resolved_nick: opt_text(self.resolved_nick),
            chanmap: self.roster.chanmap@,
            isupport: self.isupport@,
        }
    }
}

impl HandleView {
    /// The nickname of the client.
    pub open spec fn nick(self) -> Seq<char> {
        match self.resolved_nick {
            Some(nick) => nick,
            None => self.config.nickname,
        }
    }

    /// The handle after a request that found a place in the queue.
    pub open spec fn accepted(self, request: RequestView) -> HandleView {
        HandleView { sender: self.sender.accepted(request), ..self }
    }

    /// The handle after a request that found no place in the queue.
    pub open spec fn refused(self, request: RequestView) -> HandleView {
        HandleView { sender: self.sender.refused(request), ..self }
    }

    /// The handle after requests, each of which found a place in the queue or not; `taken` says
    /// which.
    pub open spec fn after_each(self, requests: Seq<RequestView>, taken: Seq<bool>) -> HandleView {
        HandleView {
            sender: SenderView {
                put: self.sender.put + taken_of(requests, taken),
                tried: self.sender.tried + requests,
                ..self.sender
            },
            ..self
        }
    }
}

/// The message that ends the session.
pub open spec fn quit_message(reason: Option<Seq<char>>) -> MessageView {
    MessageView::plain(Command::QUIT(reason))
}

/// The request to send a message that was written from no buffer.
pub open spec fn plain_request(message: MessageView) -> RequestView {
    RequestView::Send(message, None)
}

/// The requests that found a place in the queue, of those that were made; `taken` says which.
pub open spec fn taken_of(requests: Seq<RequestView>, taken: Seq<bool>) -> Seq<RequestView>
    decreases requests.len(),
{
    if requests.len() == 0 {
        Seq::empty()
    } else {
        let rest = taken_of(requests.drop_last(), taken.drop_last());
        if taken.last() {
            rest.push(requests.last())
        } else {
            rest
        }
    }
}

/// The requests that found no place in the queue, of those that were made.
pub open spec fn left_of(requests: Seq<RequestView>, taken: Seq<bool>) -> Seq<RequestView> {
    taken_of(requests, taken.map_values(|taken: bool| !taken))
}

impl Handle {
    /// A handle on a client that knows nothing yet.
    pub fn new(sender: Sender, config: config::Server) -> (handle: Handle)
        ensures
            handle@ == (HandleView {
                sender: sender@,
                config: config@,
                resolved_nick: None,
                chanmap: Map::empty(),
                isupport: Map::empty(),
            }),
    {
        Handle {
            sender,
            config,
            resolved_nick: None,
            roster: Roster::of(StringMap::new()),
            isupport: StringMap::new(),
        }
    }

    /// Takes over the channels that the client is in.
    pub fn update_chanmap(&mut self, chanmap: StringMap<Channel>)
        ensures
            final(self)@ == (HandleView { chanmap: chanmap@, ..old(self)@ }),
    {
        self.roster = Roster::of(chanmap);
    }

    /// Takes over the nickname of the client.
    pub fn update_nick(&mut self, nick: String)
        ensures
            final(self)@ == (HandleView { resolved_nick: Some(nick@), ..old(self)@ }),
    {
        self.resolved_nick = Some(nick);
    }

    /// Takes over what the server supports.
    pub fn update_isupport(&mut self, isupport: StringMap<Parameter>)
        ensures
            final(self)@ == (HandleView { isupport: isupport@, ..old(self)@ }),
    {
        self.isupport = isupport;
    }

    /// Passes on what the user has set anew.
    pub fn config_updated(&mut self, config: Config) -> (res: Result<(), Rejected>)
        ensures
            match res {
                Ok(_) => final(self)@ == old(self)@.accepted(RequestView::ConfigUpdated(config)),
                Err(rejected) => {
                    &&& rejected.request == Request::ConfigUpdated(config)
                    &&& final(self)@ == old(self)@.refused(RequestView::ConfigUpdated(config))
                },
            },
    {
        self.sender.config_updated(config)
    }

    /// Asks for the session to be ended.
    pub fn quit(&mut self, reason: Option<String>) -> (res: Result<(), Rejected>)
        ensures
            match res {
                Ok(_) => final(self)@ == old(self)@.accepted(
                    plain_request(quit_message(opt_text(reason))),
                ),
                Err(rejected) => {
                    &&& rejected.request@ == plain_request(quit_message(opt_text(reason)))
                    &&& final(self)@ == old(self)@.refused(
                        plain_request(quit_message(opt_text(reason))),
                    )
                },
            },
    {
        self.sender.try_send(Message::plain(Command::QUIT(reason)))
    }

    /// Asks for channels to be joined. A place is sought for each message that joins some of them,
    /// whether or not there was one for those before it; those for which there was none come back.
    pub fn join(&mut self, channels: &Vec<String>) -> (rejected: Vec<Rejected>)
        ensures
            ({
                let requests = joins(texts(channels@), Map::empty()).map_values(
                    |message: MessageView| plain_request(message),
                );
                exists|taken: Seq<bool>|
                    {
                        &&& taken.len() == requests.len()
                        &&& final(self)@ == #[trigger] old(self)@.after_each(requests, taken)
                        &&& rejected_views(rejected@) == left_of(requests, taken)
                    }
            }),
    {
        let keys: StringMap<String> = StringMap::new();
        let messages = grouping::group_joins(channels, &keys);
        let ghost views = message_views(messages@);
        let ghost requests = views.map_values(|message: MessageView| plain_request(message));
        let ghost whole = messages@;
        let mut pending = order::reversed(messages);
        let mut rejected: Vec<Rejected> = Vec::new();
        let ghost mut taken: Seq<bool> = Seq::empty();
        proof {
            assert(requests.take(0) =~= Seq::<RequestView>::empty());
            assert(self@ =~= old(self)@.after_each(requests.take(0), taken));
            assert(rejected_views(rejected@) =~= left_of(requests.take(0), taken));
        }
        while pending.len() > 0
            invariant
                views == message_views(whole),
                requests == views.map_values(|message: MessageView| plain_request(message)),
                pending@.len() <= whole.len(),
                forall|j: int|
                    0 <= j < pending@.len() ==> pending@[j] == whole[whole.len() - 1 - j],
                taken.len() == whole.len() - pending@.len(),
                self@ == old(self)@.after_each(requests.take(taken.len() as int), taken),
                rejected_views(rejected@) == left_of(requests.take(taken.len() as int), taken),
            decreases pending@.len(),
        {
            let ghost n = taken.len() as int;
            let ghost left_so_far = rejected_views(rejected@);
            if let Some(message) = pending.pop() {
                let ghost request = plain_request(message@);
                proof {
                    assert(message == whole[n]);
                    assert(requests[n] == request);
                    assert(requests.take(n + 1).drop_last() =~= requests.take(n));
                    assert(requests.take(n + 1).last() == request);
                    assert(taken.push(true).drop_last() =~= taken);
                    assert(taken.push(false).drop_last() =~= taken);
                    let f = |taken: bool| !taken;
                    assert(taken.push(true).map_values(f).drop_last() =~= taken.map_values(f));
                    assert(taken.push(false).map_values(f).drop_last() =~= taken.map_values(f));
                    assert(taken.push(true).map_values(f).last() == false);
                    assert(taken.push(false).map_values(f).last() == true);
                }
                match self.sender.try_send(message) {
                    Ok(_) => {
                        proof {
                            taken = taken.push(true);
                            assert(requests.take(n + 1) =~= requests.take(n).push(request));
                            assert(self@ =~= old(self)@.after_each(requests.take(n + 1), taken));
                        }
                    },
                    Err(error) => {
                        rejected.push(error);
                        proof {
                            taken = taken.push(false);
                            assert(requests.take(n + 1) =~= requests.take(n).push(request));
                            assert(self@ =~= old(self)@.after_each(requests.take(n + 1), taken));
                            assert(rejected_views(rejected@) =~= left_so_far.push(request));
                        }
                    },
                }
            }
        }
        proof {
            assert(requests.take(requests.len() as int) =~= requests);
        }
        rejected
    }

    /// Asks for a message to be sent that was written from a buffer.
    pub fn send(&mut self, buffer: &Buffer, message: Message) -> (res: Result<(), Rejected>)
        ensures
            match res {
                Ok(_) => final(self)@ == old(self)@.accepted(
                    RequestView::Send(message@, Some(*buffer)),
                ),
                Err(rejected) => {
                    &&& rejected.request == Request::Send(message, Some(*buffer))
                    &&& final(self)@ == old(self)@.refused(
                        RequestView::Send(message@, Some(*buffer)),
                    )
                },
            },
    {
        self.sender.try_send_with_buffer(message, buffer.clone())
    }

    /// What is known of a user in a channel.
    pub fn resolve_user_attributes(&self, channel: &str, user: &User) -> (res: Option<&User>)
        ensures
            match res {
                Some(known) => {
                    &&& self@.chanmap.contains_key(channel@)
                    &&& self@.chanmap[channel@].users.contains_key(user@.nickname)
                    &&& known@ == self@.chanmap[channel@].users[user@.nickname]
                },
                None => !(self@.chanmap.contains_key(channel@)
                    && self@.chanmap[channel@].users.contains_key(user@.nickname)),
            },
    {
        match self.roster.chanmap.get(channel) {
            Some(channel) => channel.users.get(user.nickname()),
            None => None,
        }
    }

    /// The channels that a user is in.
    pub fn user_channels(&self, nick: &str) -> (names: Vec<String>)
        ensures
            texts(names@) == channels_of(self@.chanmap, nick@),
            self@.chanmap.dom().finite(),
    {
        channel::user_channels(&self.roster.chanmap, nick)
    }

    /// The topic of a channel.
    pub fn topic(&self, channel: &str) -> (topic: Option<&Topic>)
        ensures
            match topic {
                Some(topic) => {
                    &&& self@.chanmap.contains_key(channel@)
                    &&& *topic == self@.chanmap[channel@].topic
                },
                None => !self@.chanmap.contains_key(channel@),
            },
    {
        match self.roster.chanmap.get(channel) {
            Some(channel) => Some(&channel.topic),
            None => None,
        }
    }

    /// The names of the channels, in order.
    pub fn channels(&self) -> (names: &[String])
        ensures
            texts(names@) == in_order(self@.chanmap.dom()),
            self@.chanmap.dom().finite(),
    {
        proof {
            use_type_invariant(&self.roster);
        }
        self.roster.channels.as_slice()
    }

    /// The users of a channel in the order in which they are listed; none for a channel that is
    /// not known.
    pub fn users(&self, channel: &str) -> (users: &[User])
        ensures
            user_views(users@) == (if self@.chanmap.contains_key(channel@) {
                listed(self@.chanmap[channel@].users)
            } else {
                Seq::empty()
            }),
            self@.chanmap.contains_key(channel@) ==> can_list(self@.chanmap[channel@].users),
    {
        proof {
            use_type_invariant(&self.roster);
        }
        match self.roster.users.get(channel) {
            Some(users) => users.list.as_slice(),
            None => {
                let none: &[User] = &[];
                assert(user_views(none@) =~= Seq::<UserView>::empty());
                none
            },
        }
    }

    /// The nickname of the client.
    pub fn nickname(&self) -> (nick: &str)
        ensures
            nick@ == self@.nick(),
    {
        match &self.resolved_nick {
            Some(nick) => nick.as_str(),
            None => self.config.nickname.as_str(),
        }
    }

    /// What the server supports.
    pub fn isupport(&self) -> (isupport: &StringMap<Parameter>)
        ensures
            isupport@ == self@.isupport,
    {
        &self.isupport
    }

    /// Where requests for the connection are put.
    pub fn sender(&self) -> (sender: &Sender)
        ensures
            sender@ == self@.sender,
    {
        &self.sender
    }
}


// ---------------------------------------------------------------------------
// What holds of handles

/// The nickname that a handle shows is the one that was given, and else the one that was set.
pub proof fn law_shown_nickname(handle: HandleView)
    ensures
        handle.resolved_nick is Some ==> handle.nick() == handle.resolved_nick->0,
        handle.resolved_nick is None ==> handle.nick() == handle.config.nickname,
{
}

/// A request is tried as the last one, and put in as the last one where there is a place; what the
/// handle shows, and the queue, stay.
pub proof fn law_requesting(handle: HandleView, request: RequestView)
    ensures
        ({
            let accepted = handle.accepted(request);
            let refused = handle.refused(request);
            &&& accepted.sender.tried == handle.sender.tried.push(request)
            &&& accepted.sender.put == handle.sender.put.push(request)
            &&& refused.sender.tried == handle.sender.tried.push(request)
            &&& refused.sender.put == handle.sender.put
            &&& accepted.sender.queue == handle.sender.queue
            &&& refused.sender.queue == handle.sender.queue
            &&& accepted == HandleView { sender: accepted.sender, ..handle }
            &&& refused == HandleView { sender: refused.sender, ..handle }
        }),
{
}

/// Requests one after the other are tried in order; those for which there is a place are put in, in
/// order, and the others are left. One request more goes behind the others.
pub proof fn law_requesting_each(
    handle: HandleView,
    requests: Seq<RequestView>,
    taken: Seq<bool>,
    request: RequestView,
    place: bool,
)
    requires
        taken.len() == requests.len(),
    ensures
        handle.after_each(Seq::empty(), Seq::empty()) == handle,
        left_of(Seq::empty(), Seq::empty()).len() == 0,
        handle.after_each(requests.push(request), taken.push(place)) == (if place {
            handle.after_each(requests, taken).accepted(request)
        } else {
            handle.after_each(requests, taken).refused(request)
        }),
        left_of(requests.push(request), taken.push(place)) == (if place {
            left_of(requests, taken)
        } else {
            left_of(requests, taken).push(request)
        }),
{
    let more = requests.push(request);
    let places = taken.push(place);
    let f = |taken: bool| !taken;
    assert(handle.after_each(Seq::empty(), Seq::empty()) =~= handle);
    assert(more.drop_last() =~= requests);
    assert(places.drop_last() =~= taken);
    assert(places.map_values(f).drop_last() =~= taken.map_values(f));
    assert(places.map_values(f).last() == !place);
    assert(handle.after_each(more, places) =~= if place {
        handle.after_each(requests, taken).accepted(request)
    } else {
        handle.after_each(requests, taken).refused(request)
    });
}

/// A session is ended by a message that says why, if it is said; it is asked for from no buffer.
pub proof fn law_ending(reason: Option<Seq<char>>, message: MessageView)
    ensures
        quit_message(reason).tags.len() == 0,
        quit_message(reason).command == CommandView::QUIT(reason),
        plain_request(message) == RequestView::Send(message, None),
{
}

} // verus!
