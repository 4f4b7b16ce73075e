//! Who is in the channels, and what is known of them.

use vstd::prelude::*;

use super::who;
use super::{Client, ClientView, Outcome, Reply, Step};
use crate::channel;
use crate::channel::{channels_of, everywhere, nowhere, Channel, ChannelView, Topic};
use crate::event::{event_views, Broadcast, BroadcastView, Event, EventView};
use crate::message::{ChannelMode, Content, Parsed, UserMode, UserModeKind};
use crate::number;
use crate::proto;
use crate::proto::names_channel;
use crate::text;
use crate::time::{DateTime, Instant, Posix};
use crate::user::{with_change, with_user, Change, Nick, Operation, User, UserSet, UserView, Users};

verus! {

/// The client with something else known of a channel.
pub open spec fn with_channel(client: ClientView, name: Seq<char>, channel: ChannelView) -> ClientView {
    ClientView { chanmap: client.chanmap.insert(name, channel), ..client }
}

// ---------------------------------------------------------------------------
// Invitations, nicknames, hosts

/// Somebody invites a user into a channel.
pub open spec fn on_invite(client: ClientView, nick: Seq<char>, channel: Seq<char>, parsed: Parsed) -> Step {
    match parsed.user {
        None => Step::nothing(client),
        Some(inviter) => Step::events(
            client,
            seq![
                EventView::Broadcast(
                    BroadcastView::Invite {
                        inviter: inviter@,
                        channel,
                        user_channels: channels_of(client.chanmap, nick),
                        sent_time: parsed.server_time,
                    },
                ),
            ],
        ),
    }
}

/// A user takes another nickname. The channels that are told of are those in which the old
/// nickname is still known afterwards.
pub open spec fn on_nick(client: ClientView, nick: Seq<char>, parsed: Parsed) -> Step {
    match parsed.user {
        None => Step::nothing(client),
        Some(user) => {
            let old_nick = user@.nickname;
            let ourself = client.nick() == old_nick;
            let chanmap = everywhere(client.chanmap, old_nick, Change::Nickname(nick));
            let told = EventView::Broadcast(
                BroadcastView::Nickname {
                    old_user: user@,
                    new_nick: nick,
                    ourself,
                    channels: channels_of(chanmap, old_nick),
                    sent_time: parsed.server_time,
                },
            );
            if ourself {
                Step::events(
                    ClientView { chanmap, resolved_nick: Some(nick), ..client },
                    seq![EventView::NickUpdated(nick), told],
                )
            } else {
                Step::events(ClientView { chanmap, ..client }, seq![told])
            }
        },
    }
}

/// A user has another host.
pub open spec fn on_chghost(
    client: ClientView,
    username: Seq<char>,
    hostname: Seq<char>,
    parsed: Parsed,
) -> Step {
    match parsed.user {
        None => Step::nothing(client),
        Some(user) => {
            let chanmap = everywhere(
                client.chanmap,
                user@.nickname,
                Change::UsernameAndHostname(username, hostname),
            );
            Step::events(
                ClientView { chanmap, ..client },
                seq![
                    EventView::Broadcast(
                        BroadcastView::ChangeHost {
                            old_user: user@,
                            new_username: username,
                            new_hostname: hostname,
                            ourself: user@.nickname == client.nick(),
                            channels: channels_of(chanmap, user@.nickname),
                            sent_time: parsed.server_time,
                        },
                    ),
                ],
            )
        },
    }
}

impl Client {
    /// The channels that a user is in.
    pub(super) fn user_channels(&self, nick: &str) -> (names: Vec<String>)
        ensures
            text::texts(names@) == channels_of(self@.chanmap, nick@),
            self@.chanmap.dom().finite(),
    {
        channel::user_channels(&self.chanmap, nick)
    }

    /// What is known of a user in a channel.
    pub fn resolve_user_attributes(&self, channel: &str, user: &User) -> (res: Option<&User>)
        ensures
            match res {
                Some(known) => {
                    &&& self@.chanmap.contains_key(channel@)
                    &&& self@.chanmap[channel@].users.contains_key(user@.nickname)
                    &&& known@ == self@.chanmap[channel@].users[user@.nickname]
                },
                None => !(self@.chanmap.contains_key(channel@)
                    && self@.chanmap[channel@].users.contains_key(user@.nickname)),
            },
    {
        match self.chanmap.get(channel) {
            Some(channel) => channel.users.get(user.nickname()),
            None => None,
        }
    }

    /// Takes in an invitation.
    pub(super) fn invite(&mut self, nick: &String, channel: &String, parsed: &Parsed) -> (reply: Reply)
        ensures
            (Step { client: final(self)@, reply: reply@ }) == on_invite(
                old(self)@,
                nick@,
                channel@,
                *parsed,
            ),
    {
        let inviter = match &parsed.user {
            Some(user) => user.clone(),
            None => return Reply::nothing(),
        };
        let user_channels = self.user_channels(nick.as_str());
        Reply::event(
            Event::Broadcast(
                Broadcast::Invite {
                    inviter,
                    channel: channel.clone(),
                    user_channels,
                    sent_time: parsed.server_time,
                },
            ),
        )
    }

    /// Takes in that a user takes another nickname.
    pub(super) fn nick(&mut self, nick: &String, parsed: &Parsed) -> (reply: Reply)
        ensures
            (Step { client: final(self)@, reply: reply@ }) == on_nick(old(self)@, nick@, *parsed),
    {
        let old_user = match &parsed.user {
            Some(user) => user.clone(),
            None => return Reply::nothing(),
        };
        let ourself = text::same(self.nickname(), old_user.nickname());
        let mut events: Vec<Event> = Vec::new();
        if ourself {
            self.resolved_nick = Some(nick.clone());
            events.push(Event::NickUpdated(nick.clone()));
        }
        channel::change_everywhere(
            &mut self.chanmap,
            old_user.nickname(),
            &Change::Nickname(nick.clone()),
        );
        let channels = self.user_channels(old_user.nickname());
        let told = Event::Broadcast(
            Broadcast::Nickname {
                old_user,
                new_nick: Nick(nick.clone()),
                ourself,
                channels,
                sent_time: parsed.server_time,
            },
        );
        let ghost told_view = told@;
        events.push(told);
        proof {
            if ourself {
                assert(event_views(events@) =~= seq![EventView::NickUpdated(nick@), told_view]);
            } else {
                assert(event_views(events@) =~= seq![told_view]);
            }
        }
        let mut reply = Reply::nothing();
        reply.outcome = Outcome::Events(events);
        reply
    }

    /// Takes in that a user has another host.
    pub(super) fn change_host(&mut self, username: &String, hostname: &String, parsed: &Parsed) -> (reply:
        Reply)
        ensures
            (Step { client: final(self)@, reply: reply@ }) == on_chghost(
                old(self)@,
                username@,
                hostname@,
                *parsed,
            ),
    {
        let old_user = match &parsed.user {
            Some(user) => user.clone(),
            None => return Reply::nothing(),
        };
        let ourself = text::same(old_user.nickname(), self.nickname());
        channel::change_everywhere(
            &mut self.chanmap,
            old_user.nickname(),
            &Change::UsernameAndHostname(username.clone(), hostname.clone()),
        );
        let channels = self.user_channels(old_user.nickname());
        Reply::event(
            Event::Broadcast(
                Broadcast::ChangeHost {
                    old_user,
                    new_username: username.clone(),
                    new_hostname: hostname.clone(),
                    ourself,
                    channels,
                    sent_time: parsed.server_time,
                },
            ),
        )
    }
}

// ---------------------------------------------------------------------------
// Coming and going

/// A user leaves the server. The channels that are told of are those in which the nickname is
/// still known afterwards.
pub open spec fn on_quit(client: ClientView, comment: Option<Seq<char>>, parsed: Parsed) -> Step {
    match parsed.user {
        None => Step::nothing(client),
        Some(user) => {
            let chanmap = nowhere(client.chanmap, user@.nickname);
            Step::events(
                ClientView { chanmap, ..client },
                seq![
                    EventView::Broadcast(
                        BroadcastView::Quit {
                            user: user@,
                            comment,
                            channels: channels_of(chanmap, user@.nickname),
                            sent_time: parsed.server_time,
                        },
                    ),
                ],
            )
        },
    }
}

/// The client after a user has left a channel: where it is this client, the channel is forgotten.
pub open spec fn after_leaving(client: ClientView, channel: Seq<char>, nick: Seq<char>) -> ClientView {
    if nick == client.nick() {
        ClientView { chanmap: client.chanmap.remove(channel), ..client }
    } else if client.chanmap.contains_key(channel) {
        with_channel(client, channel, client.chanmap[channel].without(nick))
    } else {
        client
    }
}

/// A user leaves a channel.
pub open spec fn on_part(client: ClientView, channel: Seq<char>, parsed: Parsed) -> Step {
    match parsed.user {
        None => Step::nothing(client),
        Some(user) => Step::shown(after_leaving(client, channel, user@.nickname)),
    }
}

/// A user is thrown out of a channel.
pub open spec fn on_kick(client: ClientView, channel: Seq<char>, victim: Seq<char>) -> Step {
    Step::shown(after_leaving(client, channel, victim))
}

/// A user joins a channel. Where it is this client, the channel begins anew, and the state of its
/// users is asked for.
pub open spec fn on_join(
    client: ClientView,
    channel: Seq<char>,
    accountname: Option<Seq<char>>,
    parsed: Parsed,
    now: Instant,
) -> Step {
    match parsed.user {
        None => Step::nothing(client),
        Some(user) => if user@.nickname == client.nick() {
            Step::shown_sending(
                with_channel(
                    client,
                    channel,
                    ChannelView {
                        last_who: Some(who::requested_at(client, now)),
                        ..ChannelView::fresh()
                    },
                ),
                seq![super::sends(who::who_command(client, channel))],
            )
        } else if client.chanmap.contains_key(channel) {
            let newcomer = if client.supports_extended_join && accountname is Some {
                UserView { accountname, ..user@ }
            } else {
                user@
            };
            let state = client.chanmap[channel];
            Step::shown(
                with_channel(
                    client,
                    channel,
                    ChannelView { users: with_user(state.users, newcomer), ..state },
                ),
            )
        } else {
            Step::shown(client)
        },
    }
}

impl Client {
    /// Takes in that a user leaves the server.
    pub(super) fn quit(&mut self, comment: &Option<String>, parsed: &Parsed) -> (reply: Reply)
        ensures
            (Step { client: final(self)@, reply: reply@ }) == on_quit(
                old(self)@,
                text::opt_text(*comment),
                *parsed,
            ),
    {
        let user = match &parsed.user {
            Some(user) => user.clone(),
            None => return Reply::nothing(),
        };
        channel::remove_everywhere(&mut self.chanmap, user.nickname());
        let channels = self.user_channels(user.nickname());
        Reply::event(
            Event::Broadcast(
                Broadcast::Quit {
                    user,
                    comment: text::copy_opt_text(comment),
                    channels,
                    sent_time: parsed.server_time,
                },
            ),
        )
    }

    /// Records that a user has left a channel.
    fn leave(&mut self, channel: &str, nick: &str)
        ensures
            final(self)@ == after_leaving(old(self)@, channel@, nick@),
    {
        if text::same(nick, self.nickname()) {
            let _ = self.chanmap.remove(channel);
        } else if let Some(channel) = self.chanmap.get_mut(channel) {
            let _ = channel.users.remove(nick);
        }
    }

    /// Takes in that a user leaves a channel.
    pub(super) fn part(&mut self, channel: &String, parsed: &Parsed) -> (reply: Reply)
        ensures
            (Step { client: final(self)@, reply: reply@ }) == on_part(
                old(self)@,
                channel@,
                *parsed,
            ),
    {
        match &parsed.user {
            Some(user) => {
                self.leave(channel.as_str(), user.nickname());
                Reply::shown()
            },
            None => Reply::nothing(),
        }
    }

    /// Takes in that a user is thrown out of a channel.
    pub(super) fn kick(&mut self, channel: &String, victim: &String) -> (reply: Reply)
        ensures
            (Step { client: final(self)@, reply: reply@ }) == on_kick(
                old(self)@,
                channel@,
                victim@,
            ),
    {
        self.leave(channel.as_str(), victim.as_str());
        Reply::shown()
    }

    /// Takes in that a user joins a channel.
    pub(super) fn join(
        &mut self,
        channel: &String,
        accountname: &Option<String>,
        parsed: &Parsed,
        now: Instant,
    ) -> (reply: Reply)
        ensures
            (Step { client: final(self)@, reply: reply@ }) == on_join(
                old(self)@,
                channel@,
                text::opt_text(*accountname),
                *parsed,
                now,
            ),
    {
        let user = match &parsed.user {
            Some(user) => user,
            None => return Reply::nothing(),
        };
        if text::same(user.nickname(), self.nickname()) {
            let mut state = Channel::default();
            state.last_who = Some(self.request_status(now));
            let sent = super::one_command(self.who_request(channel));
            let _ = self.chanmap.insert(channel.clone(), state);
            Reply::shown_sending(sent)
        } else {
            let extended = self.supports_extended_join;
            if let Some(channel) = self.chanmap.get_mut(channel.as_str()) {
                let user = user.clone();
                let newcomer = match accountname {
                    Some(accountname) if extended => user.with_accountname(accountname.as_str()),
                    _ => user,
                };
                let _ = channel.users.insert(newcomer);
            }
            Reply::shown()
        }
    }
}

// ---------------------------------------------------------------------------
// Being away

/// A user is away, or is back.
pub open spec fn on_away(client: ClientView, away: bool, parsed: Parsed) -> Step {
    match parsed.user {
        None => Step::nothing(client),
        Some(user) => Step::shown(
            ClientView {
                chanmap: everywhere(client.chanmap, user@.nickname, Change::Away(away)),
                ..client
            },
        ),
    }
}

/// The user that the one name in a message stands for.
pub open spec fn named_user(parsed: Parsed) -> Option<User> {
    if parsed.users@.len() > 0 {
        parsed.users@[0]
    } else {
        None
    }
}

/// The server tells this client whether it is away.
pub open spec fn on_own_away(client: ClientView, away: bool, args: Seq<String>, parsed: Parsed) -> Step {
    if args.len() == 0 || named_user(parsed) is None {
        Step::nothing(client)
    } else {
        let nick = named_user(parsed)->0@.nickname;
        if nick == client.nick() {
            Step::shown(
                ClientView {
                    chanmap: everywhere(client.chanmap, nick, Change::Away(away)),
                    ..client
                },
            )
        } else {
            Step::shown(client)
        }
    }
}

impl Client {
    /// Takes in that a user is away, or is back.
    pub(super) fn away(&mut self, away: bool, parsed: &Parsed) -> (reply: Reply)
        ensures
            (Step { client: final(self)@, reply: reply@ }) == on_away(old(self)@, away, *parsed),
    {
        match &parsed.user {
            Some(user) => {
                channel::change_everywhere(&mut self.chanmap, user.nickname(), &Change::Away(away));
                Reply::shown()
            },
            None => Reply::nothing(),
        }
    }

    /// Takes in whether this client is away.
    pub(super) fn own_away(&mut self, away: bool, args: &Vec<String>, parsed: &Parsed) -> (reply: Reply)
        ensures
            (Step { client: final(self)@, reply: reply@ }) == on_own_away(
                old(self)@,
                away,
                args@,
                *parsed,
            ),
    {
        if args.len() == 0 || parsed.users.len() == 0 {
            return Reply::nothing();
        }
        match &parsed.users[0] {
            Some(user) => {
                if text::same(user.nickname(), self.nickname()) {
                    channel::change_everywhere(
                        &mut self.chanmap,
                        user.nickname(),
                        &Change::Away(away),
                    );
                }
                Reply::shown()
            },
            None => Reply::nothing(),
        }
    }
}

// ---------------------------------------------------------------------------
// Modes

/// The users of a channel after a change of its modes.
pub open spec fn with_mode(users: Users, mode: ChannelMode) -> Users {
    match (mode.operation, mode.arg, mode.level) {
        (Some(operation), Some(nick), Some(level)) => with_change(
            users,
            nick@,
            Change::AccessLevel(operation, level),
        ),
        _ => users,
    }
}

/// The users of a channel after changes of its modes.
pub open spec fn with_modes(users: Users, modes: Seq<ChannelMode>) -> Users
    decreases modes.len(),
{
    if modes.len() == 0 {
        users
    } else {
        with_mode(with_modes(users, modes.drop_last()), modes.last())
    }
}

/// Whether a change of a user's modes says that its nickname is registered.
pub open spec fn adds_registered(mode: UserMode) -> bool {
    mode.operation == Some(Operation::Add) && mode.kind is Registered && mode.arg is None
}

/// Whether any of the changes of a user's modes says that its nickname is registered.
pub open spec fn tells_registered(modes: Seq<UserMode>) -> bool {
    exists|i: int| 0 <= i < modes.len() && adds_registered(#[trigger] modes[i])
}

/// Modes change: those of a channel, or those of this client. The latter tell that the nickname is
/// registered, where the server does not tell of accounts otherwise.
pub open spec fn on_mode(client: ClientView, target: Seq<char>, parsed: Parsed) -> Step {
    if names_channel(target) {
        if client.chanmap.contains_key(target) {
            let state = client.chanmap[target];
            Step::shown(
                with_channel(
                    client,
                    target,
                    ChannelView {
                        users: with_modes(state.users, parsed.channel_modes@),
                        ..state
                    },
                ),
            )
        } else {
            Step::shown(client)
        }
    } else if target == client.nick() && !client.supports_account_notify && tells_registered(
        parsed.user_modes@,
    ) {
        Step::shown_sending(
            super::session::none_waiting(client),
            super::session::waiting_joins(client),
        )
    } else {
        Step::shown(client)
    }
}

/// Whether any of the changes of a user's modes says that its nickname is registered.
fn any_registered(modes: &Vec<UserMode>) -> (res: bool)
    ensures
        res == tells_registered(modes@),
{
    for i in 0..modes.len()
        invariant
            forall|j: int| 0 <= j < i ==> !adds_registered(#[trigger] modes@[j]),
    {
        let mode = &modes[i];
        if let Some(Operation::Add) = mode.operation {
            if let UserModeKind::Registered = &mode.kind {
                if mode.arg.is_none() {
                    assert(adds_registered(modes@[i as int]));
                    return true;
                }
            }
        }
    }
    false
}

/// Applies changes of modes to the users of a channel.
fn apply_modes(users: &mut UserSet, modes: &Vec<ChannelMode>)
    ensures
        final(users)@ == with_modes(old(users)@, modes@),
{
    assert(modes@.take(0) =~= Seq::<ChannelMode>::empty());
    for i in 0..modes.len()
        invariant
            users@ == with_modes(old(users)@, modes@.take(i as int)),
    {
        proof {
            assert(modes@.take(i + 1).drop_last() =~= modes@.take(i as int));
        }
        let mode = &modes[i];
        if let Some(operation) = mode.operation {
            if let Some(nick) = &mode.arg {
                if let Some(level) = mode.level {
                    users.change(nick.as_str(), &Change::AccessLevel(operation, level));
                }
            }
        }
    }
    assert(modes@.take(modes@.len() as int) =~= modes@);
}

impl Client {
    /// Takes in that modes change.
    pub(super) fn mode(&mut self, target: &String, parsed: &Parsed) -> (reply: Reply)
        ensures
            (Step { client: final(self)@, reply: reply@ }) == on_mode(old(self)@, target@, *parsed),
    {
        if proto::is_channel(target.as_str()) {
            if let Some(channel) = self.chanmap.get_mut(target.as_str()) {
                apply_modes(&mut channel.users, &parsed.channel_modes);
            }
            Reply::shown()
        } else if text::same(target.as_str(), self.nickname()) && !self.supports_account_notify
            && any_registered(&parsed.user_modes) {
            let sent = self.join_waiting();
            Reply::shown_sending(sent)
        } else {
            Reply::shown()
        }
    }
}

// ---------------------------------------------------------------------------
// Lists of users

/// The users of a channel after a list of users; a name that stands for no user is left out.
pub open spec fn with_users(users: Users, list: Seq<Option<User>>) -> Users
    decreases list.len(),
{
    if list.len() == 0 {
        users
    } else {
        let rest = with_users(users, list.drop_last());
        match list.last() {
            Some(user) => with_user(rest, user@),
            None => rest,
        }
    }
}

/// The server lists users of a channel. The list that comes with joining is not shown.
pub open spec fn on_namreply(client: ClientView, args: Seq<String>, parsed: Parsed) -> Step {
    if args.len() > 3 && client.chanmap.contains_key(args[2]@) {
        let state = client.chanmap[args[2]@];
        let after = with_channel(
            client,
            args[2]@,
            ChannelView { users: with_users(state.users, parsed.users@), ..state },
        );
        if state.names_init {
            Step::shown(after)
        } else {
            Step::nothing(after)
        }
    } else {
        Step::shown(client)
    }
}

/// The list of users is complete.
pub open spec fn on_endofnames(client: ClientView, args: Seq<String>) -> Step {
    if args.len() < 2 {
        Step::nothing(client)
    } else if names_channel(args[1]@) && client.chanmap.contains_key(args[1]@)
        && !client.chanmap[args[1]@].names_init {
        Step::nothing(
            with_channel(
                client,
                args[1]@,
                ChannelView { names_init: true, ..client.chanmap[args[1]@] },
            ),
        )
    } else {
        Step::shown(client)
    }
}

/// Adds the users of a list to those of a channel.
fn add_users(users: &mut UserSet, list: &Vec<Option<User>>)
    ensures
        final(users)@ == with_users(old(users)@, list@),
{
    assert(list@.take(0) =~= Seq::<Option<User>>::empty());
    for i in 0..list.len()
        invariant
            users@ == with_users(old(users)@, list@.take(i as int)),
    {
        proof {
            assert(list@.take(i + 1).drop_last() =~= list@.take(i as int));
        }
        if let Some(user) = &list[i] {
            let _ = users.insert(user.clone());
        }
    }
    assert(list@.take(list@.len() as int) =~= list@);
}

impl Client {
    /// Takes in a list of users of a channel.
    pub(super) fn names(&mut self, args: &Vec<String>, parsed: &Parsed) -> (reply: Reply)
        ensures
            (Step { client: final(self)@, reply: reply@ }) == on_namreply(
                old(self)@,
                args@,
                *parsed,
            ),
    {
        if args.len() > 3 {
            if let Some(channel) = self.chanmap.get_mut(args[2].as_str()) {
                add_users(&mut channel.users, &parsed.users);
                let names_init = channel.names_init;
                if !names_init {
                    return Reply::nothing();
                }
            }
        }
        Reply::shown()
    }

    /// Takes in that a list of users is complete.
    pub(super) fn end_of_names(&mut self, args: &Vec<String>) -> (reply: Reply)
        ensures
            (Step { client: final(self)@, reply: reply@ }) == on_endofnames(old(self)@, args@),
    {
        if args.len() < 2 {
            return Reply::nothing();
        }
        if proto::is_channel(args[1].as_str()) {
            let ghost before = self@.chanmap;
            if let Some(channel) = self.chanmap.get_mut(args[1].as_str()) {
                if !channel.names_init {
                    channel.names_init = true;
                    return Reply::nothing();
                }
            }
            assert(self@.chanmap =~= before);
        }
        Reply::shown()
    }
}

// ---------------------------------------------------------------------------
// Topics

/// Whether a message about a topic lacks what it must have: a reply with the topic its channel, or
/// one with a change of the topic of a known channel the username of whoever changed it.
pub open spec fn lacks_parts(client: ClientView, command: proto::Command, parsed: Parsed) -> bool {
    match command {
        proto::Command::Numeric(proto::Numeric::RPL_TOPIC, args) => args@.len() < 2,
        proto::Command::Numeric(proto::Numeric::RPL_TOPICWHOTIME, args) => args@.len() < 2,
        proto::Command::TOPIC(channel, _) => client.chanmap.contains_key(channel@)
            && parsed.user is Some && parsed.user->0.username is None,
        _ => false,
    }
}

/// The topic of a channel changes.
pub open spec fn on_topic(client: ClientView, channel: Seq<char>, topic: Option<String>, parsed: Parsed) -> Step {
    if client.chanmap.contains_key(channel) {
        let state = client.chanmap[channel];
        let content = match topic {
            Some(text) => Some(Content { text }),
            None => state.topic.content,
        };
        let author = match parsed.user {
            Some(user) => user.username,
            None => None,
        };
        Step::shown(
            with_channel(
                client,
                channel,
                ChannelView {
                    topic: Topic { content, who: author, time: Some(parsed.server_time) },
                    ..state
                },
            ),
        )
    } else {
        Step::shown(client)
    }
}

/// The server tells the topic of a channel.
pub open spec fn on_rpl_topic(client: ClientView, args: Seq<String>) -> Step {
    if client.chanmap.contains_key(args[1]@) {
        if args.len() < 3 {
            Step::nothing(client)
        } else {
            let state = client.chanmap[args[1]@];
            Step::shown(
                with_channel(
                    client,
                    args[1]@,
                    ChannelView {
                        topic: Topic { content: Some(Content { text: args[2] }), ..state.topic },
                        ..state
                    },
                ),
            )
        }
    } else {
        Step::shown(client)
    }
}

/// The time that a number of seconds stands for.
pub open spec fn time_of(seconds: Seq<char>) -> Option<DateTime> {
    match number::parsed(seconds) {
        Some(seconds) => Posix {
            nanos: (seconds * crate::time::NANOS_PER_SECOND) as u128,
        }.date_time(),
        None => None,
    }
}

/// The server tells who set the topic of a channel, and when. The author is recorded even where
/// the time makes no sense.
pub open spec fn on_topicwhotime(client: ClientView, args: Seq<String>) -> Step {
    if client.chanmap.contains_key(args[1]@) {
        if args.len() < 3 {
            Step::nothing(client)
        } else {
            let state = client.chanmap[args[1]@];
            let topic = Topic { who: Some(args[2]), ..state.topic };
            if args.len() > 3 && time_of(args[3]@) is Some {
                Step::shown(
                    with_channel(
                        client,
                        args[1]@,
                        ChannelView { topic: Topic { time: time_of(args[3]@), ..topic }, ..state },
                    ),
                )
            } else {
                Step::nothing(with_channel(client, args[1]@, ChannelView { topic, ..state }))
            }
        }
    } else {
        Step::shown(client)
    }
}

/// The time that a number of seconds stands for.
fn parse_time(seconds: &str) -> (time: Option<DateTime>)
    ensures
        time == time_of(seconds@),
{
    match number::parse_u64(seconds) {
        Some(seconds) => Posix::from_seconds(seconds).datetime(),
        None => None,
    }
}

impl Client {
    /// Takes in that the topic of a channel changes.
    pub(super) fn topic(&mut self, channel: &String, topic: &Option<String>, parsed: &Parsed) -> (reply:
        Reply)
        requires
            old(self)@.chanmap.contains_key(channel@) && parsed.user is Some
                ==> parsed.user->0.username is Some,
        ensures
            (Step { client: final(self)@, reply: reply@ }) == on_topic(
                old(self)@,
                channel@,
                *topic,
                *parsed,
            ),
    {
        if let Some(channel) = self.chanmap.get_mut(channel.as_str()) {
            if let Some(text) = topic {
                channel.topic.content = Some(Content { text: text.clone() });
            }
            channel.topic.who = match &parsed.user {
                Some(user) => text::copy_opt_text(&user.username),
                None => None,
            };
            channel.topic.time = Some(parsed.server_time);
        }
        Reply::shown()
    }

    /// Takes in the topic of a channel.
    pub(super) fn topic_told(&mut self, args: &Vec<String>) -> (reply: Reply)
        requires
            args@.len() >= 2,
        ensures
            (Step { client: final(self)@, reply: reply@ }) == on_rpl_topic(old(self)@, args@),
    {
        let ghost before = self@.chanmap;
        if let Some(channel) = self.chanmap.get_mut(args[1].as_str()) {
            if args.len() < 3 {
                assert(before.insert(args@[1]@, before[args@[1]@]) =~= before);
                return Reply::nothing();
            }
            channel.topic.content = Some(Content { text: args[2].clone() });
        }
        Reply::shown()
    }

    /// Takes in who set the topic of a channel, and when.
    pub(super) fn topic_author_told(&mut self, args: &Vec<String>) -> (reply: Reply)
        requires
            args@.len() >= 2,
        ensures
            (Step { client: final(self)@, reply: reply@ }) == on_topicwhotime(old(self)@, args@),
    {
        let ghost before = self@.chanmap;
        if let Some(channel) = self.chanmap.get_mut(args[1].as_str()) {
            if args.len() < 3 {
                assert(before.insert(args@[1]@, before[args@[1]@]) =~= before);
                return Reply::nothing();
            }
            channel.topic.who = Some(args[2].clone());
            if args.len() < 4 {
                return Reply::nothing();
            }
            match parse_time(args[3].as_str()) {
                Some(time) => {
                    channel.topic.time = Some(time);
                },
                None => return Reply::nothing(),
            }
        }
        Reply::shown()
    }
}

} // verus!
