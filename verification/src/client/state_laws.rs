//! What a client knows of its channels after messages about modes, lists of users and topics.

use vstd::prelude::*;

use super::dispatch::{on_command, on_numeric};
use super::exchange::{on_receive, ReceivedView};
use super::member_laws::{by_nickname, nothing, shown};
use super::members::{adds_registered, on_mode, on_namreply};
use super::members::{on_topic, on_topicwhotime, tells_registered, with_modes};
use super::plain_laws::{lemma_received, lemma_reply_received, lemma_shown, unmarked};
use super::{ClientView, OutgoingView};
use crate::channel::{ChannelView, Topic};
use crate::event::EventView;
use crate::grouping::joins;
use crate::message::{ChannelMode, Content, EncodedView};
use crate::number;
use crate::proto::{names_channel, MessageView};
use crate::time::{DateTime, Instant};
use crate::user::{Operation, User, UserView, Users};

verus! {

/// What joins channels with their keys, as it is sent.
pub open spec fn joining(channels: Seq<Seq<char>>, keys: Map<Seq<char>, Seq<char>>) -> Seq<OutgoingView> {
    joins(channels, keys).map_values(|message: MessageView| OutgoingView::Message(message))
}

/// To join no channels nothing is sent.
pub proof fn law_joining_none(keys: Map<Seq<char>, Seq<char>>)
    ensures
        joining(Seq::empty(), keys) == Seq::<OutgoingView>::empty(),
{
    assert(joins(Seq::empty(), keys) =~= Seq::<MessageView>::empty());
}

/// A client that knows of a channel what it knew, but for the users.
pub open spec fn with_users_of(client: ClientView, channel: Seq<char>, users: Users) -> ClientView {
    ClientView {
        chanmap: client.chanmap.insert(
            channel,
            ChannelView { users, ..client.chanmap[channel] },
        ),
        ..client
    }
}

// ---------------------------------------------------------------------------
// Modes

/// The users of a channel after one change of a mode: who is given or loses a level has it then, or
/// has it no more; a change that names no user, or no level, and one of a user who is not known,
/// changes nothing.
pub open spec fn after_mode(users: Users, mode: ChannelMode) -> Users {
    match (mode.operation, mode.arg, mode.level) {
        (Some(operation), Some(nick), Some(level)) => if users.contains_key(nick@) {
            users.insert(
                nick@,
                UserView {
                    access_levels: match operation {
                        Operation::Add => users[nick@].access_levels.insert(level),
                        Operation::Remove => users[nick@].access_levels.remove(level),
                    },
                    ..users[nick@]
                },
            )
        } else {
            users
        },
        _ => users,
    }
}

proof fn lemma_keyed_modes(users: Users, modes: Seq<ChannelMode>)
    requires
        forall|nick: Seq<char>| #[trigger] users.contains_key(nick) ==> users[nick].nickname == nick,
    ensures
        forall|nick: Seq<char>| #[trigger]
            with_modes(users, modes).contains_key(nick) ==> with_modes(users, modes)[nick].nickname
                == nick,
        modes.len() > 0 ==> with_modes(users, modes) == after_mode(
            with_modes(users, modes.drop_last()),
            modes.last(),
        ),
    decreases modes.len(),
{
    if modes.len() > 0 {
        lemma_keyed_modes(users, modes.drop_last());
        let before = with_modes(users, modes.drop_last());
        let mode = modes.last();
        match (mode.operation, mode.arg, mode.level) {
            (Some(operation), Some(nick), Some(level)) => {
                if before.contains_key(nick@) {
                    assert(before[nick@].nickname == nick@);
                    assert(with_modes(users, modes) =~= after_mode(before, mode));
                }
            },
            _ => {},
        }
    }
}

/// Whether a message changes modes of a channel that is known.
pub open spec fn changes_modes(client: ClientView, message: EncodedView) -> bool {
    &&& unmarked(message)
    &&& message.command is MODE
    &&& message.command->MODE_1 is Some
    &&& message.command->MODE_2 is Some
    &&& names_channel(message.command->MODE_0@)
    &&& client.chanmap.contains_key(message.command->MODE_0@)
}

/// A change of a channel's modes is shown, and changes nothing but the users of the channel; where
/// it changes nothing, the users stay too. A message with one change more does that change more.
pub proof fn law_channel_modes(
    client: ClientView,
    message: EncodedView,
    longer: EncodedView,
    mode: ChannelMode,
    now: Instant,
)
    requires
        changes_modes(client, message),
        by_nickname(client.chanmap),
        changes_modes(client, longer),
        longer.command == message.command,
        longer.parsed.channel_modes@ == message.parsed.channel_modes@.push(mode),
    ensures
        ({
            let channel = message.command->MODE_0@;
            let received = on_receive(client, message, now);
            let users = received.client.chanmap[channel].users;
            &&& received == shown(with_users_of(client, channel, users), message)
            &&& message.parsed.channel_modes@.len() == 0 ==> users == client.chanmap[channel].users
            &&& on_receive(client, longer, now) == shown(
                with_users_of(client, channel, after_mode(users, mode)),
                longer,
            )
        }),
{
    let channel = message.command->MODE_0@;
    let before = client.chanmap[channel].users;
    lemma_received(client, message, now);
    lemma_received(client, longer, now);
    lemma_shown(message);
    lemma_shown(longer);
    assert(on_command(client, message.command, message.parsed, false, now) == on_mode(
        client,
        channel,
        message.parsed,
    ) && on_command(client, longer.command, longer.parsed, false, now) == on_mode(
        client,
        channel,
        longer.parsed,
    )) by {
        reveal(on_command);
    }
    assert forall|nick: Seq<char>| #[trigger] before.contains_key(nick) implies before[nick].nickname
        == nick by {
        assert(client.chanmap[channel].users.contains_key(nick));
    }
    lemma_keyed_modes(before, longer.parsed.channel_modes@);
    assert(longer.parsed.channel_modes@.drop_last() =~= message.parsed.channel_modes@);
}

/// Modes of a channel that is not known are only shown.
pub proof fn law_modes_elsewhere(client: ClientView, message: EncodedView, now: Instant)
    requires
        unmarked(message),
        message.command is MODE,
        names_channel(message.command->MODE_0@),
        !client.chanmap.contains_key(message.command->MODE_0@),
    ensures
        on_receive(client, message, now) == shown(client, message),
{
    lemma_received(client, message, now);
    lemma_shown(message);
    reveal(on_command);
}

/// Modes of a user are shown. Where they are those of this client, say that its nickname is
/// registered, and the server does not tell of accounts otherwise, the channels that wait for the
/// account are joined and wait no more.
pub proof fn law_user_modes(client: ClientView, message: EncodedView, now: Instant)
    requires
        unmarked(message),
        message.command is MODE,
        message.command->MODE_1 is Some,
        message.command->MODE_2 is Some,
        !names_channel(message.command->MODE_0@),
    ensures
        ({
            let modes = message.parsed.user_modes@;
            let registered = exists|i: int|
                0 <= i < modes.len() && (#[trigger] modes[i]).operation == Some(Operation::Add)
                    && modes[i].kind is Registered && modes[i].arg is None;
            let joins_now = registered && message.command->MODE_0@ == client.nick()
                && !client.supports_account_notify;
            on_receive(client, message, now) == ReceivedView {
                client: ClientView {
                    registration_required_channels: if joins_now {
                        Seq::empty()
                    } else {
                        client.registration_required_channels
                    },
                    ..client
                },
                sent: if joins_now {
                    joining(client.registration_required_channels, client.config.channel_keys)
                } else {
                    Seq::empty()
                },
                events: seq![EventView::Single(message)],
            }
        }),
{
    lemma_received(client, message, now);
    lemma_shown(message);
    law_joining_none(client.config.channel_keys);
    if client.registration_required_channels.len() == 0 {
        assert(client.registration_required_channels =~= Seq::empty());
    }
    let modes = message.parsed.user_modes@;
    assert(on_command(client, message.command, message.parsed, false, now) == on_mode(
        client,
        message.command->MODE_0@,
        message.parsed,
    )) by {
        reveal(on_command);
    }
    if tells_registered(modes) {
        let i = choose|i: int| 0 <= i < modes.len() && adds_registered(#[trigger] modes[i]);
        assert(modes[i].operation == Some(Operation::Add));
    } else {
        assert forall|i: int| 0 <= i < modes.len() implies !((#[trigger] modes[i]).operation == Some(
            Operation::Add,
        ) && modes[i].kind is Registered && modes[i].arg is None) by {
            assert(!adds_registered(modes[i]));
        }
    }
}

// ---------------------------------------------------------------------------
// Lists of users

/// Whether a message lists users of a channel that is known.
pub open spec fn lists_users(client: ClientView, message: EncodedView) -> bool {
    &&& unmarked(message)
    &&& client.reroute_responses_to is None
    &&& message.command is Numeric
    &&& message.command->Numeric_0 is RPL_NAMREPLY
    &&& message.command->Numeric_1@.len() > 3
    &&& client.chanmap.contains_key(message.command->Numeric_1@[2]@)
}

/// A list of users adds those to a channel that are not known there yet, with all that the list
/// tells of them; a name that stands for no user adds none. It is shown, but not the list that
/// comes with joining. A message with one name more adds one user more.
pub proof fn law_listing_users(
    client: ClientView,
    message: EncodedView,
    longer: EncodedView,
    user: Option<User>,
    now: Instant,
)
    requires
        lists_users(client, message),
        lists_users(client, longer),
        longer.command == message.command,
        longer.parsed.users@ == message.parsed.users@.push(user),
    ensures
        ({
            let channel = message.command->Numeric_1@[2]@;
            let state = client.chanmap[channel];
            let received = on_receive(client, message, now);
            let more = on_receive(client, longer, now);
            let users = received.client.chanmap[channel].users;
            &&& received.client == with_users_of(client, channel, users)
            &&& message.parsed.users@.len() == 0 ==> users == state.users
            &&& more.client == with_users_of(
                client,
                channel,
                if user is Some && !users.contains_key(user->0@.nickname) {
                    users.insert(user->0@.nickname, user->0@)
                } else {
                    users
                },
            )
            &&& received.sent.len() == 0
            &&& received.events == if state.names_init {
                seq![EventView::Single(message)]
            } else {
                Seq::<EventView>::empty()
            }
        }),
{
    let channel = message.command->Numeric_1@[2]@;
    lemma_reply_received(client, message, now);
    lemma_reply_received(client, longer, now);
    lemma_shown(message);
    lemma_shown(longer);
    let args = message.command->Numeric_1@;
    let numeric = message.command->Numeric_0;
    assert(on_numeric(client, numeric, args, message.parsed, now) == on_namreply(
        client,
        args,
        message.parsed,
    ) && on_numeric(client, numeric, args, longer.parsed, now) == on_namreply(
        client,
        args,
        longer.parsed,
    )) by {
        reveal(on_numeric);
    }
    assert(longer.parsed.users@.drop_last() =~= message.parsed.users@);
}

/// A list of users of a channel that is not known, or one that lacks the names, is only shown.
pub proof fn law_listing_elsewhere(client: ClientView, message: EncodedView, now: Instant)
    requires
        unmarked(message),
        client.reroute_responses_to is None,
        message.command is Numeric,
        message.command->Numeric_0 is RPL_NAMREPLY,
        message.command->Numeric_1@.len() <= 3 || !client.chanmap.contains_key(
            message.command->Numeric_1@[2]@,
        ),
    ensures
        on_receive(client, message, now) == shown(client, message),
{
    lemma_reply_received(client, message, now);
    lemma_shown(message);
    reveal(on_numeric);
}

/// The end of the list of users that comes with joining a channel is not shown, and is remembered.
/// Every other end is shown.
pub proof fn law_end_of_names(client: ClientView, message: EncodedView, now: Instant)
    requires
        unmarked(message),
        client.reroute_responses_to is None,
        message.command is Numeric,
        message.command->Numeric_0 is RPL_ENDOFNAMES,
    ensures
        ({
            let args = message.command->Numeric_1@;
            let state = client.chanmap[args[1]@];
            on_receive(client, message, now) == if args.len() < 2 {
                nothing(client)
            } else if names_channel(args[1]@) && client.chanmap.contains_key(args[1]@)
                && !state.names_init {
                nothing(
                    ClientView {
                        chanmap: client.chanmap.insert(
                            args[1]@,
                            ChannelView { names_init: true, ..state },
                        ),
                        ..client
                    },
                )
            } else {
                shown(client, message)
            }
        }),
{
    lemma_reply_received(client, message, now);
    lemma_shown(message);
    reveal(on_numeric);
}

// ---------------------------------------------------------------------------
// Topics

/// A client that knows of a channel what it knew, but for the topic.
pub open spec fn with_topic(client: ClientView, channel: Seq<char>, topic: Topic) -> ClientView {
    ClientView {
        chanmap: client.chanmap.insert(
            channel,
            ChannelView { topic, ..client.chanmap[channel] },
        ),
        ..client
    }
}

/// A topic that is set is the topic of the channel from then on, whatever it was before, by the
/// username of whoever set it, at the time of the message. A message without a text leaves the
/// text as it was. Only the topic changes, and only that of a channel that is known.
pub proof fn law_topic_is_set(client: ClientView, message: EncodedView, now: Instant)
    requires
        unmarked(message),
        message.command is TOPIC,
    ensures
        ({
            let channel = message.command->TOPIC_0@;
            let content = message.command->TOPIC_1;
            let received = on_receive(client, message, now);
            let topic = received.client.chanmap[channel].topic;
            if client.chanmap.contains_key(channel) {
                &&& received == shown(with_topic(client, channel, topic), message)
                &&& content is Some ==> topic.content is Some && topic.content->0.text == content->0
                &&& content is None ==> topic.content == client.chanmap[channel].topic.content
                &&& topic.who == if message.parsed.user is Some {
                    message.parsed.user->0.username
                } else {
                    None
                }
                &&& topic.time == Some(message.parsed.server_time)
            } else {
                received == shown(client, message)
            }
        }),
{
    lemma_received(client, message, now);
    lemma_shown(message);
    assert(on_command(client, message.command, message.parsed, false, now) == on_topic(
        client,
        message.command->TOPIC_0@,
        message.command->TOPIC_1,
        message.parsed,
    )) by {
        reveal(on_command);
    }
}

/// The topic that the server tells is the text of the topic from then on; who set it and when stay
/// as they were.
pub proof fn law_topic_is_told(client: ClientView, message: EncodedView, now: Instant)
    requires
        unmarked(message),
        client.reroute_responses_to is None,
        message.command is Numeric,
        message.command->Numeric_0 is RPL_TOPIC,
        message.command->Numeric_1@.len() >= 2,
    ensures
        ({
            let args = message.command->Numeric_1@;
            let topic = client.chanmap[args[1]@].topic;
            on_receive(client, message, now) == if !client.chanmap.contains_key(args[1]@) {
                shown(client, message)
            } else if args.len() < 3 {
                nothing(client)
            } else {
                shown(
                    with_topic(
                        client,
                        args[1]@,
                        Topic {
                            content: Some(Content { text: args[2] }),
                            who: topic.who,
                            time: topic.time,
                        },
                    ),
                    message,
                )
            }
        }),
{
    lemma_reply_received(client, message, now);
    lemma_shown(message);
    reveal(on_numeric);
}

/// Who set the topic, and when, is what the server tells: seconds since the start of 1970. Where
/// they stand for no time, only the author is known from then on, and nothing is shown. The text
/// stays as it was.
pub proof fn law_topic_author_is_told(client: ClientView, message: EncodedView, now: Instant)
    requires
        unmarked(message),
        client.reroute_responses_to is None,
        message.command is Numeric,
        message.command->Numeric_0 is RPL_TOPICWHOTIME,
        message.command->Numeric_1@.len() >= 2,
    ensures
        ({
            let args = message.command->Numeric_1@;
            let topic = client.chanmap[args[1]@].topic;
            let seconds = number::parsed(args[3]@);
            on_receive(client, message, now) == if !client.chanmap.contains_key(args[1]@) {
                shown(client, message)
            } else if args.len() < 3 {
                nothing(client)
            } else if args.len() > 3 && seconds is Some && seconds->0 <= 8_210_266_876_799 {
                shown(
                    with_topic(
                        client,
                        args[1]@,
                        Topic {
                            content: topic.content,
                            who: Some(args[2]),
                            time: Some(DateTime { seconds: seconds->0 as i64, nanos: 0 }),
                        },
                    ),
                    message,
                )
            } else {
                nothing(
                    with_topic(
                        client,
                        args[1]@,
                        Topic { content: topic.content, who: Some(args[2]), time: topic.time },
                    ),
                )
            }
        }),
{
    lemma_reply_received(client, message, now);
    lemma_shown(message);
    let args = message.command->Numeric_1@;
    let step = on_topicwhotime(client, args);
    assert(on_numeric(client, message.command->Numeric_0, args, message.parsed, now) == step) by {
        reveal(on_numeric);
    }
    if args.len() > 3 && number::parsed(args[3]@) is Some {
        let seconds = number::parsed(args[3]@)->0;
        let nanos = seconds * 1_000_000_000;
        assert(nanos <= u64::MAX * 1_000_000_000);
        assert(nanos as u128 == nanos);
        assert(nanos as u128 / 1_000_000_000 == seconds);
        assert(nanos as u128 % 1_000_000_000 == 0);
    }
}

} // verus!
