//! What a client knows of the users of its channels after each message about them.

use vstd::prelude::*;

use super::dispatch::{on_command, on_numeric};
use super::exchange::{on_receive, ReceivedView};
use super::members::{on_away, on_chghost, on_invite, on_join, on_kick, on_nick, on_own_away};
use super::members::{on_part, on_quit};
use super::plain_laws::{lemma_received, lemma_reply_received, lemma_shown, unmarked};
use super::session::{on_account, on_logged_in, on_logged_out};
use super::{ClientView, OutgoingView, Step};
use crate::channel::{channels_of, everywhere, nowhere, ChannelView, Channels, Topic, WhoStatus};
use crate::event::{BroadcastView, EventView};
use crate::message::EncodedView;
use crate::proto::{Command, MessageView, Numeric};
use crate::text;
use crate::text::{in_order, increasing, law_in_order_holds_all};
use crate::time::Instant;
use crate::user::{ChangeView, UserView};

verus! {

/// A message that is shown, and about which nothing is sent.
pub open spec fn shown(client: ClientView, message: EncodedView) -> ReceivedView {
    ReceivedView { client, sent: Seq::empty(), events: seq![EventView::Single(message)] }
}

/// Whether nothing comes of a message.
pub open spec fn nothing(client: ClientView) -> ReceivedView {
    ReceivedView { client, sent: Seq::empty(), events: Seq::empty() }
}

/// Whether each user of each channel is kept under its own nickname.
pub open spec fn by_nickname(channels: Channels) -> bool {
    forall|name: Seq<char>, nick: Seq<char>|
        channels.contains_key(name) && #[trigger] channels[name].users.contains_key(nick)
            ==> channels[name].users[nick].nickname == nick
}

/// Whether channels differ in one user alone: it is another wherever it is known.
pub open spec fn one_user_differs(
    before: Channels,
    after: Channels,
    nick: Seq<char>,
    other: spec_fn(UserView) -> UserView,
) -> bool {
    &&& after.dom() == before.dom()
    &&& forall|name: Seq<char>| #[trigger]
        before.contains_key(name) ==> after[name] == (ChannelView {
            users: if before[name].users.contains_key(nick) {
                before[name].users.insert(nick, other(before[name].users[nick]))
            } else {
                before[name].users
            },
            ..before[name]
        })
}

/// Whether a list names the channels in which a user is known, each once and in order.
pub open spec fn names_channels_with(list: Seq<Seq<char>>, channels: Channels, nick: Seq<char>) -> bool {
    &&& increasing(list)
    &&& forall|name: Seq<char>|
        list.contains(name) <==> #[trigger] channels.contains_key(name)
            && channels[name].users.contains_key(nick)
}

proof fn lemma_channels_of(channels: Channels, nick: Seq<char>)
    requires
        channels.dom().finite(),
    ensures
        names_channels_with(channels_of(channels, nick), channels, nick),
{
    let set = channels.dom().filter(|name: Seq<char>| channels[name].users.contains_key(nick));
    law_in_order_holds_all(set);
    let list = in_order(set);
    assert forall|name: Seq<char>|
        list.contains(name) <==> #[trigger] channels.contains_key(name)
            && channels[name].users.contains_key(nick) by {
        assert(list.contains(name) <==> list.to_set().contains(name));
    }
}

proof fn lemma_same_channels(
    before: Channels,
    after: Channels,
    nick: Seq<char>,
    other: spec_fn(UserView) -> UserView,
)
    requires
        before.dom().finite(),
        one_user_differs(before, after, nick, other),
    ensures
        names_channels_with(channels_of(after, nick), before, nick),
{
    lemma_channels_of(after, nick);
    let list = channels_of(after, nick);
    assert forall|name: Seq<char>|
        list.contains(name) <==> #[trigger] before.contains_key(name)
            && before[name].users.contains_key(nick) by {
        assert(after.contains_key(name) == before.contains_key(name));
    }
}

proof fn lemma_everywhere(channels: Channels, nick: Seq<char>, change: ChangeView)
    requires
        by_nickname(channels),
        !(change is Nickname),
    ensures
        one_user_differs(
            channels,
            everywhere(channels, nick, change),
            nick,
            |user: UserView| user.changed(change),
        ),
{
    let after = everywhere(channels, nick, change);
    assert(after.dom() =~= channels.dom());
    assert forall|name: Seq<char>| #[trigger] channels.contains_key(name) implies after[name]
        == (ChannelView {
        users: if channels[name].users.contains_key(nick) {
            channels[name].users.insert(nick, channels[name].users[nick].changed(change))
        } else {
            channels[name].users
        },
        ..channels[name]
    }) by {
        let users = channels[name].users;
        if users.contains_key(nick) {
            assert(users[nick].nickname == nick);
            assert(users.remove(nick).insert(nick, users[nick].changed(change)) =~= users.insert(
                nick,
                users[nick].changed(change),
            ));
        }
    }
}

// ---------------------------------------------------------------------------
// Joining and leaving

/// Another user who joins a known channel is known there from then on as the message tells of it,
/// and with the account that the message names where such joins tell of accounts; a user who is
/// known there already stays as it is. All else stays, and the message is shown.
pub proof fn law_join_adds_user(client: ClientView, message: EncodedView, now: Instant)
    requires
        unmarked(message),
        message.command is JOIN,
        message.parsed.user is Some,
        message.parsed.user->0@.nickname != client.nick(),
    ensures
        ({
            let channel = message.command->JOIN_0@;
            let account = message.command->JOIN_1;
            let user = message.parsed.user->0@;
            let state = client.chanmap[channel];
            if client.chanmap.contains_key(channel) && !state.users.contains_key(user.nickname) {
                on_receive(client, message, now) == shown(
                    ClientView {
                        chanmap: client.chanmap.insert(
                            channel,
                            ChannelView {
                                users: state.users.insert(
                                    user.nickname,
                                    UserView {
                                        nickname: user.nickname,
                                        username: user.username,
                                        hostname: user.hostname,
                                        access_levels: user.access_levels,
                                        away: user.away,
                                        accountname: if client.supports_extended_join && account is Some {
                                            Some(account->0@)
                                        } else {
                                            user.accountname
                                        },
                                    },
                                ),
                                last_who: state.last_who,
                                topic: state.topic,
                                names_init: state.names_init,
                            },
                        ),
                        ..client
                    },
                    message,
                )
            } else {
                on_receive(client, message, now) == shown(client, message)
            }
        }),
{
    lemma_received(client, message, now);
    lemma_shown(message);
    let channel = message.command->JOIN_0@;
    let step = on_join(
        client,
        channel,
        text::opt_text(message.command->JOIN_1),
        message.parsed,
        now,
    );
    assert(on_command(client, message.command, message.parsed, false, now) == step) by {
        reveal(on_command);
    }
    if client.chanmap.contains_key(channel) && client.chanmap[channel].users.contains_key(
        message.parsed.user->0@.nickname,
    ) {
        assert(step.client.chanmap =~= client.chanmap);
    }
}

/// A channel that this client joins is known from then on, without users or topic, whatever was
/// known of it; who is in it is asked for at once, in the extended form where the server has it,
/// and that is remembered with the time.
pub proof fn law_own_join(client: ClientView, message: EncodedView, now: Instant)
    requires
        unmarked(message),
        message.command is JOIN,
        message.parsed.user is Some,
        message.parsed.user->0@.nickname == client.nick(),
    ensures
        ({
            let channel = message.command->JOIN_0@;
            let token = client.environment.who_poll_token;
            let extended = client.isupport.contains_key("WHOX"@);
            on_receive(client, message, now) == ReceivedView {
                client: ClientView {
                    chanmap: client.chanmap.insert(
                        channel,
                        ChannelView {
                            users: Map::empty(),
                            topic: Topic { content: None, who: None, time: None },
                            names_init: false,
                            last_who: Some(
                                WhoStatus::Requested(
                                    now,
                                    if extended {
                                        Some(token)
                                    } else {
                                        None
                                    },
                                ),
                            ),
                        },
                    ),
                    ..client
                },
                sent: seq![
                    OutgoingView::Message(
                        MessageView {
                            tags: Seq::empty(),
                            command: if extended {
                                Command::WHO(
                                    channel,
                                    Some(
                                        if client.supports_account_notify {
                                            "tcnfa"@
                                        } else {
                                            "tcnf"@
                                        },
                                    ),
                                    Some(token.text@),
                                )
                            } else {
                                Command::WHO(channel, None, None)
                            },
                        },
                    ),
                ],
                events: seq![EventView::Single(message)],
            }
        }),
{
    lemma_received(client, message, now);
    lemma_shown(message);
    assert(on_command(client, message.command, message.parsed, false, now) == on_join(
        client,
        message.command->JOIN_0@,
        text::opt_text(message.command->JOIN_1),
        message.parsed,
        now,
    )) by {
        reveal(on_command);
    }
}

/// The client after a user has left a channel, of its own will or not: the channel is forgotten
/// where it is this client, and otherwise the user is known there no more.
pub open spec fn has_left(client: ClientView, channel: Seq<char>, nick: Seq<char>) -> ClientView {
    ClientView {
        chanmap: if nick == client.nick() {
            client.chanmap.remove(channel)
        } else if client.chanmap.contains_key(channel) {
            client.chanmap.insert(
                channel,
                ChannelView {
                    users: client.chanmap[channel].users.remove(nick),
                    ..client.chanmap[channel]
                },
            )
        } else {
            client.chanmap
        },
        ..client
    }
}

/// Who leaves a channel, or is thrown out of it, is in it no more. The message is shown.
pub proof fn law_leaving(client: ClientView, message: EncodedView, now: Instant)
    requires
        unmarked(message),
    ensures
        message.command is PART && message.parsed.user is Some ==> on_receive(client, message, now)
            == shown(
            has_left(client, message.command->PART_0@, message.parsed.user->0@.nickname),
            message,
        ),
        message.command is KICK ==> on_receive(client, message, now) == shown(
            has_left(client, message.command->KICK_0@, message.command->KICK_1@),
            message,
        ),
{
    if message.command is PART || message.command is KICK {
        let step = on_command(client, message.command, message.parsed, false, now);
        assert(message.command is PART ==> step == on_part(
            client,
            message.command->PART_0@,
            message.parsed,
        )) by {
            reveal(on_command);
        }
        assert(message.command is KICK ==> step == on_kick(
            client,
            message.command->KICK_0@,
            message.command->KICK_1@,
        )) by {
            reveal(on_command);
        }
        lemma_received(client, message, now);
        lemma_shown(message);
    }
}

/// Who leaves the server is in no channel any more, and that is told.
pub proof fn law_quitting(client: ClientView, message: EncodedView, now: Instant)
    requires
        unmarked(message),
        message.command is QUIT,
        message.parsed.user is Some,
    ensures
        ({
            let user = message.parsed.user->0@;
            let comment = message.command->QUIT_0;
            let received = on_receive(client, message, now);
            &&& received.client == ClientView { chanmap: received.client.chanmap, ..client }
            &&& received.client.chanmap.dom() == client.chanmap.dom()
            &&& forall|name: Seq<char>| #[trigger]
                client.chanmap.contains_key(name) ==> received.client.chanmap[name] == (ChannelView {
                    users: client.chanmap[name].users.remove(user.nickname),
                    ..client.chanmap[name]
                })
            &&& received.sent.len() == 0
            &&& received.events == seq![
                EventView::<EncodedView>::Broadcast(
                    BroadcastView::Quit {
                        user,
                        comment: if comment is Some {
                            Some(comment->0@)
                        } else {
                            None
                        },
                        channels: Seq::empty(),
                        sent_time: message.parsed.server_time,
                    },
                ),
            ]
        }),
{
    lemma_received(client, message, now);
    let user = message.parsed.user->0@;
    let comment = text::opt_text(message.command->QUIT_0);
    let after = nowhere(client.chanmap, user.nickname);
    super::channel_laws::law_quit_leaves_all(client, comment, message.parsed);
    assert(on_command(client, message.command, message.parsed, false, now) == on_quit(
        client,
        comment,
        message.parsed,
    )) by {
        reveal(on_command);
    }
    assert(after.dom() =~= client.chanmap.dom());
}

/// Nothing comes of a message that would tell of a user and does not say of whom.
pub proof fn law_nobody(client: ClientView, message: EncodedView, now: Instant)
    requires
        unmarked(message),
        message.parsed.user is None,
        message.command is JOIN || message.command is PART || message.command is QUIT
            || message.command is NICK || message.command is CHGHOST || message.command is AWAY
            || message.command is ACCOUNT || message.command is INVITE,
    ensures
        on_receive(client, message, now) == nothing(client),
{
    assert(on_command(client, message.command, message.parsed, false, now) == Step::nothing(client))
        by {
        reveal(on_command);
    }
    lemma_received(client, message, now);
}

// ---------------------------------------------------------------------------
// What changes of a user

/// Who takes another nickname is known by it in every channel in which it was known, with all that
/// was known of it; where the new nickname is one that another user has there, that user stays. The
/// nickname of this client changes with it, and that is told first.
pub proof fn law_renaming(client: ClientView, message: EncodedView, now: Instant)
    requires
        unmarked(message),
        message.command is NICK,
        message.parsed.user is Some,
        message.command->NICK_0@ != message.parsed.user->0@.nickname,
    ensures
        ({
            let user = message.parsed.user->0@;
            let old_nick = user.nickname;
            let nick = message.command->NICK_0@;
            let ours = old_nick == client.nick();
            let received = on_receive(client, message, now);
            let told = EventView::<EncodedView>::Broadcast(
                BroadcastView::Nickname {
                    old_user: user,
                    new_nick: nick,
                    ourself: ours,
                    channels: Seq::empty(),
                    sent_time: message.parsed.server_time,
                },
            );
            &&& received.client == ClientView {
                chanmap: received.client.chanmap,
                resolved_nick: if ours {
                    Some(nick)
                } else {
                    client.resolved_nick
                },
                ..client
            }
            &&& received.client.chanmap.dom() == client.chanmap.dom()
            &&& forall|name: Seq<char>| #[trigger]
                client.chanmap.contains_key(name) ==> {
                    let users = client.chanmap[name].users;
                    received.client.chanmap[name] == (ChannelView {
                        users: if !users.contains_key(old_nick) {
                            users
                        } else if users.contains_key(nick) {
                            users.remove(old_nick)
                        } else {
                            users.remove(old_nick).insert(
                                nick,
                                UserView { nickname: nick, ..users[old_nick] },
                            )
                        },
                        ..client.chanmap[name]
                    })
                }
            &&& received.sent.len() == 0
            &&& received.events == if ours {
                seq![EventView::NickUpdated(nick), told]
            } else {
                seq![told]
            }
        }),
{
    lemma_received(client, message, now);
    let nick = message.command->NICK_0@;
    let old_nick = message.parsed.user->0@.nickname;
    let after = everywhere(client.chanmap, old_nick, ChangeView::Nickname(nick));
    assert(on_command(client, message.command, message.parsed, false, now) == on_nick(
        client,
        nick,
        message.parsed,
    )) by {
        reveal(on_command);
    }
    assert(after.dom() =~= client.chanmap.dom());
    assert forall|name: Seq<char>| #[trigger]
        after.contains_key(name) implies !after[name].users.contains_key(old_nick) by {
        assert(client.chanmap.contains_key(name));
    }
    super::channel_laws::lemma_in_none(after, old_nick);
}

/// Where a user is given the nickname that it has, its channels are told of.
pub proof fn law_renaming_to_the_same(client: ClientView, message: EncodedView, now: Instant)
    requires
        unmarked(message),
        message.command is NICK,
        message.parsed.user is Some,
        message.command->NICK_0@ == message.parsed.user->0@.nickname,
        by_nickname(client.chanmap),
        client.chanmap.dom().finite(),
    ensures
        ({
            let user = message.parsed.user->0@;
            let ours = user.nickname == client.nick();
            let received = on_receive(client, message, now);
            let event = received.events.last();
            &&& received.client.chanmap == client.chanmap
            &&& received.client.nick() == client.nick()
            &&& received.sent.len() == 0
            &&& received.events.len() == if ours {
                2nat
            } else {
                1nat
            }
            &&& ours ==> received.events[0] == EventView::<EncodedView>::NickUpdated(user.nickname)
            &&& event is Broadcast
            &&& event->Broadcast_0 is Nickname
            &&& event->Broadcast_0->Nickname_old_user == user
            &&& event->Broadcast_0->Nickname_new_nick == user.nickname
            &&& event->Broadcast_0->Nickname_ourself == ours
            &&& event->Broadcast_0->Nickname_sent_time == message.parsed.server_time
            &&& names_channels_with(
                event->Broadcast_0->Nickname_channels,
                client.chanmap,
                user.nickname,
            )
        }),
{
    lemma_received(client, message, now);
    let nick = message.parsed.user->0@.nickname;
    let after = everywhere(client.chanmap, nick, ChangeView::Nickname(nick));
    assert(on_command(client, message.command, message.parsed, false, now) == on_nick(
        client,
        nick,
        message.parsed,
    )) by {
        reveal(on_command);
    }
    assert forall|name: Seq<char>| #[trigger] client.chanmap.contains_key(name) implies after[name]
        == client.chanmap[name] by {
        let users = client.chanmap[name].users;
        if users.contains_key(nick) {
            assert(users[nick].nickname == nick);
            assert(users.remove(nick).insert(nick, users[nick]) =~= users);
        }
    }
    assert(after =~= client.chanmap);
    lemma_channels_of(client.chanmap, nick);
}

/// Whose host changes is known by the new username and host wherever it is known, and that is told
/// with its channels.
pub proof fn law_changing_host(client: ClientView, message: EncodedView, now: Instant)
    requires
        unmarked(message),
        message.command is CHGHOST,
        message.parsed.user is Some,
        by_nickname(client.chanmap),
        client.chanmap.dom().finite(),
    ensures
        ({
            let user = message.parsed.user->0@;
            let username = message.command->CHGHOST_0@;
            let hostname = message.command->CHGHOST_1@;
            let received = on_receive(client, message, now);
            let event = received.events[0];
            &&& received.client == ClientView { chanmap: received.client.chanmap, ..client }
            &&& one_user_differs(
                client.chanmap,
                received.client.chanmap,
                user.nickname,
                |known: UserView|
                    UserView { username: Some(username), hostname: Some(hostname), ..known },
            )
            &&& received.sent.len() == 0
            &&& received.events.len() == 1
            &&& event is Broadcast
            &&& event->Broadcast_0 is ChangeHost
            &&& event->Broadcast_0->ChangeHost_old_user == user
            &&& event->Broadcast_0->ChangeHost_new_username == username
            &&& event->Broadcast_0->ChangeHost_new_hostname == hostname
            &&& event->Broadcast_0->ChangeHost_ourself == (user.nickname == client.nick())
            &&& event->Broadcast_0->ChangeHost_sent_time == message.parsed.server_time
            &&& names_channels_with(
                event->Broadcast_0->ChangeHost_channels,
                client.chanmap,
                user.nickname,
            )
        }),
{
    lemma_received(client, message, now);
    let nick = message.parsed.user->0@.nickname;
    let change = ChangeView::UsernameAndHostname(
        message.command->CHGHOST_0@,
        message.command->CHGHOST_1@,
    );
    let after = everywhere(client.chanmap, nick, change);
    assert(on_command(client, message.command, message.parsed, false, now) == on_chghost(
        client,
        message.command->CHGHOST_0@,
        message.command->CHGHOST_1@,
        message.parsed,
    )) by {
        reveal(on_command);
    }
    lemma_everywhere(client.chanmap, nick, change);
    let other = |known: UserView|
        UserView {
            username: Some(message.command->CHGHOST_0@),
            hostname: Some(message.command->CHGHOST_1@),
            ..known
        };
    assert(one_user_differs(client.chanmap, after, nick, other)) by {
        assert(other =~= |user: UserView| user.changed(change));
    }
    lemma_same_channels(client.chanmap, after, nick, other);
}

/// Who goes away, or comes back, is known to wherever it is known; a reason means that it goes.
pub proof fn law_going_away(client: ClientView, message: EncodedView, now: Instant)
    requires
        unmarked(message),
        message.command is AWAY,
        message.parsed.user is Some,
        by_nickname(client.chanmap),
    ensures
        ({
            let away = message.command->AWAY_0 is Some;
            let received = on_receive(client, message, now);
            &&& received == shown(
                ClientView { chanmap: received.client.chanmap, ..client },
                message,
            )
            &&& one_user_differs(
                client.chanmap,
                received.client.chanmap,
                message.parsed.user->0@.nickname,
                |known: UserView| UserView { away, ..known },
            )
        }),
{
    lemma_received(client, message, now);
    lemma_shown(message);
    let away = message.command->AWAY_0 is Some;
    let nick = message.parsed.user->0@.nickname;
    assert(on_command(client, message.command, message.parsed, false, now) == on_away(
        client,
        away,
        message.parsed,
    )) by {
        reveal(on_command);
    }
    lemma_everywhere(client.chanmap, nick, ChangeView::Away(away));
}

/// The account of a user is known wherever the user is known.
pub proof fn law_telling_account(client: ClientView, message: EncodedView, now: Instant)
    requires
        unmarked(message),
        message.command is ACCOUNT,
        message.parsed.user is Some,
        by_nickname(client.chanmap),
    ensures
        ({
            let account = message.command->ACCOUNT_0@;
            let nick = message.parsed.user->0@.nickname;
            let received = on_receive(client, message, now);
            &&& received.client == ClientView {
                chanmap: received.client.chanmap,
                registration_required_channels: if nick == client.nick() && account != "*"@ {
                    Seq::empty()
                } else {
                    client.registration_required_channels
                },
                ..client
            }
            &&& one_user_differs(
                client.chanmap,
                received.client.chanmap,
                nick,
                |known: UserView| UserView { accountname: Some(account), ..known },
            )
            &&& received.events == seq![EventView::Single(message)]
            &&& nick != client.nick() || account == "*"@
                || client.registration_required_channels.len() == 0 ==> received.sent.len() == 0
        }),
{
    lemma_received(client, message, now);
    lemma_shown(message);
    let account = message.command->ACCOUNT_0@;
    let nick = message.parsed.user->0@.nickname;
    assert(on_command(client, message.command, message.parsed, false, now) == on_account(
        client,
        account,
        message.parsed,
    )) by {
        reveal(on_command);
    }
    lemma_everywhere(client.chanmap, nick, ChangeView::Accountname(account));
}

/// The server's word that this client is away, or back, counts wherever this client is known; what
/// it says of another is only shown.
pub proof fn law_own_absence(client: ClientView, message: EncodedView, now: Instant)
    requires
        unmarked(message),
        client.reroute_responses_to is None,
        message.command is Numeric,
        message.command->Numeric_0 is RPL_NOWAWAY || message.command->Numeric_0 is RPL_UNAWAY,
        by_nickname(client.chanmap),
    ensures
        ({
            let away = message.command->Numeric_0 is RPL_NOWAWAY;
            let users = message.parsed.users@;
            let received = on_receive(client, message, now);
            if message.command->Numeric_1@.len() == 0 || users.len() == 0 || users[0] is None {
                received == nothing(client)
            } else if users[0]->0@.nickname == client.nick() {
                &&& received == shown(
                    ClientView { chanmap: received.client.chanmap, ..client },
                    message,
                )
                &&& one_user_differs(
                    client.chanmap,
                    received.client.chanmap,
                    client.nick(),
                    |known: UserView| UserView { away, ..known },
                )
            } else {
                received == shown(client, message)
            }
        }),
{
    lemma_reply_received(client, message, now);
    lemma_shown(message);
    let away = message.command->Numeric_0 is RPL_NOWAWAY;
    let args = message.command->Numeric_1@;
    assert(on_numeric(client, message.command->Numeric_0, args, message.parsed, now) == on_own_away(
        client,
        away,
        args,
        message.parsed,
    )) by {
        reveal(on_numeric);
    }
    lemma_everywhere(client.chanmap, client.nick(), ChangeView::Away(away));
}

/// Where the server does not tell of accounts otherwise, its word that this client is logged in, or
/// out, tells the account of this client wherever it is known. Logged in, no channel waits for the
/// account any more.
pub proof fn law_own_account(client: ClientView, message: EncodedView, now: Instant)
    requires
        unmarked(message),
        client.reroute_responses_to is None,
        message.command is Numeric,
        message.command->Numeric_0 is RPL_LOGGEDIN || message.command->Numeric_0 is RPL_LOGGEDOUT,
        by_nickname(client.chanmap),
    ensures
        ({
            let logged_in = message.command->Numeric_0 is RPL_LOGGEDIN;
            let args = message.command->Numeric_1@;
            let received = on_receive(client, message, now);
            let told = !client.supports_account_notify && !(logged_in && args.len() == 0);
            let account = if logged_in {
                args[0]@
            } else {
                "*"@
            };
            &&& received.client == ClientView {
                chanmap: received.client.chanmap,
                registration_required_channels: if logged_in {
                    Seq::empty()
                } else {
                    client.registration_required_channels
                },
                ..client
            }
            &&& !told ==> received.client.chanmap == client.chanmap
            &&& told ==> one_user_differs(
                client.chanmap,
                received.client.chanmap,
                client.nick(),
                |known: UserView| UserView { accountname: Some(account), ..known },
            )
            &&& !logged_in || client.registration_required_channels.len() == 0
                ==> received.sent.len() == 0
            &&& received.events == if logged_in && args.len() == 0
                && !client.supports_account_notify {
                Seq::<EventView>::empty()
            } else {
                seq![EventView::Single(message)]
            }
        }),
{
    lemma_reply_received(client, message, now);
    lemma_shown(message);
    let args = message.command->Numeric_1@;
    let step = on_numeric(client, message.command->Numeric_0, args, message.parsed, now);
    if message.command->Numeric_0 is RPL_LOGGEDIN {
        assert(step == on_logged_in(client, args)) by {
            reveal(on_numeric);
        }
        if args.len() > 0 {
            lemma_everywhere(client.chanmap, client.nick(), ChangeView::Accountname(args[0]@));
        }
    } else {
        assert(step == on_logged_out(client)) by {
            reveal(on_numeric);
        }
        lemma_everywhere(client.chanmap, client.nick(), ChangeView::Accountname("*"@));
    }
}

/// An invitation is told with the channels in which the invited is known, and changes nothing.
pub proof fn law_inviting(client: ClientView, message: EncodedView, now: Instant)
    requires
        unmarked(message),
        message.command is INVITE,
        message.parsed.user is Some,
        client.chanmap.dom().finite(),
    ensures
        ({
            let received = on_receive(client, message, now);
            let event = received.events[0];
            &&& received.client == client
            &&& received.sent.len() == 0
            &&& received.events.len() == 1
            &&& event is Broadcast
            &&& event->Broadcast_0 is Invite
            &&& event->Broadcast_0->Invite_inviter == message.parsed.user->0@
            &&& event->Broadcast_0->Invite_channel == message.command->INVITE_1@
            &&& event->Broadcast_0->Invite_sent_time == message.parsed.server_time
            &&& names_channels_with(
                event->Broadcast_0->Invite_user_channels,
                client.chanmap,
                message.command->INVITE_0@,
            )
        }),
{
    lemma_received(client, message, now);
    assert(on_command(client, message.command, message.parsed, false, now) == on_invite(
        client,
        message.command->INVITE_0@,
        message.command->INVITE_1@,
        message.parsed,
    )) by {
        reveal(on_command);
    }
    lemma_channels_of(client.chanmap, message.command->INVITE_0@);
}

} // verus!
