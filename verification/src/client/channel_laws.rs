//! What holds of the channels of a client, and of the users in them.

use vstd::prelude::*;

use super::capability;
use super::dispatch::{batch_of, on_command, on_encoded, on_numeric};
use super::members::{after_leaving, on_endofnames, on_join, on_namreply, on_nick};
use super::members::{on_part, on_quit};
use super::session;
use super::who::{after_request, blackout_at, due, due_requests, on_endofwho, on_whoreply};
use super::who::{on_whospcrpl, requested_at, HIGHLIGHT_BLACKOUT_INTERVAL};
use super::{ClientView, HighlightBlackout, OutcomeView};
use crate::channel::{channels_of, nowhere, ChannelView, Channels, WhoStatus};
use crate::event::{BroadcastView, EventView, NotificationView};
use crate::isupport;
use crate::message::{EncodedView, Parsed};
use crate::proto::{names_channel, tag_value, Command, Numeric};
use crate::text;
use crate::time::Instant;
use crate::user::{keyed, UserView, Users};

verus! {

// ---------------------------------------------------------------------------
// Coming and going

/// A user who has left the server is known in no channel any more, and the broadcast names none;
/// every other user of every channel stays as it was.
pub proof fn law_quit_leaves_all(client: ClientView, comment: Option<Seq<char>>, parsed: Parsed)
    requires
        parsed.user is Some,
    ensures
        ({
            let nick = parsed.user->0@.nickname;
            let step = on_quit(client, comment, parsed);
            &&& step.client.chanmap.dom() == client.chanmap.dom()
            &&& forall|name: Seq<char>| #[trigger]
                client.chanmap.contains_key(name) ==> step.client.chanmap[name].users
                    == client.chanmap[name].users.remove(nick)
            &&& channels_of(step.client.chanmap, nick) == Seq::<Seq<char>>::empty()
            &&& step.reply.outcome == OutcomeView::Events(
                seq![
                    EventView::Broadcast(
                        BroadcastView::Quit {
                            user: parsed.user->0@,
                            comment,
                            channels: Seq::empty(),
                            sent_time: parsed.server_time,
                        },
                    ),
                ],
            )
        }),
{
    let nick = parsed.user->0@.nickname;
    let after = nowhere(client.chanmap, nick);
    assert(after.dom() =~= client.chanmap.dom());
    lemma_in_none(after, nick);
}

/// A user that no channel knows is in none.
pub proof fn lemma_in_none(channels: Channels, nick: Seq<char>)
    requires
        forall|name: Seq<char>| #[trigger]
            channels.contains_key(name) ==> !channels[name].users.contains_key(nick),
    ensures
        channels_of(channels, nick) == Seq::<Seq<char>>::empty(),
{
    let set = channels.dom().filter(|name: Seq<char>| channels[name].users.contains_key(nick));
    assert(set =~= Set::<Seq<char>>::empty());
    let list = Seq::<Seq<char>>::empty();
    assert(list.to_set() =~= set);
    text::lemma_in_order(list);
}

/// A user who has taken another nickname is known by it in every channel in which it was known,
/// with all else that was known of it, unless another user there has that nickname already; by the
/// old nickname it is known nowhere.
pub proof fn law_nick_moves_user(client: ClientView, nick: Seq<char>, parsed: Parsed, name: Seq<char>)
    requires
        parsed.user is Some,
        nick != parsed.user->0@.nickname,
        client.chanmap.contains_key(name),
    ensures
        ({
            let old_nick = parsed.user->0@.nickname;
            let before = client.chanmap[name].users;
            let after = on_nick(client, nick, parsed).client.chanmap[name].users;
            &&& !after.contains_key(old_nick)
            &&& before.contains_key(old_nick) && !before.contains_key(nick) ==> after
                == before.remove(old_nick).insert(
                nick,
                UserView { nickname: nick, ..before[old_nick] },
            )
            &&& before.contains_key(old_nick) && before.contains_key(nick) ==> after
                == before.remove(old_nick)
            &&& !before.contains_key(old_nick) ==> after == before
        }),
{
}

/// Where the server renames this client, its nickname is the new one, and that is told.
pub proof fn law_own_nick_is_told(client: ClientView, nick: Seq<char>, parsed: Parsed)
    requires
        parsed.user is Some,
        parsed.user->0@.nickname == client.nick(),
    ensures
        on_nick(client, nick, parsed).client.nick() == nick,
        on_nick(client, nick, parsed).reply.outcome is Events,
        on_nick(client, nick, parsed).reply.outcome->Events_0[0] == EventView::<
            crate::message::EncodedView,
        >::NickUpdated(nick),
{
}

/// A channel that this client has left, or was thrown out of, is forgotten; the others stay.
pub proof fn law_leaving_forgets_channel(client: ClientView, channel: Seq<char>)
    ensures
        after_leaving(client, channel, client.nick()).chanmap == client.chanmap.remove(channel),
{
}

/// When another user leaves a channel, that user is known there no more; nothing else changes.
pub proof fn law_leaving_removes_user(client: ClientView, channel: Seq<char>, nick: Seq<char>, other: Seq<char>)
    requires
        nick != client.nick(),
        client.chanmap.contains_key(channel),
    ensures
        ({
            let after = after_leaving(client, channel, nick).chanmap;
            &&& after.dom() == client.chanmap.dom()
            &&& after[channel].users == client.chanmap[channel].users.remove(nick)
            &&& after[channel].topic == client.chanmap[channel].topic
            &&& other != channel && client.chanmap.contains_key(other) ==> after[other]
                == client.chanmap[other]
        }),
{
    assert(after_leaving(client, channel, nick).chanmap.dom() =~= client.chanmap.dom());
}

/// A channel that this client joins begins anew: it has no users and no topic yet, whatever was
/// known of it, and the state of its users has been asked for.
pub proof fn law_own_join_begins_anew(
    client: ClientView,
    channel: Seq<char>,
    accountname: Option<Seq<char>>,
    parsed: Parsed,
    now: Instant,
)
    requires
        parsed.user is Some,
        parsed.user->0@.nickname == client.nick(),
    ensures
        ({
            let step = on_join(client, channel, accountname, parsed, now);
            &&& step.client.chanmap == client.chanmap.insert(
                channel,
                ChannelView {
                    users: Users::empty(),
                    last_who: Some(requested_at(client, now)),
                    topic: crate::channel::Topic::none(),
                    names_init: false,
                },
            )
            &&& step.reply.sent.len() == 1
        }),
{
}

/// A user who joins a channel and leaves it again has left it as it was.
pub proof fn law_join_and_part_cancel(
    client: ClientView,
    channel: Seq<char>,
    accountname: Option<Seq<char>>,
    parsed: Parsed,
    now: Instant,
)
    requires
        parsed.user is Some,
        parsed.user->0@.nickname != client.nick(),
        client.chanmap.contains_key(channel),
        !client.chanmap[channel].users.contains_key(parsed.user->0@.nickname),
    ensures
        ({
            let joined = on_join(client, channel, accountname, parsed, now).client;
            &&& joined.chanmap[channel].users.contains_key(parsed.user->0@.nickname)
            &&& on_part(joined, channel, parsed).client == client
        }),
{
    let nick = parsed.user->0@.nickname;
    let joined = on_join(client, channel, accountname, parsed, now).client;
    let left = on_part(joined, channel, parsed).client;
    let state = client.chanmap[channel];
    assert(joined.chanmap[channel].users.remove(nick) =~= state.users);
    assert(left.chanmap =~= client.chanmap);
}

/// A user who is known in a channel already is not replaced by joining it again.
pub proof fn law_join_keeps_known(
    client: ClientView,
    channel: Seq<char>,
    accountname: Option<Seq<char>>,
    parsed: Parsed,
    now: Instant,
)
    requires
        parsed.user is Some,
        parsed.user->0@.nickname != client.nick(),
        client.chanmap.contains_key(channel),
        client.chanmap[channel].users.contains_key(parsed.user->0@.nickname),
    ensures
        on_join(client, channel, accountname, parsed, now).client == client,
{
    let joined = on_join(client, channel, accountname, parsed, now).client;
    assert(joined.chanmap =~= client.chanmap);
}

/// The list of users that comes with joining a channel is not shown, and nor is its end; from then
/// on, lists of users are shown.
pub proof fn law_names_hidden_once(client: ClientView, args: Seq<String>, end: Seq<String>, parsed: Parsed)
    requires
        args.len() > 3,
        end.len() > 1,
        end[1]@ == args[2]@,
        names_channel(args[2]@),
        client.chanmap.contains_key(args[2]@),
        !client.chanmap[args[2]@].names_init,
    ensures
        ({
            let listed = on_namreply(client, args, parsed);
            let ended = on_endofnames(listed.client, end);
            &&& listed.reply.outcome is Nothing
            &&& ended.reply.outcome is Nothing
            &&& ended.client.chanmap[args[2]@].names_init
            &&& on_namreply(ended.client, args, parsed).reply.outcome is Shown
            &&& on_endofnames(ended.client, end).reply.outcome is Shown
        }),
{
}

/// The channels that this client is in after a message by itself.
pub open spec fn channels_after(client: ClientView, command: Command, parsed: Parsed) -> Set<Seq<char>> {
    let own = parsed.user is Some && parsed.user->0@.nickname == client.nick();
    let channels = client.chanmap.dom();
    match command {
        Command::JOIN(channel, _) => if own {
            channels.insert(channel@)
        } else {
            channels
        },
        Command::PART(channel, _) => if own {
            channels.remove(channel@)
        } else {
            channels
        },
        Command::KICK(channel, victim, _) => if victim@ == client.nick() {
            channels.remove(channel@)
        } else {
            channels
        },
        _ => channels,
    }
}

proof fn lemma_isupport_keeps_channels(
    client: ClientView,
    operations: Seq<Option<isupport::Operation>>,
    from: int,
)
    ensures
        session::on_isupport(client, operations, from).client.chanmap == client.chanmap,
    decreases operations.len() - from,
{
    if 0 <= from < operations.len() {
        lemma_isupport_keeps_channels(client, operations, from + 1);
    }
}

proof fn lemma_numeric_keeps_channels(
    client: ClientView,
    numeric: Numeric,
    args: Seq<String>,
    parsed: Parsed,
    now: Instant,
)
    ensures
        on_numeric(client, numeric, args, parsed, now).client.chanmap.dom() == client.chanmap.dom(),
{
    reveal(on_numeric);
    if numeric is RPL_ISUPPORT {
        lemma_isupport_keeps_channels(client, parsed.isupport@, 0);
    }
    assert(on_numeric(client, numeric, args, parsed, now).client.chanmap.dom()
        =~= client.chanmap.dom());
}

proof fn lemma_cap_keeps_channels(
    client: ClientView,
    sub: Seq<char>,
    a: Option<Seq<char>>,
    b: Option<Seq<char>>,
)
    ensures
        capability::on_cap(client, sub, a, b).client.chanmap == client.chanmap,
{
}

proof fn lemma_command_channels(
    client: ClientView,
    command: Command,
    parsed: Parsed,
    answered: bool,
    now: Instant,
)
    ensures
        on_command(client, command, parsed, answered, now).client.chanmap.dom() == channels_after(
            client,
            command,
            parsed,
        ),
{
    reveal(on_command);
    match command {
        Command::CAP(_, sub, a, b) => {
            lemma_cap_keeps_channels(client, sub@, text::opt_text(a), text::opt_text(b));
        },
        Command::Numeric(numeric, args) => {
            lemma_numeric_keeps_channels(client, numeric, args@, parsed, now);
        },
        _ => {
            assert(on_command(client, command, parsed, answered, now).client.chanmap.dom()
                =~= channels_after(client, command, parsed));
        },
    }
}

/// The channels that a client knows are those that it is in: a message that bears no label and
/// belongs to no batch adds the channel that this client joins, which begins without users, takes
/// away the one that it leaves or is thrown out of, and changes nothing else about which channels
/// are known.
pub proof fn law_knows_own_channels(client: ClientView, message: EncodedView, now: Instant)
    requires
        tag_value(message.tags, "label"@) is None,
        batch_of(message.tags) is None,
    ensures
        ({
            let after = on_encoded(client, message, None, now).client;
            &&& after.chanmap.dom() == channels_after(client, message.command, message.parsed)
            &&& message.command matches Command::JOIN(channel, _) ==> message.parsed.user is Some
                && message.parsed.user->0@.nickname == client.nick()
                ==> after.chanmap[channel@].users == Users::empty()
        }),
{
    lemma_command_channels(client, message.command, message.parsed, false, now);
    if message.command is JOIN {
        reveal(on_command);
    }
}

// ---------------------------------------------------------------------------
// The state of users

/// A request without a token, from its sending to its end: the answers and their end are not
/// shown, and the request is done at the time of the end. An end to which nothing was asked is
/// shown.
pub proof fn law_who_cycle(
    client: ClientView,
    channel: Seq<char>,
    at: Instant,
    args: Seq<String>,
    end: Seq<String>,
    now: Instant,
)
    requires
        client.chanmap.contains_key(channel),
        names_channel(channel),
        !client.isupport.contains_key(crate::isupport::whox()),
        args.len() >= 7,
        args[1]@ == channel,
        end.len() >= 2,
        end[1]@ == channel,
    ensures
        ({
            let asked = after_request(client, channel, at);
            let answered = on_whoreply(asked, args);
            let ended = on_endofwho(answered.client, end, now);
            &&& answered.reply.outcome is Nothing
            &&& answered.client.chanmap[channel].last_who == Some(WhoStatus::Receiving(None))
            &&& ended.reply.outcome is Nothing
            &&& ended.client.chanmap[channel].last_who == Some(WhoStatus::Done(now))
            &&& on_endofwho(ended.client, end, now).reply.outcome is Shown
        }),
{
}

/// A request with a token: an answer with the token is not shown, and answers are being received
/// from then on; an answer with another token, or none, is shown, and changes nothing about the
/// request.
pub proof fn law_who_token(
    client: ClientView,
    channel: Seq<char>,
    at: Instant,
    args: Seq<String>,
    parsed: Parsed,
)
    requires
        client.chanmap.contains_key(channel),
        names_channel(channel),
        client.isupport.contains_key(crate::isupport::whox()),
        args.len() >= 5,
        args[2]@ == channel,
    ensures
        ({
            let token = client.environment.who_poll_token;
            let asked = after_request(client, channel, at);
            let answered = on_whospcrpl(asked, args, parsed);
            if parsed.who_token is Some && parsed.who_token->0.text@ == token.text@ {
                &&& answered.reply.outcome is Nothing
                &&& answered.client.chanmap[channel].last_who == Some(
                    WhoStatus::Receiving(Some(token)),
                )
            } else {
                &&& answered.reply.outcome is Shown
                &&& answered.client.chanmap[channel].last_who == asked.chanmap[channel].last_who
            }
        }),
{
}

/// The flags of an answer say whether a user is here or gone, and what they say is what is known
/// of the user then.
pub proof fn law_who_tells_away(state: ChannelView, nick: Seq<char>, flags: Seq<char>)
    requires
        keyed(state.users),
        state.users.contains_key(nick),
        flags.len() > 0,
        flags[0] == 'G' || flags[0] == 'H',
    ensures
        state.with_away_flags(nick, flags).users == state.users.insert(
            nick,
            UserView { away: flags[0] == 'G', ..state.users[nick] },
        ),
{
    let changed = UserView { away: flags[0] == 'G', ..state.users[nick] };
    assert(state.users.remove(nick).insert(nick, changed) =~= state.users.insert(nick, changed));
}

/// A channel is asked about when it is due and at no other time, and its request is the one that
/// stands for it.
pub proof fn law_due_channels_asked(client: ClientView, names: Seq<Seq<char>>, now: Instant)
    ensures
        forall|name: Seq<char>|
            (#[trigger] names.contains(name) && due(client, client.chanmap[name], now) is Some)
                <==> exists|i: int|
                0 <= i < due_requests(client, names, now).len() && (#[trigger] due_requests(
                    client,
                    names,
                    now,
                )[i]).channel == name,
    decreases names.len(),
{
    let requests = due_requests(client, names, now);
    if names.len() > 0 {
        let fewer = names.drop_last();
        let before = due_requests(client, fewer, now);
        law_due_channels_asked(client, fewer, now);
        assert forall|name: Seq<char>|
            (#[trigger] names.contains(name) && due(client, client.chanmap[name], now) is Some)
                <==> exists|i: int|
                0 <= i < requests.len() && (#[trigger] requests[i]).channel == name by {
            assert(fewer.contains(name) ==> names.contains(name)) by {
                if fewer.contains(name) {
                    assert(names[fewer.index_of(name)] == name);
                }
            }
            if names.contains(name) && due(client, client.chanmap[name], now) is Some {
                if fewer.contains(name) {
                    let i = choose|i: int|
                        0 <= i < before.len() && (#[trigger] before[i]).channel == name;
                    assert(requests[i].channel == name);
                } else {
                    let j = names.index_of(name);
                    if j < fewer.len() {
                        assert(fewer[j] == name);
                    }
                    assert(names.last() == name);
                    assert(requests[before.len() as int].channel == name);
                }
            }
            if exists|i: int| 0 <= i < requests.len() && (#[trigger] requests[i]).channel == name {
                let i = choose|i: int|
                    0 <= i < requests.len() && (#[trigger] requests[i]).channel == name;
                if i < before.len() {
                    assert(before[i] == requests[i]);
                    assert(before[i].channel == name);
                    assert(fewer.contains(name) && due(client, client.chanmap[name], now) is Some);
                } else {
                    assert(names.last() == name);
                    assert(names[names.len() - 1] == name);
                }
            }
        }
    }
}

/// Right after a channel was asked about, it is not due, where an answer is given any time.
pub proof fn law_not_due_after_request(client: ClientView, channel: Seq<char>, at: Instant, now: Instant)
    requires
        client.chanmap.contains_key(channel),
        now.since(at) < client.config.who_retry_interval,
    ensures
        due(after_request(client, channel, at), after_request(client, channel, at).chanmap[channel], now) is None,
{
}

/// Where the server tells by itself who is away, a channel whose users' state is known is never
/// asked about again.
pub proof fn law_no_poll_with_away_notify(client: ClientView, state: ChannelView, last: Instant, now: Instant)
    requires
        client.supports_away_notify,
        state.last_who == Some(WhoStatus::Done(last)),
    ensures
        due(client, state, now) is None,
{
}

// ---------------------------------------------------------------------------
// Highlights

/// No attention is drawn to a mention of this client before the blackout is over.
pub proof fn law_no_highlight_in_blackout(
    client: ClientView,
    target: Seq<char>,
    question: bool,
    parsed: Parsed,
    answered: bool,
)
    requires
        client.highlight_blackout is Blackout,
    ensures
        !(super::talk::on_text(client, target, question, parsed, answered).reply.outcome matches
            OutcomeView::Notify(NotificationView::Highlight(_, _))),
{
}

/// The blackout lasts as long as it is set to, and once it is over it does not come back.
pub proof fn law_blackout_ends(start: Instant, now: Instant, later: Instant)
    ensures
        blackout_at(HighlightBlackout::Blackout(start), now) is Receiving <==> now.since(start)
            >= HIGHLIGHT_BLACKOUT_INTERVAL,
        blackout_at(HighlightBlackout::Receiving, later) is Receiving,
{
}

} // verus!
