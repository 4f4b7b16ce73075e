//! What a client knows of who is away, and when it asks.

use vstd::prelude::*;

use super::dispatch::on_numeric;
use super::exchange::on_receive;
use super::member_laws::{by_nickname, nothing, shown};
use super::plain_laws::{lemma_reply_received, lemma_shown, unmarked};
use super::who::{after_request, blackout_at, due_requests, on_whoreply, on_whospcrpl};
use super::who::{WhoReason, WhoRequestView};
use super::{ClientView, HighlightBlackout};
use crate::channel::{ChannelView, WhoStatus};
use crate::message::EncodedView;
use crate::proto::{names_channel, Command, MessageView};
use crate::time::Instant;
use crate::user::{UserView, Users};

verus! {

/// The users of a channel after the flags of one of them: `G` says that it is away, and `H` that it
/// is here; anything else, and flags of a user who is not known, say nothing.
pub open spec fn after_flags(users: Users, nick: Seq<char>, flags: Seq<char>) -> Users {
    if users.contains_key(nick) && flags.len() > 0 && flags[0] == 'G' {
        users.insert(nick, UserView { away: true, ..users[nick] })
    } else if users.contains_key(nick) && flags.len() > 0 && flags[0] == 'H' {
        users.insert(nick, UserView { away: false, ..users[nick] })
    } else {
        users
    }
}

proof fn lemma_flags(state: ChannelView, nick: Seq<char>, flags: Seq<char>)
    requires
        state.users.contains_key(nick) ==> state.users[nick].nickname == nick,
    ensures
        state.with_away_flags(nick, flags) == (ChannelView {
            users: after_flags(state.users, nick, flags),
            ..state
        }),
{
    let after = state.with_away_flags(nick, flags);
    assert(after.users =~= after_flags(state.users, nick, flags));
}

/// Whether a message is a reply about a channel that is known, in one of its arguments.
pub open spec fn is_reply_on(client: ClientView, message: EncodedView, place: int, least: nat) -> bool {
    &&& unmarked(message)
    &&& client.reroute_responses_to is None
    &&& message.command is Numeric
    &&& message.command->Numeric_1@.len() >= least
    &&& place < least
    &&& names_channel(message.command->Numeric_1@[place]@)
    &&& client.chanmap.contains_key(message.command->Numeric_1@[place]@)
}

/// A client that knows something else of a channel.
pub open spec fn with_state(client: ClientView, channel: Seq<char>, state: ChannelView) -> ClientView {
    ClientView { chanmap: client.chanmap.insert(channel, state), ..client }
}

/// An answer without a token tells whether a user is away. It belongs to a request of this client
/// where none was made yet, where one without a token waits, or where answers are being received:
/// then it is not shown, and answers are being received from then on.
pub proof fn law_answer_without_token(client: ClientView, message: EncodedView, now: Instant)
    requires
        is_reply_on(client, message, 1, 7),
        message.command->Numeric_0 is RPL_WHOREPLY,
        by_nickname(client.chanmap),
    ensures
        ({
            let args = message.command->Numeric_1@;
            let state = client.chanmap[args[1]@];
            let users = after_flags(state.users, args[5]@, args[6]@);
            let waits = match state.last_who {
                None => true,
                Some(WhoStatus::Requested(_, token)) => token is None,
                _ => false,
            };
            on_receive(client, message, now) == if waits {
                nothing(
                    with_state(
                        client,
                        args[1]@,
                        ChannelView {
                            users,
                            last_who: Some(WhoStatus::Receiving(None)),
                            ..state
                        },
                    ),
                )
            } else if state.last_who->0 is Receiving {
                nothing(with_state(client, args[1]@, ChannelView { users, ..state }))
            } else {
                shown(with_state(client, args[1]@, ChannelView { users, ..state }), message)
            }
        }),
{
    lemma_reply_received(client, message, now);
    lemma_shown(message);
    let args = message.command->Numeric_1@;
    let state = client.chanmap[args[1]@];
    assert(on_numeric(client, message.command->Numeric_0, args, message.parsed, now) == on_whoreply(
        client,
        args,
    )) by {
        reveal(on_numeric);
    }
    if state.users.contains_key(args[5]@) {
        assert(client.chanmap[args[1]@].users.contains_key(args[5]@));
    }
    lemma_flags(state, args[5]@, args[6]@);
}

/// An answer to the extended request tells whether a user is away and, where the server tells of
/// accounts, the account of the user. With the token of the request that waits it belongs to that
/// request: answers are being received from then on. Answers that are being received are not shown.
pub proof fn law_answer_with_token(client: ClientView, message: EncodedView, now: Instant)
    requires
        is_reply_on(client, message, 2, 5),
        message.command->Numeric_0 is RPL_WHOSPCRPL,
        by_nickname(client.chanmap),
    ensures
        ({
            let args = message.command->Numeric_1@;
            let state = client.chanmap[args[2]@];
            let nick = args[3]@;
            let flagged = after_flags(state.users, nick, args[4]@);
            let users = if client.supports_account_notify && args.len() > 5 && flagged.contains_key(
                nick,
            ) {
                flagged.insert(
                    nick,
                    UserView { accountname: Some(args[5]@), ..flagged[nick] },
                )
            } else {
                flagged
            };
            let begins = match state.last_who {
                Some(WhoStatus::Requested(_, Some(token))) => message.parsed.who_token is Some
                    && message.parsed.who_token->0.text@ == token.text@,
                _ => false,
            };
            let after = ChannelView { users, ..state };
            on_receive(client, message, now) == if begins {
                nothing(
                    with_state(
                        client,
                        args[2]@,
                        ChannelView {
                            last_who: Some(
                                WhoStatus::Receiving(state.last_who->0->Requested_1),
                            ),
                            ..after
                        },
                    ),
                )
            } else if state.last_who is Some && state.last_who->0 is Receiving {
                nothing(with_state(client, args[2]@, after))
            } else {
                shown(with_state(client, args[2]@, after), message)
            }
        }),
{
    lemma_reply_received(client, message, now);
    lemma_shown(message);
    let args = message.command->Numeric_1@;
    let state = client.chanmap[args[2]@];
    let nick = args[3]@;
    assert(on_numeric(client, message.command->Numeric_0, args, message.parsed, now) == on_whospcrpl(
        client,
        args,
        message.parsed,
    )) by {
        reveal(on_numeric);
    }
    if state.users.contains_key(nick) {
        assert(client.chanmap[args[2]@].users.contains_key(nick));
    }
    lemma_flags(state, nick, args[4]@);
    let flagged = after_flags(state.users, nick, args[4]@);
    if flagged.contains_key(nick) && args.len() > 5 {
        let user = UserView { accountname: Some(args[5]@), ..flagged[nick] };
        assert(flagged[nick].nickname == nick);
        assert(flagged.remove(nick).insert(nick, user) =~= flagged.insert(nick, user));
    }
}

/// The end of answers that are being received is not shown, and the request is done at that time.
/// Any other end is shown and changes nothing.
pub proof fn law_end_of_answers(client: ClientView, message: EncodedView, now: Instant)
    requires
        unmarked(message),
        client.reroute_responses_to is None,
        message.command is Numeric,
        message.command->Numeric_0 is RPL_ENDOFWHO,
    ensures
        ({
            let args = message.command->Numeric_1@;
            let state = client.chanmap[args[1]@];
            on_receive(client, message, now) == if args.len() < 2 {
                nothing(client)
            } else if names_channel(args[1]@) && client.chanmap.contains_key(args[1]@)
                && state.last_who is Some && state.last_who->0 is Receiving {
                nothing(
                    with_state(
                        client,
                        args[1]@,
                        ChannelView { last_who: Some(WhoStatus::Done(now)), ..state },
                    ),
                )
            } else {
                shown(client, message)
            }
        }),
{
    lemma_reply_received(client, message, now);
    lemma_shown(message);
    reveal(on_numeric);
}

/// Answers about what is no channel, or a channel that is not known, are only shown; answers that
/// lack parts come to nothing.
pub proof fn law_answers_elsewhere(client: ClientView, message: EncodedView, now: Instant)
    requires
        unmarked(message),
        client.reroute_responses_to is None,
        message.command is Numeric,
        message.command->Numeric_0 is RPL_WHOREPLY || message.command->Numeric_0 is RPL_WHOSPCRPL,
    ensures
        ({
            let plain = message.command->Numeric_0 is RPL_WHOREPLY;
            let args = message.command->Numeric_1@;
            let place = if plain {
                1int
            } else {
                2int
            };
            let known = names_channel(args[place]@) && client.chanmap.contains_key(args[place]@);
            &&& args.len() <= place ==> on_receive(client, message, now) == nothing(client)
            &&& args.len() > place && !known ==> on_receive(client, message, now) == shown(
                client,
                message,
            )
            &&& args.len() > place && known && args.len() < if plain {
                7int
            } else {
                5int
            } ==> on_receive(client, message, now) == nothing(client)
        }),
{
    lemma_reply_received(client, message, now);
    lemma_shown(message);
    reveal(on_numeric);
}

// ---------------------------------------------------------------------------
// When it is asked

/// Whether it is time to ask about a channel, and why: answers are old, unless the server tells by
/// itself who is away, or a request was not answered in time.
pub open spec fn is_time(client: ClientView, state: ChannelView, reason: WhoReason, now: Instant) -> bool {
    match (state.last_who, reason) {
        (Some(WhoStatus::Done(at)), WhoReason::Poll) => !client.supports_away_notify && (now.nanos
            >= at.nanos + client.config.who_poll_interval || client.config.who_poll_interval == 0),
        (Some(WhoStatus::Requested(at, _)), WhoReason::Retry) => now.nanos >= at.nanos
            + client.config.who_retry_interval || client.config.who_retry_interval == 0,
        _ => false,
    }
}

/// The channels that are asked about are those for which it is time, in the order in which they
/// are given; each is asked about in the extended form where the server has it.
pub proof fn law_asks_in_time(client: ClientView, names: Seq<Seq<char>>, name: Seq<char>, now: Instant)
    ensures
        ({
            let before = due_requests(client, names, now);
            let requests = due_requests(client, names.push(name), now);
            let state = client.chanmap[name];
            let extended = client.isupport.contains_key("WHOX"@);
            let request = |reason: WhoReason|
                WhoRequestView {
                    channel: name,
                    reason,
                    message: MessageView {
                        tags: Seq::empty(),
                        command: if extended {
                            Command::WHO(
                                name,
                                Some(
                                    if client.supports_account_notify {
                                        "tcnfa"@
                                    } else {
                                        "tcnf"@
                                    },
                                ),
                                Some(client.environment.who_poll_token.text@),
                            )
                        } else {
                            Command::WHO(name, None, None)
                        },
                    },
                };
            &&& due_requests(client, Seq::empty(), now).len() == 0
            &&& is_time(client, state, WhoReason::Poll, now) ==> requests == before.push(
                request(WhoReason::Poll),
            )
            &&& is_time(client, state, WhoReason::Retry, now) ==> requests == before.push(
                request(WhoReason::Retry),
            )
            &&& !is_time(client, state, WhoReason::Poll, now) && !is_time(
                client,
                state,
                WhoReason::Retry,
                now,
            ) ==> requests == before
        }),
{
    let longer = names.push(name);
    assert(longer.drop_last() =~= names);
    assert(longer.last() == name);
}

/// That a channel was asked about is remembered with the time, and with the token where the request
/// bore one; nothing else changes.
pub proof fn law_asking_is_remembered(client: ClientView, channel: Seq<char>, at: Instant)
    ensures
        ({
            let state = client.chanmap[channel];
            after_request(client, channel, at) == if client.chanmap.contains_key(channel) {
                with_state(
                    client,
                    channel,
                    ChannelView {
                        last_who: Some(
                            WhoStatus::Requested(
                                at,
                                if client.isupport.contains_key("WHOX"@) {
                                    Some(client.environment.who_poll_token)
                                } else {
                                    None
                                },
                            ),
                        ),
                        ..state
                    },
                )
            } else {
                client
            }
        }),
{
}

/// Attention is drawn to mentions once five seconds have passed since the beginning, and from then
/// on at any time.
pub proof fn law_blackout(start: Instant, now: Instant)
    ensures
        blackout_at(HighlightBlackout::Receiving, now) is Receiving,
        now.nanos >= start.nanos + 5_000_000_000 ==> blackout_at(
            HighlightBlackout::Blackout(start),
            now,
        ) is Receiving,
        now.nanos < start.nanos + 5_000_000_000 ==> blackout_at(
            HighlightBlackout::Blackout(start),
            now,
        ) == HighlightBlackout::Blackout(start),
{
}

} // verus!
