//! What a client makes of what users say, and of users that are watched.

use vstd::prelude::*;

use super::dispatch::{on_command, on_message, on_numeric};
use super::exchange::{on_receive, ReceivedView};
use super::member_laws::{nothing, shown};
use super::plain_laws::{lemma_received, lemma_reply_received, lemma_shown, unmarked};
use super::talk::{on_text, users_of};
use super::{ClientView, Context, OutgoingView};
use crate::buffer::Buffer;
use crate::event::{EventView, NotificationView, ReceiveRequestView};
use crate::message::{CtcpCommand, DccCommand, EncodedView};
use crate::proto::Command;
use crate::text::split_on;
use crate::time::Instant;
use crate::user::User;

verus! {

/// Whether a message says something to a target.
pub open spec fn says(message: EncodedView) -> bool {
    unmarked(message) && (message.command is PRIVMSG || message.command is NOTICE)
}

/// The target of what a message says.
pub open spec fn said_to(message: EncodedView) -> Seq<char> {
    match message.command {
        Command::PRIVMSG(target, _) => target@,
        Command::NOTICE(target, _) => target@,
        _ => Seq::empty(),
    }
}

/// Whether a message asks another client something, and is no account of what its author does.
pub open spec fn asks(client: ClientView, message: EncodedView) -> bool {
    &&& message.parsed.user is Some
    &&& message.parsed.user->0@.nickname != client.nick()
    &&& message.parsed.is_query
    &&& !message.parsed.is_action
    &&& message.parsed.query is Some
}

proof fn lemma_said(client: ClientView, message: EncodedView, now: Instant)
    requires
        says(message),
    ensures
        ({
            let step = on_text(
                client,
                said_to(message),
                message.command is PRIVMSG,
                message.parsed,
                false,
            );
            on_receive(client, message, now) == ReceivedView {
                client: step.client,
                sent: step.reply.sent,
                events: super::plain_laws::told_of(step.reply.outcome, message),
            }
        }),
{
    lemma_received(client, message, now);
    reveal(on_command);
}

/// What somebody says is told: attention is drawn to a mention of this client, unless it has only
/// just begun, and to what is said to this client alone, whether or not it has; anything else is
/// shown. Nothing is sent, and nothing is forgotten or learned.
pub proof fn law_saying(client: ClientView, message: EncodedView, now: Instant)
    requires
        says(message),
        message.parsed.user is Some,
        message.parsed.dcc is None,
        !asks(client, message),
    ensures
        ({
            let user = message.parsed.user->0@;
            on_receive(client, message, now) == ReceivedView {
                client,
                sent: Seq::empty(),
                events: seq![
                    if message.parsed.references_us && client.highlight_blackout is Receiving {
                        EventView::Notification(
                            message,
                            NotificationView::Highlight(user, said_to(message)),
                        )
                    } else if said_to(message) == client.nick() {
                        EventView::Notification(message, NotificationView::DirectMessage(user))
                    } else {
                        EventView::Single(message)
                    },
                ],
            }
        }),
{
    lemma_said(client, message, now);
    lemma_shown(message);
}

/// What is said to this client alone by another user, without a mention, is a direct message of
/// that user, right after the beginning and at any time later.
pub proof fn law_direct_message(
    early: ClientView,
    late: ClientView,
    message: EncodedView,
    now: Instant,
)
    requires
        says(message),
        message.parsed.user is Some,
        message.parsed.dcc is None,
        !message.parsed.is_query,
        !message.parsed.references_us,
        said_to(message) == early.nick(),
        late.nick() == early.nick(),
        early.highlight_blackout is Blackout,
        late.highlight_blackout is Receiving,
    ensures
        on_receive(early, message, now).events == seq![
            EventView::Notification(
                message,
                NotificationView::DirectMessage(message.parsed.user->0@),
            ),
        ],
        on_receive(late, message, now).events == on_receive(early, message, now).events,
{
    law_saying(early, message, now);
    law_saying(late, message, now);
}

/// What the server itself says is only shown.
pub proof fn law_saying_of_nobody(client: ClientView, message: EncodedView, now: Instant)
    requires
        says(message),
        message.parsed.user is None,
    ensures
        on_receive(client, message, now) == shown(client, message),
{
    lemma_said(client, message, now);
    lemma_shown(message);
}

/// An offer of a file is told with whom it comes from, the server, and the queue in which the
/// answer is to be put. A request for another connection comes to nothing.
pub proof fn law_offering(client: ClientView, message: EncodedView, now: Instant)
    requires
        says(message),
        message.parsed.user is Some,
        message.parsed.dcc is Some,
    ensures
        on_receive(client, message, now) == (match message.parsed.dcc->0 {
            DccCommand::Send(offer) => ReceivedView {
                client,
                sent: Seq::empty(),
                events: seq![
                    EventView::FileTransferRequest(
                        ReceiveRequestView {
                            from: message.parsed.user->0@.nickname,
                            dcc_send: offer,
                            server: client.server,
                            queue: client.queue,
                        },
                    ),
                ],
            },
            DccCommand::Unsupported(_) => nothing(client),
        }),
{
    lemma_said(client, message, now);
}

/// A question of another client is answered to whoever asked, with the same word; a ping by what
/// came with it. A question that is not known is not answered, and nor is an answer. Nothing of it
/// is shown.
pub proof fn law_asking(client: ClientView, message: EncodedView, now: Instant)
    requires
        says(message),
        message.parsed.dcc is None,
        asks(client, message),
    ensures
        ({
            let query = message.parsed.query->0;
            let reply = |params: Option<Seq<char>>|
                seq![
                    OutgoingView::Ctcp {
                        command: query.command,
                        target: message.parsed.user->0@.nickname,
                        params,
                    },
                ];
            on_receive(client, message, now) == ReceivedView {
                client,
                sent: if message.command is NOTICE {
                    Seq::empty()
                } else {
                    match query.command {
                        CtcpCommand::ClientInfo => reply(
                            Some("ACTION CLIENTINFO DCC PING SOURCE VERSION"@),
                        ),
                        CtcpCommand::Ping => reply(
                            if query.params is Some {
                                Some(query.params->0@)
                            } else {
                                None
                            },
                        ),
                        CtcpCommand::Source => reply(Some(client.environment.source_website@)),
                        CtcpCommand::Version => reply(
                            Some("Halloy "@ + client.environment.version@),
                        ),
                        _ => Seq::empty(),
                    }
                },
                events: Seq::empty(),
            }
        }),
{
    lemma_said(client, message, now);
}

/// That a message answers one which was written from a buffer changes nothing about it, but for
/// what this client says itself.
pub proof fn law_answer_is_taken_in(
    client: ClientView,
    message: EncodedView,
    buffer: Buffer,
    now: Instant,
)
    requires
        !(message.command is PRIVMSG || message.command is NOTICE) || message.parsed.user is None
            || message.parsed.user->0@.nickname != client.nick(),
    ensures
        on_message(client, message, Some(Context::Buffer(buffer)), now) == on_message(
            client,
            message,
            None,
            now,
        ),
{
    reveal(on_command);
}

// ---------------------------------------------------------------------------
// Users that are watched

proof fn lemma_users_of(list: Seq<Option<User>>)
    ensures
        users_of(list) == list.filter(|user: Option<User>| user is Some).map_values(
            |user: Option<User>| user->0@,
        ),
    decreases list.len(),
{
    let keep = |user: Option<User>| user is Some;
    let view = |user: Option<User>| user->0@;
    reveal(Seq::filter);
    if list.len() == 0 {
        assert(users_of(list) =~= list.filter(keep).map_values(view));
    } else {
        lemma_users_of(list.drop_last());
        let rest = list.drop_last().filter(keep);
        assert(list.filter(keep) == if keep(list.last()) {
            rest.push(list.last())
        } else {
            rest
        });
        assert(users_of(list) =~= list.filter(keep).map_values(view));
    }
}

/// Attention is drawn to users that are watched when they come, and when they go: to each that is
/// named, in order.
pub proof fn law_watching(client: ClientView, message: EncodedView, now: Instant)
    requires
        unmarked(message),
        client.reroute_responses_to is None,
        message.command is Numeric,
        message.command->Numeric_0 is RPL_MONONLINE || message.command->Numeric_0 is RPL_MONOFFLINE,
    ensures
        on_receive(client, message, now) == (if message.command->Numeric_1@.len() < 2 {
            nothing(client)
        } else {
            ReceivedView {
                client,
                sent: Seq::empty(),
                events: seq![
                    EventView::Notification(
                        message,
                        if message.command->Numeric_0 is RPL_MONONLINE {
                            NotificationView::MonitoredOnline(
                                message.parsed.users@.filter(
                                    |user: Option<User>| user is Some,
                                ).map_values(|user: Option<User>| user->0@),
                            )
                        } else {
                            NotificationView::MonitoredOffline(
                                split_on(message.command->Numeric_1@[1]@, ','),
                            )
                        },
                    ),
                ],
            }
        }),
{
    lemma_reply_received(client, message, now);
    lemma_users_of(message.parsed.users@);
    reveal(on_numeric);
}

} // verus!
