//! What comes of messages that bear neither a label nor the name of a batch.

use vstd::prelude::*;

use super::answer_laws::bare;
use super::dispatch::{batch_of, meaning, on_command, on_numeric, other_tags};
use super::exchange::{on_receive, ReceivedView};
use super::laws::law_command_sound;
use super::{ClientView, OutcomeView, Step};
use crate::event::EventView;
use crate::message::{EncodedView, Parsed};
use crate::proto::{has_tag, lemma_has_tag, tag_value, without_tag, Command, Numeric};
use crate::time::Instant;

verus! {

/// Whether a message bears neither a label nor the name of a batch.
pub open spec fn unmarked(message: EncodedView) -> bool {
    forall|i: int|
        0 <= i < message.tags.len() ==> (#[trigger] message.tags[i]).key@ != "label"@
            && message.tags[i].key@ != "batch"@
}

/// The nickname of a client is the one that the server gave it, and else the one that was set.
pub proof fn law_nickname(client: ClientView)
    ensures
        client.resolved_nick is Some ==> client.nick() == client.resolved_nick->0,
        client.resolved_nick is None ==> client.nick() == client.config.nickname,
{
}

/// All tags of such a message are left.
pub proof fn lemma_unmarked(message: EncodedView)
    requires
        unmarked(message),
    ensures
        tag_value(message.tags, "label"@) is None,
        without_tag(message.tags, "label"@) == message.tags,
        batch_of(message.tags) is None,
        other_tags(message.tags) == message.tags,
        bare(message) == message,
{
    if has_tag(message.tags, "label"@) {
        lemma_has_tag(message.tags, "label"@);
    }
    if has_tag(message.tags, "batch"@) {
        lemma_has_tag(message.tags, "batch"@);
    }
}

/// What is told of a message, by what became of it.
pub open spec fn told_of(outcome: OutcomeView, message: EncodedView) -> Seq<EventView> {
    match meaning(outcome, message) {
        Some(events) => events,
        None => Seq::empty(),
    }
}

/// Such a message is taken in by itself, unless it is a reply and replies are shown elsewhere.
pub proof fn lemma_received(client: ClientView, message: EncodedView, now: Instant)
    requires
        unmarked(message),
        !(message.command is BATCH),
        client.reroute_responses_to is None || !(message.command is Numeric || message.command is Unknown),
    ensures
        ({
            let step = on_command(client, message.command, message.parsed, false, now);
            on_receive(client, message, now) == ReceivedView {
                client: step.client,
                sent: step.reply.sent,
                events: told_of(step.reply.outcome, message),
            }
        }),
{
    lemma_unmarked(message);
    law_command_sound(client, message.command, message.parsed, false, now);
}

/// Such a reply is taken in by itself, unless replies are shown elsewhere.
pub proof fn lemma_reply_received(client: ClientView, message: EncodedView, now: Instant)
    requires
        unmarked(message),
        message.command is Numeric,
        client.reroute_responses_to is None,
    ensures
        ({
            let numeric = message.command->Numeric_0;
            let args = message.command->Numeric_1@;
            let step = on_numeric(client, numeric, args, message.parsed, now);
            on_receive(client, message, now) == ReceivedView {
                client: step.client,
                sent: step.reply.sent,
                events: told_of(step.reply.outcome, message),
            }
        }),
{
    lemma_received(client, message, now);
    reveal(on_command);
}

/// What is only shown is told as it is.
pub proof fn lemma_shown(message: EncodedView)
    ensures
        told_of(OutcomeView::Shown(Seq::empty()), message) == seq![EventView::Single(message)],
{
    assert(Seq::<EventView>::empty().push(EventView::Single(message)) =~= seq![
        EventView::Single(message),
    ]);
}

/// Whether a message is one that this client does more about than to show it.
pub open spec fn is_acted_on(command: Command) -> bool {
    match command {
        Command::BATCH(_, _) => true,
        Command::CAP(_, _, _, _) => true,
        Command::AUTHENTICATE(_) => true,
        Command::NICK(_) => true,
        Command::QUIT(_) => true,
        Command::JOIN(_, _) => true,
        Command::PART(_, _) => true,
        Command::TOPIC(_, _) => true,
        Command::INVITE(_, _) => true,
        Command::KICK(_, _, _) => true,
        Command::MODE(_, modes, arguments) => modes is Some && arguments is Some,
        Command::PRIVMSG(_, _) => true,
        Command::NOTICE(_, _) => true,
        Command::TAGMSG(_) => true,
        Command::AWAY(_) => true,
        Command::ACCOUNT(_) => true,
        Command::CHGHOST(_, _) => true,
        Command::Numeric(numeric, _) => match numeric {
            Numeric::RPL_UMODEIS => false,
            Numeric::RPL_ENDOFWHOIS => false,
            Numeric::RPL_ENDOFWHOWAS => false,
            Numeric::ERR_NOSUCHNICK => false,
            Numeric::ERR_NOSUCHSERVER => false,
            Numeric::ERR_WASNOSUCHNICK => false,
            Numeric::ERR_NONICKNAMEGIVEN => false,
            Numeric::ERR_NEEDMOREPARAMS => false,
            Numeric::ERR_UMODEUNKNOWNFLAG => false,
            Numeric::ERR_USERSDONTMATCH => false,
            Numeric::Other(_) => false,
            _ => true,
        },
        _ => false,
    }
}

/// Every other message is shown as it is, and nothing else comes of it.
pub proof fn law_others_are_shown(client: ClientView, message: EncodedView, now: Instant)
    requires
        unmarked(message),
        !is_acted_on(message.command),
        client.reroute_responses_to is None || !(message.command is Numeric || message.command is Unknown),
    ensures
        on_receive(client, message, now) == (ReceivedView {
            client,
            sent: Seq::empty(),
            events: seq![EventView::Single(message)],
        }),
{
    lemma_only_shown(client, message.command, message.parsed, now);
    lemma_received(client, message, now);
    lemma_shown(message);
}

proof fn lemma_only_shown(client: ClientView, command: Command, parsed: Parsed, now: Instant)
    requires
        !is_acted_on(command),
    ensures
        on_command(client, command, parsed, false, now) == Step::shown(client),
{
    reveal(on_command);
    if let Command::Numeric(numeric, args) = command {
        lemma_reply_only_shown(client, numeric, args@, parsed, now);
    }
}

proof fn lemma_reply_only_shown(
    client: ClientView,
    numeric: Numeric,
    args: Seq<String>,
    parsed: Parsed,
    now: Instant,
)
    requires
        numeric is RPL_UMODEIS || numeric is RPL_ENDOFWHOIS || numeric is RPL_ENDOFWHOWAS || numeric
            is ERR_NOSUCHNICK || numeric is ERR_NOSUCHSERVER || numeric is ERR_WASNOSUCHNICK
            || numeric is ERR_NONICKNAMEGIVEN || numeric is ERR_NEEDMOREPARAMS || numeric
            is ERR_UMODEUNKNOWNFLAG || numeric is ERR_USERSDONTMATCH || numeric is Other,
    ensures
        on_numeric(client, numeric, args, parsed, now) == Step::shown(client),
{
    reveal(on_numeric);
}

/// A message that only has tags, and the end of the list of those that are watched, come to
/// nothing.
pub proof fn law_some_come_to_nothing(client: ClientView, message: EncodedView, now: Instant)
    requires
        unmarked(message),
        message.command is TAGMSG || (message.command matches Command::Numeric(numeric, _) && numeric
            is RPL_ENDOFMONLIST && client.reroute_responses_to is None),
    ensures
        on_receive(client, message, now) == (ReceivedView {
            client,
            sent: Seq::empty(),
            events: Seq::empty(),
        }),
{
    assert(on_command(client, message.command, message.parsed, false, now) == Step::nothing(client))
        by {
        reveal(on_command);
        reveal(on_numeric);
    }
    lemma_received(client, message, now);
}

} // verus!
