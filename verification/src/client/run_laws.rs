//! What holds of a client over several messages, each at its own time.

use vstd::prelude::*;

use super::answer_laws::{bare, bears_nothing, belongs_to, law_batch_begins_empty};
use super::answer_laws::law_batch_keeps_back;
use super::dispatch::{batch_of, context_of, label_used, meaning, on_command, on_encoded};
use super::dispatch::{on_numeric, HandledView};
use super::laws::law_command_sound;
use super::negotiation_laws::{alt_after, law_alt_nicks_in_turn};
use super::session::{on_account, on_nick_refused, on_nochanmodes};
use super::who::{on_endofwho, on_whoreply};
use super::{sends, ClientView, Context, OutcomeView, OutgoingView};
use crate::channel::WhoStatus;
use crate::event::EventView;
use crate::grouping::{joins, law_one_join};
use crate::message::EncodedView;
use crate::proto::{names_channel, Command};
use crate::time::Instant;

verus! {

/// A message, and when it comes.
pub struct Arrival {
    pub message: EncodedView,
    pub at: Instant,
}

/// What a client makes of a message.
#[verifier::opaque]
pub open spec fn taken_in(client: ClientView, arrival: Arrival) -> HandledView {
    on_encoded(client, arrival.message, None, arrival.at)
}

/// A client after messages.
pub open spec fn after_all(client: ClientView, arrivals: Seq<Arrival>) -> ClientView
    decreases arrivals.len(),
{
    if arrivals.len() == 0 {
        client
    } else {
        taken_in(after_all(client, arrivals.drop_last()), arrivals.last()).client
    }
}

/// What a client knows when the message comes that is at a place among messages.
pub open spec fn before(client: ClientView, arrivals: Seq<Arrival>, i: int) -> ClientView {
    after_all(client, arrivals.take(i))
}

/// The client after one message more.
proof fn lemma_one_more(client: ClientView, arrivals: Seq<Arrival>, i: int)
    requires
        0 <= i < arrivals.len(),
    ensures
        before(client, arrivals, i + 1) == taken_in(
            before(client, arrivals, i),
            arrivals[i],
        ).client,
{
    assert(arrivals.take(i + 1).drop_last() =~= arrivals.take(i));
    assert(arrivals.take(i + 1).last() == arrivals[i]);
}

/// A numeric reply that bears nothing is taken in by itself, unless replies are shown elsewhere.
proof fn lemma_numeric_alone(client: ClientView, arrival: Arrival)
    requires
        bears_nothing(arrival.message),
        arrival.message.command is Numeric,
        client.reroute_responses_to is None,
    ensures
        ({
            let message = arrival.message;
            let numeric = message.command->Numeric_0;
            let args = message.command->Numeric_1@;
            let step = on_numeric(client, numeric, args, message.parsed, arrival.at);
            taken_in(client, arrival) == HandledView {
                client: step.client,
                sent: step.reply.sent,
                events: meaning(step.reply.outcome, bare(message)),
            }
        }),
{
    reveal(taken_in);
    reveal(on_command);
}

/// What is only shown means itself.
proof fn lemma_shown(message: EncodedView)
    ensures
        meaning(OutcomeView::Shown(Seq::empty()), message) == Some(
            seq![EventView::Single(message)],
        ),
{
    assert(Seq::<EventView>::empty().push(EventView::Single(message)) =~= seq![
        EventView::Single(message),
    ]);
}

// ---------------------------------------------------------------------------
// Batches

/// What a message of a batch means by itself, at a time.
#[verifier::opaque]
pub open spec fn own_meaning(client: ClientView, arrival: Arrival) -> Seq<EventView> {
    let inner = on_encoded(
        label_used(client, arrival.message.tags, None),
        bare(arrival.message),
        context_of(client, arrival.message.tags, None),
        arrival.at,
    );
    match inner.events {
        Some(events) => events,
        None => Seq::empty(),
    }
}

/// What messages of a batch mean, one after the other, each at its own time.
pub open spec fn meanings(client: ClientView, arrivals: Seq<Arrival>) -> Seq<EventView>
    decreases arrivals.len(),
{
    if arrivals.len() == 0 {
        Seq::empty()
    } else {
        meanings(client, arrivals.drop_last()) + own_meaning(
            after_all(client, arrivals.drop_last()),
            arrivals.last(),
        )
    }
}

/// Whether each of some messages belongs to a batch.
pub open spec fn all_belong(arrivals: Seq<Arrival>, batch: Seq<char>) -> bool {
    forall|i: int| 0 <= i < arrivals.len() ==> belongs_to((#[trigger] arrivals[i]).message, batch)
}

/// Whether a message says that a batch begins or ends, and is in no other batch.
pub open spec fn about_batch(message: EncodedView, reference: Seq<char>) -> bool {
    &&& message.command matches Command::BATCH(named, _)
    &&& named@ == reference
    &&& batch_of(message.tags) is None
}

proof fn lemma_batch_collects(client: ClientView, name: Seq<char>, arrivals: Seq<Arrival>)
    requires
        client.batches.contains_key(name),
        all_belong(arrivals, name),
    ensures
        ({
            let after = after_all(client, arrivals);
            &&& after.batches.contains_key(name)
            &&& after.batches[name].context == client.batches[name].context
            &&& after.batches[name].events == client.batches[name].events + meanings(
                client,
                arrivals,
            )
            &&& client.labels == Map::<Seq<char>, Context>::empty() ==> after.labels == Map::<
                Seq<char>,
                Context,
            >::empty()
        }),
    decreases arrivals.len(),
{
    if arrivals.len() == 0 {
        assert(client.batches[name].events + Seq::<EventView>::empty()
            =~= client.batches[name].events);
    } else {
        let fewer = arrivals.drop_last();
        let last = arrivals.last();
        assert forall|i: int| 0 <= i < fewer.len() implies belongs_to(
            (#[trigger] fewer[i]).message,
            name,
        ) by {
            assert(fewer[i] == arrivals[i]);
        }
        lemma_batch_collects(client, name, fewer);
        let then = after_all(client, fewer);
        lemma_kept_back(then, last, name);
        if client.labels == Map::<Seq<char>, Context>::empty() {
            lemma_labels_stay(then, last, name);
        }
        let after = after_all(client, arrivals);
        assert(after == taken_in(then, last).client);
        assert(meanings(client, arrivals) == meanings(client, fewer) + own_meaning(then, last));
        assert(after.batches[name].events =~= client.batches[name].events + meanings(
            client,
            arrivals,
        ));
    }
}

/// What a message of a batch means by itself is kept back.
proof fn lemma_kept_back(client: ClientView, arrival: Arrival, name: Seq<char>)
    requires
        client.batches.contains_key(name),
        belongs_to(arrival.message, name),
    ensures
        ({
            let taken = taken_in(client, arrival);
            &&& taken.events is None
            &&& taken.client.batches.contains_key(name)
            &&& taken.client.batches[name].context == client.batches[name].context
            &&& taken.client.batches[name].events == client.batches[name].events + own_meaning(
                client,
                arrival,
            )
        }),
{
    reveal(taken_in);
    reveal(own_meaning);
    law_batch_keeps_back(client, arrival.message, name, arrival.at);
}

/// A client that waits for no labels still waits for none after a message of a batch.
proof fn lemma_labels_stay(client: ClientView, arrival: Arrival, name: Seq<char>)
    requires
        client.labels == Map::<Seq<char>, Context>::empty(),
        client.batches.contains_key(name),
        belongs_to(arrival.message, name),
    ensures
        label_used(client, arrival.message.tags, None) == client,
        taken_in(client, arrival).client.labels == Map::<Seq<char>, Context>::empty(),
{
    reveal(taken_in);
    let message = arrival.message;
    let used = label_used(client, message.tags, None);
    let context = context_of(client, message.tags, None);
    assert(used.labels =~= client.labels);
    let rest = bare(message);
    let inner_context = context_of(used, rest.tags, context);
    let inner_used = label_used(used, rest.tags, context);
    assert(inner_used.labels =~= client.labels);
    law_command_sound(inner_used, rest.command, rest.parsed, inner_context is Some, arrival.at);
    law_batch_keeps_back(client, message, name, arrival.at);
}

/// Without labels, a message of a batch that answers nothing means what it means alone.
proof fn lemma_means_alone(client: ClientView, arrival: Arrival, name: Seq<char>)
    requires
        client.labels == Map::<Seq<char>, Context>::empty(),
        client.batches.contains_key(name),
        client.batches[name].context is None,
        belongs_to(arrival.message, name),
    ensures
        ({
            let alone = on_encoded(client, bare(arrival.message), None, arrival.at);
            &&& taken_in(client, arrival).sent == alone.sent
            &&& own_meaning(client, arrival) == match alone.events {
                Some(events) => events,
                None => Seq::empty(),
            }
        }),
{
    reveal(taken_in);
    reveal(own_meaning);
    lemma_labels_stay(client, arrival, name);
    law_batch_keeps_back(client, arrival.message, name, arrival.at);
    assert(context_of(client, arrival.message.tags, None) is None);
}

proof fn lemma_batch_begun(client: ClientView, arrival: Arrival, name: Seq<char>)
    requires
        client.labels == Map::<Seq<char>, Context>::empty(),
        about_batch(arrival.message, seq!['+'] + name),
    ensures
        ({
            let begun = taken_in(client, arrival);
            &&& begun.events is None
            &&& begun.sent.len() == 0
            &&& begun.client.labels == client.labels
            &&& begun.client.batches.contains_key(name)
            &&& begun.client.batches[name].context is None
            &&& begun.client.batches[name].events.len() == 0
        }),
{
    reveal(taken_in);
    let used = label_used(client, arrival.message.tags, None);
    assert(used.labels =~= client.labels);
    law_batch_begins_empty(used, name, context_of(client, arrival.message.tags, None), None);
}

proof fn lemma_batch_ended(client: ClientView, arrival: Arrival, name: Seq<char>)
    requires
        about_batch(arrival.message, seq!['-'] + name),
    ensures
        ({
            let ended = taken_in(client, arrival);
            &&& ended.events == if client.batches.contains_key(name) {
                Some(client.batches[name].events)
            } else {
                None
            }
            &&& ended.sent.len() == 0
            &&& !ended.client.batches.contains_key(name)
        }),
{
    reveal(taken_in);
    let reference = seq!['-'] + name;
    assert(reference[0] == '-');
    assert(reference.drop_first() =~= name);
}

/// While the messages of a batch come in, nothing is told, and when the batch ends, all that they
/// mean is told, in the order in which they came.
pub proof fn law_batch_tells_in_order(
    client: ClientView,
    name: Seq<char>,
    arrivals: Seq<Arrival>,
    end: Arrival,
)
    requires
        client.batches.contains_key(name),
        client.batches[name].events.len() == 0,
        all_belong(arrivals, name),
        about_batch(end.message, seq!['-'] + name),
    ensures
        forall|i: int|
            0 <= i < arrivals.len() ==> taken_in(
                before(client, arrivals, i),
                #[trigger] arrivals[i],
            ).events is None,
        taken_in(after_all(client, arrivals), end).events == Some(meanings(client, arrivals)),
{
    lemma_batch_collects(client, name, arrivals);
    let after = after_all(client, arrivals);
    lemma_batch_ended(after, end, name);
    assert(after.batches[name].events =~= meanings(client, arrivals));
    assert forall|i: int| 0 <= i < arrivals.len() implies taken_in(
        before(client, arrivals, i),
        #[trigger] arrivals[i],
    ).events is None by {
        lemma_batch_collects(client, name, arrivals.take(i));
        lemma_kept_back(before(client, arrivals, i), arrivals[i], name);
    }
}

/// A batch from its beginning to its end, where no answers are waited for by their label: nothing
/// is told before the end; the end tells what each message means by itself, without the batch, at
/// its own time, in order; and the batch is forgotten then, so that another end tells nothing.
pub proof fn law_batch_from_begin_to_end(
    client: ClientView,
    name: Seq<char>,
    begin: Arrival,
    arrivals: Seq<Arrival>,
    end: Arrival,
    again: Arrival,
)
    requires
        client.labels == Map::<Seq<char>, Context>::empty(),
        about_batch(begin.message, seq!['+'] + name),
        all_belong(arrivals, name),
        about_batch(end.message, seq!['-'] + name),
        about_batch(again.message, seq!['-'] + name),
    ensures
        ({
            let begun = taken_in(client, begin);
            let ended = taken_in(after_all(begun.client, arrivals), end);
            &&& begun.events is None
            &&& begun.sent.len() == 0
            &&& forall|i: int|
                0 <= i < arrivals.len() ==> {
                    let then = before(begun.client, arrivals, i);
                    let alone = on_encoded(
                        then,
                        bare(arrivals[i].message),
                        None,
                        arrivals[i].at,
                    );
                    let taken = taken_in(then, #[trigger] arrivals[i]);
                    &&& taken.events is None
                    &&& taken.sent == alone.sent
                    &&& own_meaning(then, arrivals[i]) == match alone.events {
                        Some(events) => events,
                        None => Seq::empty(),
                    }
                }
            &&& ended.events == Some(meanings(begun.client, arrivals))
            &&& ended.sent.len() == 0
            &&& taken_in(ended.client, again).events is None
            &&& taken_in(ended.client, again).sent.len() == 0
        }),
{
    lemma_batch_begun(client, begin, name);
    let begun = taken_in(client, begin).client;
    law_batch_tells_in_order(begun, name, arrivals, end);
    let after = after_all(begun, arrivals);
    lemma_batch_ended(after, end, name);
    lemma_batch_ended(taken_in(after, end).client, again, name);
    assert forall|i: int| 0 <= i < arrivals.len() implies ({
        let then = before(begun, arrivals, i);
        let alone = on_encoded(then, bare(arrivals[i].message), None, arrivals[i].at);
        let taken = taken_in(then, #[trigger] arrivals[i]);
        &&& taken.events is None
        &&& taken.sent == alone.sent
        &&& own_meaning(then, arrivals[i]) == match alone.events {
            Some(events) => events,
            None => Seq::empty(),
        }
    }) by {
        let then = before(begun, arrivals, i);
        lemma_batch_collects(begun, name, arrivals.take(i));
        lemma_means_alone(then, arrivals[i], name);
    }
}

// ---------------------------------------------------------------------------
// Refused nicknames

/// Whether a message refuses a nickname.
pub open spec fn refuses_nick(message: EncodedView) -> bool {
    &&& bears_nothing(message)
    &&& message.command matches Command::Numeric(numeric, _)
    &&& numeric is ERR_NICKNAMEINUSE || numeric is ERR_ERRONEUSNICKNAME
}

/// Before a nickname is given to this client, each refusal asks for the next of the other
/// nicknames, in the order in which they were set; once they are used up one refusal asks for
/// none, and the next begins again with the first. Each refusal is shown.
pub proof fn law_refusals_go_round(client: ClientView, arrivals: Seq<Arrival>, j: int)
    requires
        client.resolved_nick is None,
        client.alt_nick is None,
        client.reroute_responses_to is None,
        client.config.alt_nicks.len() <= usize::MAX,
        forall|i: int| 0 <= i < arrivals.len() ==> refuses_nick((#[trigger] arrivals[i]).message),
        0 <= j < arrivals.len(),
    ensures
        ({
            let nicks = client.config.alt_nicks;
            let turn = j % (nicks.len() + 1) as int;
            let taken = taken_in(before(client, arrivals, j), arrivals[j]);
            &&& taken.sent == if turn < nicks.len() {
                seq![sends(Command::NICK(nicks[turn]))]
            } else {
                Seq::<OutgoingView>::empty()
            }
            &&& taken.events == Some(seq![EventView::Single(bare(arrivals[j].message))])
        }),
{
    let count = client.config.alt_nicks.len();
    lemma_refused(client, arrivals, j);
    law_alt_nicks_in_turn(j as nat, count);
    law_alt_nicks_in_turn((j + 1) as nat, count);
    lemma_one_refusal(before(client, arrivals, j), arrivals[j]);
    lemma_shown(bare(arrivals[j].message));
    reveal_with_fuel(alt_after, 2);
}

proof fn lemma_one_refusal(client: ClientView, arrival: Arrival)
    requires
        client.resolved_nick is None,
        client.reroute_responses_to is None,
        refuses_nick(arrival.message),
    ensures
        ({
            let step = on_nick_refused(client);
            taken_in(client, arrival) == HandledView {
                client: step.client,
                sent: step.reply.sent,
                events: meaning(step.reply.outcome, bare(arrival.message)),
            }
        }),
{
    lemma_numeric_alone(client, arrival);
    reveal(on_numeric);
}

/// All that refusals change is which nickname was asked for last.
proof fn lemma_refused(client: ClientView, arrivals: Seq<Arrival>, j: int)
    requires
        client.resolved_nick is None,
        client.alt_nick is None,
        client.reroute_responses_to is None,
        forall|i: int| 0 <= i < arrivals.len() ==> refuses_nick((#[trigger] arrivals[i]).message),
        0 <= j <= arrivals.len(),
    ensures
        before(client, arrivals, j) == (ClientView {
            alt_nick: alt_after(j as nat, client.config.alt_nicks.len()),
            ..client
        }),
    decreases j,
{
    reveal_with_fuel(alt_after, 2);
    if j > 0 {
        lemma_refused(client, arrivals, j - 1);
        lemma_one_more(client, arrivals, j - 1);
        lemma_one_refusal(before(client, arrivals, j - 1), arrivals[j - 1]);
    }
}

// ---------------------------------------------------------------------------
// The state of users

/// Whether a message answers a request for the state of a channel's users.
pub open spec fn tells_who(message: EncodedView, channel: Seq<char>) -> bool {
    &&& bears_nothing(message)
    &&& message.command matches Command::Numeric(numeric, args)
    &&& numeric is RPL_WHOREPLY
    &&& args@.len() >= 7
    &&& args@[1]@ == channel
}

/// Whether a message ends the answers to a request for the state of a channel's users.
pub open spec fn ends_who(message: EncodedView, channel: Seq<char>) -> bool {
    &&& bears_nothing(message)
    &&& message.command matches Command::Numeric(numeric, args)
    &&& numeric is RPL_ENDOFWHO
    &&& args@.len() >= 2
    &&& args@[1]@ == channel
}

/// Whether answers without a token are those of this client, as far as it knows: nothing was asked
/// yet, a request without a token waits, or answers are being received.
pub open spec fn awaits_who(client: ClientView, channel: Seq<char>) -> bool {
    &&& client.reroute_responses_to is None
    &&& client.chanmap.contains_key(channel)
    &&& client.chanmap[channel].last_who matches Some(status) ==> (status matches
        WhoStatus::Requested(_, token) && token is None) || status is Receiving
}

proof fn lemma_who_told(client: ClientView, arrival: Arrival, channel: Seq<char>)
    requires
        names_channel(channel),
        awaits_who(client, channel),
        tells_who(arrival.message, channel),
    ensures
        ({
            let taken = taken_in(client, arrival);
            &&& taken.events is None
            &&& taken.sent.len() == 0
            &&& awaits_who(taken.client, channel)
            &&& taken.client.chanmap[channel].last_who is Some
            &&& taken.client.chanmap[channel].last_who->0 is Receiving
        }),
{
    let args = arrival.message.command->Numeric_1@;
    lemma_numeric_alone(client, arrival);
    reveal(on_numeric);
    let step = on_whoreply(client, args);
    assert(step.reply.outcome is Nothing);
}

proof fn lemma_who_ended(client: ClientView, arrival: Arrival, channel: Seq<char>)
    requires
        client.reroute_responses_to is None,
        ends_who(arrival.message, channel),
    ensures
        ({
            let args = arrival.message.command->Numeric_1@;
            let step = on_endofwho(client, args, arrival.at);
            taken_in(client, arrival) == HandledView {
                client: step.client,
                sent: step.reply.sent,
                events: meaning(step.reply.outcome, bare(arrival.message)),
            }
        }),
{
    lemma_numeric_alone(client, arrival);
    reveal(on_numeric);
}

proof fn lemma_who_awaited(client: ClientView, arrivals: Seq<Arrival>, channel: Seq<char>, j: int)
    requires
        names_channel(channel),
        awaits_who(client, channel),
        forall|i: int|
            0 <= i < arrivals.len() ==> tells_who((#[trigger] arrivals[i]).message, channel),
        0 <= j <= arrivals.len(),
    ensures
        awaits_who(before(client, arrivals, j), channel),
        j > 0 ==> before(client, arrivals, j).chanmap[channel].last_who is Some,
        j > 0 ==> before(client, arrivals, j).chanmap[channel].last_who->0 is Receiving,
    decreases j,
{
    if j > 0 {
        lemma_who_awaited(client, arrivals, channel, j - 1);
        lemma_one_more(client, arrivals, j - 1);
        assert(tells_who(arrivals[j - 1].message, channel));
        lemma_who_told(before(client, arrivals, j - 1), arrivals[j - 1], channel);
    }
}

/// The answers to a request without a token, and their end, are not shown, however many there are,
/// and the request is done at the time of the end. Another end is shown, and changes nothing.
pub proof fn law_who_from_begin_to_end(
    client: ClientView,
    channel: Seq<char>,
    arrivals: Seq<Arrival>,
    end: Arrival,
    again: Arrival,
)
    requires
        names_channel(channel),
        awaits_who(client, channel),
        arrivals.len() > 0,
        forall|i: int|
            0 <= i < arrivals.len() ==> tells_who((#[trigger] arrivals[i]).message, channel),
        ends_who(end.message, channel),
        ends_who(again.message, channel),
    ensures
        ({
            let ended = taken_in(after_all(client, arrivals), end);
            let repeated = taken_in(ended.client, again);
            &&& forall|i: int|
                0 <= i < arrivals.len() ==> {
                    let taken = taken_in(before(client, arrivals, i), #[trigger] arrivals[i]);
                    taken.events is None && taken.sent.len() == 0
                }
            &&& ended.events is None
            &&& ended.sent.len() == 0
            &&& ended.client.chanmap[channel].last_who == Some(WhoStatus::Done(end.at))
            &&& repeated.events == Some(seq![EventView::Single(bare(again.message))])
            &&& repeated.sent.len() == 0
            &&& repeated.client == ended.client
        }),
{
    assert forall|i: int| 0 <= i < arrivals.len() implies ({
        let taken = taken_in(before(client, arrivals, i), #[trigger] arrivals[i]);
        taken.events is None && taken.sent.len() == 0
    }) by {
        lemma_who_awaited(client, arrivals, channel, i);
        assert(tells_who(arrivals[i].message, channel));
        lemma_who_told(before(client, arrivals, i), arrivals[i], channel);
    }
    lemma_who_awaited(client, arrivals, channel, arrivals.len() as int);
    assert(arrivals.take(arrivals.len() as int) =~= arrivals);
    let answered = after_all(client, arrivals);
    lemma_who_ended(answered, end, channel);
    lemma_who_ended(taken_in(answered, end).client, again, channel);
    lemma_shown(bare(again.message));
}

// ---------------------------------------------------------------------------
// Channels that want a registered nickname

/// Whether a message refuses a channel for want of a registered nickname.
pub open spec fn refuses_channel(message: EncodedView, channel: Seq<char>) -> bool {
    &&& bears_nothing(message)
    &&& message.command matches Command::Numeric(numeric, args)
    &&& numeric is ERR_NOCHANMODES
    &&& args@.len() >= 2
    &&& args@[1]@ == channel
}

/// Whether a message tells the account of a user with a nickname.
pub open spec fn tells_account(message: EncodedView, nick: Seq<char>, account: Seq<char>) -> bool {
    &&& bears_nothing(message)
    &&& message.command matches Command::ACCOUNT(name)
    &&& name@ == account
    &&& message.parsed.user is Some
    &&& message.parsed.user->0@.nickname == nick
}

/// What joins one channel, with its key if it has one.
pub open spec fn one_join(client: ClientView, channel: Seq<char>) -> Seq<OutgoingView> {
    let keys = client.config.channel_keys;
    seq![
        sends(
            Command::JOIN(
                channel,
                if keys.contains_key(channel) {
                    Some(keys[channel])
                } else {
                    None
                },
            ),
        ),
    ]
}

/// A channel that is refused for want of a registered nickname is joined once this client has an
/// account, and only where it was to be joined and is not joined already; it is joined once. As
/// long as this client is only told that it has no account, the channel goes on waiting.
pub proof fn law_refused_channel_waits_for_account(
    client: ClientView,
    channel: Seq<char>,
    refusal: Arrival,
    first: Arrival,
    account: Seq<char>,
    second: Arrival,
    later_account: Seq<char>,
)
    requires
        client.registration_required_channels.len() == 0,
        client.reroute_responses_to is None,
        refuses_channel(refusal.message, channel),
        tells_account(first.message, client.nick(), account),
        tells_account(second.message, client.nick(), later_account),
    ensures
        ({
            let waits = !client.chanmap.contains_key(channel) && client.config.channels.contains(
                channel,
            );
            let nothing = Seq::<OutgoingView>::empty();
            let refused = taken_in(client, refusal);
            let told = taken_in(refused.client, first);
            let told_again = taken_in(told.client, second);
            &&& refused.sent == nothing
            &&& told.sent == if waits && account != "*"@ {
                one_join(client, channel)
            } else {
                nothing
            }
            &&& told.client.registration_required_channels == if waits && account == "*"@ {
                seq![channel]
            } else {
                Seq::empty()
            }
            &&& told_again.sent == if waits && account == "*"@ && later_account != "*"@ {
                one_join(client, channel)
            } else {
                nothing
            }
        }),
{
    let keys = client.config.channel_keys;
    law_one_join(channel, keys);
    assert(client.registration_required_channels =~= Seq::empty());
    assert(Seq::<Seq<char>>::empty().push(channel) =~= seq![channel]);
    assert(super::all_sent(joins(seq![channel], keys)) =~= one_join(client, channel));
    lemma_channel_refused(client, refusal, channel);
    let refused = taken_in(client, refusal).client;
    lemma_account_told(refused, first, account);
    let told = taken_in(refused, first).client;
    lemma_account_told(told, second, later_account);
}

proof fn lemma_channel_refused(client: ClientView, arrival: Arrival, channel: Seq<char>)
    requires
        client.reroute_responses_to is None,
        refuses_channel(arrival.message, channel),
    ensures
        ({
            let step = on_nochanmodes(client, arrival.message.command->Numeric_1@);
            taken_in(client, arrival) == HandledView {
                client: step.client,
                sent: step.reply.sent,
                events: meaning(step.reply.outcome, bare(arrival.message)),
            }
        }),
{
    lemma_numeric_alone(client, arrival);
    reveal(on_numeric);
}

proof fn lemma_account_told(client: ClientView, arrival: Arrival, account: Seq<char>)
    requires
        tells_account(arrival.message, client.nick(), account),
    ensures
        ({
            let step = on_account(client, account, arrival.message.parsed);
            taken_in(client, arrival) == HandledView {
                client: step.client,
                sent: step.reply.sent,
                events: meaning(step.reply.outcome, bare(arrival.message)),
            }
        }),
{
    reveal(taken_in);
    reveal(on_command);
}

} // verus!
