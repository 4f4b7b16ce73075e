//! What holds of answers: of labels, batches and the buffers in which answers are shown.

use vstd::prelude::*;

use super::dispatch::{batch_of, context_of, label_used, lemma_other_tags, on_batch};
use super::dispatch::{on_command, on_encoded, on_message, other_tags, HandledView};
use super::exchange::{after_sending, on_receive, sent_for, starts_reroute, stops_reroute};
use super::laws::law_command_sound;
use super::{BatchView, ClientView, Context};
use crate::buffer::Buffer;
use crate::event::EventView;
use crate::message::EncodedView;
use crate::proto::{tag_value, MessageView, Tag, TagView};
use crate::time::Instant;

verus! {

/// A message with the tags left that are neither a label nor a batch.
pub open spec fn bare(message: EncodedView) -> EncodedView {
    EncodedView { tags: other_tags(message.tags), ..message }
}

/// Whether a message bears a label, belongs to no batch, and is not about batches itself.
pub open spec fn bears_label(message: EncodedView, label: Seq<char>) -> bool {
    &&& tag_value(message.tags, "label"@) == Some(label)
    &&& batch_of(message.tags) is None
    &&& !(message.command is BATCH)
}

/// Whether a message bears no label, belongs to no batch, and is not about batches itself.
pub open spec fn bears_nothing(message: EncodedView) -> bool {
    &&& tag_value(message.tags, "label"@) is None
    &&& batch_of(message.tags) is None
    &&& !(message.command is BATCH)
}

// ---------------------------------------------------------------------------
// Labels

/// Where answers are labeled, a message that is written from a buffer goes out under a label, and
/// the first answer that bears the label is known to answer it.
pub proof fn law_label_finds_its_message(
    client: ClientView,
    message: MessageView,
    buffer: Buffer,
    label: Seq<char>,
    answer: EncodedView,
)
    requires
        client.supports_labels,
        bears_label(answer, label),
    ensures
        sent_for(client, message, Some(buffer), label).tags == seq![
            TagView { key: "label"@, value: Some(label) },
        ],
        context_of(
            after_sending(client, message, Some(buffer), label),
            answer.tags,
            None,
        ) == Some(Context::of(message.command, buffer)),
{
}

/// The answer to the question who somebody is goes to the buffer in which it was asked, and does
/// nothing else.
pub proof fn law_whois_answer_goes_back(
    client: ClientView,
    message: MessageView,
    buffer: Buffer,
    label: Seq<char>,
    answer: EncodedView,
    now: Instant,
)
    requires
        client.supports_labels,
        message.command is WHOIS,
        bears_label(answer, label),
    ensures
        ({
            let asking = after_sending(client, message, Some(buffer), label);
            on_encoded(asking, answer, None, now) == HandledView {
                client: ClientView { labels: asking.labels.remove(label), ..asking },
                sent: Seq::empty(),
                events: Some(seq![EventView::WithTarget(bare(answer), buffer)]),
            }
        }),
{
}

/// A label counts for one answer: after it, nothing is known to be answered by the label.
pub proof fn law_label_counts_once(client: ClientView, answer: EncodedView, label: Seq<char>, now: Instant)
    requires
        bears_label(answer, label),
    ensures
        context_of(on_encoded(client, answer, None, now).client, answer.tags, None) is None,
{
    let context = context_of(client, answer.tags, None);
    let used = label_used(client, answer.tags, None);
    law_command_sound(used, answer.command, answer.parsed, context is Some, now);
    assert(!used.labels.contains_key(label));
}

/// What this client said itself, and shows already, comes to nothing when the server repeats it:
/// a message of its own that answers one which it sent from a buffer, and that neither asks for a
/// connection nor mentions this client.
pub proof fn law_echo_is_dropped(client: ClientView, message: EncodedView, context: Context, now: Instant)
    requires
        message.command is PRIVMSG || message.command is NOTICE,
        context is Buffer,
        message.parsed.user is Some,
        message.parsed.user->0@.nickname == client.nick(),
        message.parsed.dcc is None,
        !message.parsed.references_us,
    ensures
        on_message(client, message, Some(context), now) == (HandledView {
            client,
            sent: Seq::empty(),
            events: None,
        }),
{
    reveal(on_command);
}

/// Where answers are labeled, the server's echo of a message that was written from a buffer comes
/// to nothing, unless it asks for a connection or mentions this client.
pub proof fn law_labeled_echo_is_dropped(
    client: ClientView,
    message: MessageView,
    buffer: Buffer,
    label: Seq<char>,
    echo: EncodedView,
    now: Instant,
)
    requires
        client.supports_labels,
        !(message.command is WHOIS),
        bears_label(echo, label),
        echo.command is PRIVMSG || echo.command is NOTICE,
        echo.parsed.user is Some,
        echo.parsed.user->0@.nickname == client.nick(),
        echo.parsed.dcc is None,
        !echo.parsed.references_us,
    ensures
        ({
            let waiting = after_sending(client, message, Some(buffer), label);
            on_encoded(waiting, echo, None, now) == HandledView {
                client: ClientView { labels: waiting.labels.remove(label), ..waiting },
                sent: Seq::empty(),
                events: None,
            }
        }),
{
    let waiting = after_sending(client, message, Some(buffer), label);
    let used = label_used(waiting, echo.tags, None);
    law_echo_is_dropped(used, bare(echo), Context::Buffer(buffer), now);
}

/// A message that bears no label, or one that is not known, answers what its batch answers.
pub proof fn law_batch_answers_for_messages(client: ClientView, tags: Seq<Tag>, batch: Seq<char>)
    requires
        batch_of(tags) == Some(batch),
        client.batches.contains_key(batch),
        tag_value(tags, "label"@) is None || !client.labels.contains_key(
            tag_value(tags, "label"@)->0,
        ),
    ensures
        context_of(client, tags, None) == client.batches[batch].context,
{
}

// ---------------------------------------------------------------------------
// The buffer in which answers are shown

/// After a command whose answers are shown where it was written, every numeric answer is shown
/// there, and does nothing else; the last answer ends this.
pub proof fn law_answers_are_rerouted(
    client: ClientView,
    message: MessageView,
    buffer: Buffer,
    label: Seq<char>,
    answer: EncodedView,
    now: Instant,
)
    requires
        starts_reroute(message.command),
        bears_nothing(answer),
        answer.command is Numeric || answer.command is Unknown,
    ensures
        ({
            let asking = after_sending(client, message, Some(buffer), label);
            let received = on_receive(asking, answer, now);
            &&& received.sent.len() == 0
            &&& received.events == seq![EventView::WithTarget(bare(answer), buffer)]
            &&& received.client == ClientView {
                reroute_responses_to: if stops_reroute(answer.command) {
                    None
                } else {
                    Some(buffer)
                },
                ..asking
            }
        }),
{
}

/// A message that is written from no buffer changes nothing that is known, and goes out as it is.
pub proof fn law_plain_sending(client: ClientView, message: MessageView, label: Seq<char>)
    ensures
        after_sending(client, message, None, label) == client,
        sent_for(client, message, None, label) == message,
{
}

/// After the last answer, no answer is shown where a command was written.
pub proof fn law_last_answer_ends_reroute(client: ClientView, answer: EncodedView, now: Instant)
    requires
        stops_reroute(answer.command),
    ensures
        on_receive(client, answer, now).client.reroute_responses_to is None,
{
}

// ---------------------------------------------------------------------------
// Batches

/// Whether a message belongs to one batch, and is not about batches itself.
pub open spec fn belongs_to(message: EncodedView, batch: Seq<char>) -> bool {
    &&& batch_of(message.tags) == Some(batch)
    &&& batch_of(other_tags(message.tags)) is None
    &&& !(message.command is BATCH)
}

/// What a message of a known batch means by itself is kept back, behind what came before it in the
/// batch; nothing is told yet. What is sent, and all else that the client knows, is as it would be
/// without the batch.
pub proof fn law_batch_keeps_back(client: ClientView, message: EncodedView, batch: Seq<char>, now: Instant)
    requires
        belongs_to(message, batch),
        client.batches.contains_key(batch),
    ensures
        ({
            let inner = on_encoded(
                label_used(client, message.tags, None),
                bare(message),
                context_of(client, message.tags, None),
                now,
            );
            let handled = on_encoded(client, message, None, now);
            &&& inner.client.batches == client.batches
            &&& handled.events is None
            &&& handled.sent == inner.sent
            &&& handled.client == ClientView {
                batches: client.batches.insert(
                    batch,
                    BatchView {
                        context: client.batches[batch].context,
                        events: client.batches[batch].events + (match inner.events {
                            Some(events) => events,
                            None => Seq::empty(),
                        }),
                    },
                ),
                ..inner.client
            }
        }),
{
    lemma_other_tags(message.tags);
    let used = label_used(client, message.tags, None);
    let context = context_of(client, message.tags, None);
    let rest = bare(message);
    let inner_context = context_of(used, rest.tags, context);
    let inner_used = label_used(used, rest.tags, context);
    law_command_sound(inner_used, rest.command, rest.parsed, inner_context is Some, now);
    let inner = on_encoded(used, rest, context, now);
    assert(inner == on_message(inner_used, bare(rest), inner_context, now));
    assert(inner.client.batches == client.batches);
    let known = client.batches[batch];
    if inner.events is None {
        assert(known.events + Seq::<EventView>::empty() =~= known.events);
        assert(client.batches.insert(batch, known) =~= client.batches);
    }
}

/// A batch begins with nothing kept back.
pub proof fn law_batch_begins_empty(
    client: ClientView,
    name: Seq<char>,
    context: Option<Context>,
    parent: Option<Seq<char>>,
)
    ensures
        ({
            let handled = on_batch(client, seq!['+'] + name, context, parent);
            &&& handled.events is None
            &&& handled.sent.len() == 0
            &&& handled.client == ClientView {
                batches: client.batches.insert(name, BatchView { context, events: Seq::empty() }),
                ..client
            }
        }),
{
    let reference = seq!['+'] + name;
    assert(reference[0] == '+');
    assert(reference.drop_first() =~= name);
}

/// When a batch ends that is in no other, all that was kept back is told at once, in order, and the
/// batch is forgotten.
pub proof fn law_batch_end_tells_all(client: ClientView, name: Seq<char>, context: Option<Context>)
    requires
        client.batches.contains_key(name),
    ensures
        on_batch(client, seq!['-'] + name, context, None) == (HandledView {
            client: ClientView { batches: client.batches.remove(name), ..client },
            sent: Seq::empty(),
            events: Some(client.batches[name].events),
        }),
{
    let reference = seq!['-'] + name;
    assert(reference[0] == '-');
    assert(reference.drop_first() =~= name);
}

/// When a batch ends within another that is known, all that was kept back is kept back in the
/// other, and nothing is told yet.
pub proof fn law_nested_batch_passes_up(
    client: ClientView,
    name: Seq<char>,
    context: Option<Context>,
    parent: Seq<char>,
)
    requires
        client.batches.contains_key(name),
        client.batches.contains_key(parent),
        parent != name,
    ensures
        ({
            let handled = on_batch(client, seq!['-'] + name, context, Some(parent));
            &&& handled.events is None
            &&& handled.sent.len() == 0
            &&& !handled.client.batches.contains_key(name)
            &&& handled.client.batches[parent].events == client.batches[parent].events
                + client.batches[name].events
            &&& handled.client.batches[parent].context == client.batches[parent].context
        }),
{
    let reference = seq!['-'] + name;
    assert(reference[0] == '-');
    assert(reference.drop_first() =~= name);
}

} // verus!
