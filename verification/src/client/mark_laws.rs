//! What the marks of messages do: labels, batches, and the buffer in which answers are shown.

use vstd::prelude::*;

use super::dispatch::{batch_of, context_of, label_used, misses, on_command, on_encoded};
use super::dispatch::{on_message, other_tags};
use super::exchange::{after_sending, on_receive, sent_for, ReceivedView};
use super::laws::law_command_sound;
use super::plain_laws::{lemma_unmarked, unmarked};
use super::{BatchView, ClientView, Context};
use crate::buffer::Buffer;
use crate::event::{EventView, NotificationView};
use crate::message::EncodedView;
use crate::proto::{has_tag, lemma_has_tag, lemma_tag_place, names_channel, tag_value, without_tag};
use crate::proto::{Command, CommandView, MessageView, Numeric, Tag, TagView};
use crate::text::opt_text;
use crate::time::Instant;

verus! {

// ---------------------------------------------------------------------------
// Tags

/// The first tag with a key is the one that counts, and the one that is taken out; the others stay
/// in their order.
pub proof fn law_first_tag_counts(tags: Seq<Tag>, key: Seq<char>, i: int)
    requires
        0 <= i < tags.len(),
        tags[i].key@ == key,
        forall|j: int| 0 <= j < i ==> (#[trigger] tags[j]).key@ != key,
    ensures
        tag_value(tags, key) == (if tags[i].value is Some {
            Some(tags[i].value->0@)
        } else {
            None
        }),
        without_tag(tags, key) == tags.take(i) + tags.skip(i + 1),
{
    lemma_tag_place(tags, key, i);
    assert(tags.remove(i) =~= tags.take(i) + tags.skip(i + 1));
}

/// Where no tag has a key, there is no value, and all tags stay.
pub proof fn law_no_tag_counts(tags: Seq<Tag>, key: Seq<char>)
    requires
        forall|j: int| 0 <= j < tags.len() ==> (#[trigger] tags[j]).key@ != key,
    ensures
        tag_value(tags, key) is None,
        without_tag(tags, key) == tags,
{
    if has_tag(tags, key) {
        lemma_has_tag(tags, key);
    }
}

/// Whether the tag at a place is the only mark of a message.
pub open spec fn only_mark(message: EncodedView, key: Seq<char>, k: int) -> bool {
    &&& 0 <= k < message.tags.len()
    &&& message.tags[k].key@ == key
    &&& forall|i: int|
        0 <= i < message.tags.len() && i != k ==> (#[trigger] message.tags[i]).key@ != "label"@
            && message.tags[i].key@ != "batch"@
}

/// A message without one of its tags.
pub open spec fn without_tag_at(message: EncodedView, k: int) -> EncodedView {
    EncodedView { tags: message.tags.take(k) + message.tags.skip(k + 1), ..message }
}

proof fn lemma_keys()
    ensures
        "label"@ != "batch"@,
{
    reveal_strlit("label");
    reveal_strlit("batch");
    assert("label"@[0] == 'l');
    assert("batch"@[0] == 'b');
}

proof fn lemma_without_mark(message: EncodedView, key: Seq<char>, k: int)
    requires
        only_mark(message, key, k),
    ensures
        unmarked(without_tag_at(message, k)),
{
    let rest = without_tag_at(message, k);
    assert forall|i: int| 0 <= i < rest.tags.len() implies (#[trigger] rest.tags[i]).key@ != "label"@
        && rest.tags[i].key@ != "batch"@ by {
        if i < k {
            assert(rest.tags[i] == message.tags[i]);
        } else {
            assert(rest.tags[i] == message.tags[i + 1]);
        }
    }
}

/// What the marks of a message are, where it bears one: a label names no batch, and a batch is no
/// label; the other tags are left.
pub proof fn law_marks(message: EncodedView, k: int)
    ensures
        only_mark(message, "label"@, k) ==> {
            &&& tag_value(message.tags, "label"@) == opt_text(message.tags[k].value)
            &&& batch_of(message.tags) is None
            &&& other_tags(message.tags) == without_tag_at(message, k).tags
        },
        only_mark(message, "batch"@, k) ==> {
            &&& tag_value(message.tags, "label"@) is None
            &&& batch_of(message.tags) == opt_text(message.tags[k].value)
            &&& other_tags(message.tags) == without_tag_at(message, k).tags
        },
{
    lemma_keys();
    if only_mark(message, "label"@, k) {
        law_first_tag_counts(message.tags, "label"@, k);
        lemma_without_mark(message, "label"@, k);
        lemma_unmarked(without_tag_at(message, k));
        law_no_tag_counts(without_tag_at(message, k).tags, "batch"@);
    }
    if only_mark(message, "batch"@, k) {
        law_no_tag_counts(message.tags, "label"@);
        law_first_tag_counts(message.tags, "batch"@, k);
    }
}

// ---------------------------------------------------------------------------
// Sending

/// Whether the answers to a command are shown where it was written: it asks about users, or about
/// modes that are not those of a channel.
pub open spec fn is_answered_where_written(command: CommandView) -> bool {
    match command {
        Command::WHO(_, _, _) => true,
        Command::WHOIS(_, _) => true,
        Command::WHOWAS(_, _) => true,
        Command::MODE(target, _, _) => !names_channel(target),
        _ => false,
    }
}

/// A message that is written from a buffer goes out as it is, or with a label as its only tag where
/// the server answers with labels; what the label is for is remembered then. Its answers are shown
/// in the buffer, or answers are shown where they belong again. Nothing else changes.
pub proof fn law_writing(client: ClientView, message: MessageView, buffer: Buffer, label: Seq<char>)
    ensures
        sent_for(client, message, Some(buffer), label) == (MessageView {
            tags: if client.supports_labels {
                seq![TagView { key: "label"@, value: Some(label) }]
            } else {
                message.tags
            },
            command: message.command,
        }),
        after_sending(client, message, Some(buffer), label) == (ClientView {
            labels: if client.supports_labels {
                client.labels.insert(
                    label,
                    if message.command is WHOIS {
                        Context::Whois(buffer)
                    } else {
                        Context::Buffer(buffer)
                    },
                )
            } else {
                client.labels
            },
            reroute_responses_to: if is_answered_where_written(message.command) {
                Some(buffer)
            } else {
                None
            },
            ..client
        }),
{
}

// ---------------------------------------------------------------------------
// Receiving

/// Whether a reply is the last one to a command whose answers are shown where it was written.
pub open spec fn is_last_answer(command: Command) -> bool {
    match command {
        Command::Numeric(Numeric::RPL_ENDOFWHO, _) => true,
        Command::Numeric(Numeric::RPL_ENDOFWHOIS, _) => true,
        Command::Numeric(Numeric::RPL_ENDOFWHOWAS, _) => true,
        Command::Numeric(Numeric::RPL_UMODEIS, _) => true,
        Command::Numeric(Numeric::ERR_NOSUCHNICK, _) => true,
        Command::Numeric(Numeric::ERR_NOSUCHSERVER, _) => true,
        Command::Numeric(Numeric::ERR_NONICKNAMEGIVEN, _) => true,
        Command::Numeric(Numeric::ERR_WASNOSUCHNICK, _) => true,
        Command::Numeric(Numeric::ERR_NEEDMOREPARAMS, _) => true,
        Command::Numeric(Numeric::ERR_USERSDONTMATCH, _) => true,
        Command::Numeric(Numeric::ERR_UMODEUNKNOWNFLAG, _) => true,
        _ => false,
    }
}

/// What comes of a message that is received is what comes of it by itself; after the last answer,
/// answers are shown where they belong again.
pub proof fn law_receiving(client: ClientView, message: EncodedView, now: Instant)
    ensures
        ({
            let handled = on_encoded(client, message, None, now);
            on_receive(client, message, now) == ReceivedView {
                client: ClientView {
                    reroute_responses_to: if is_last_answer(message.command) {
                        None
                    } else {
                        handled.client.reroute_responses_to
                    },
                    ..handled.client
                },
                sent: handled.sent,
                events: if handled.events is Some {
                    handled.events->0
                } else {
                    Seq::empty()
                },
            }
        }),
{
}

/// Where answers are shown in a buffer, a reply of the server is shown there, and the client does
/// nothing else about it; the last answer ends this.
pub proof fn law_reply_is_shown_in_buffer(client: ClientView, message: EncodedView, now: Instant)
    requires
        unmarked(message),
        message.command is Numeric || message.command is Unknown,
        client.reroute_responses_to is Some,
    ensures
        on_receive(client, message, now) == (ReceivedView {
            client: ClientView {
                reroute_responses_to: if is_last_answer(message.command) {
                    None
                } else {
                    client.reroute_responses_to
                },
                ..client
            },
            sent: Seq::empty(),
            events: seq![EventView::WithTarget(message, client.reroute_responses_to->0)],
        }),
{
    lemma_unmarked(message);
}

/// A message with a label that is known answers what was written: the answer to the question who
/// somebody is goes to where it was asked; any other is taken in as if it bore no label, but what
/// this client says itself. The label counts once.
pub proof fn law_labeled_message(
    client: ClientView,
    message: EncodedView,
    k: int,
    label: Seq<char>,
    now: Instant,
)
    requires
        only_mark(message, "label"@, k),
        opt_text(message.tags[k].value) == Some(label),
        !(message.command is BATCH),
    ensures
        ({
            let rest = without_tag_at(message, k);
            let used = ClientView { labels: client.labels.remove(label), ..client };
            let received = on_receive(client, message, now);
            &&& client.labels.contains_key(label) && client.labels[label] is Whois ==> {
                &&& received.sent.len() == 0
                &&& received.events == seq![
                    EventView::WithTarget(rest, client.labels[label]->Whois_0),
                ]
                &&& received.client == ClientView {
                    reroute_responses_to: if is_last_answer(message.command) {
                        None
                    } else {
                        client.reroute_responses_to
                    },
                    ..used
                }
            }
            &&& !client.labels.contains_key(label) ==> received == on_receive(used, rest, now)
            &&& client.labels.contains_key(label) && client.labels[label] is Buffer && (!(
            message.command is PRIVMSG || message.command is NOTICE) || message.parsed.user is None
                || message.parsed.user->0@.nickname != client.nick()) ==> received == on_receive(
                used,
                rest,
                now,
            )
        }),
{
    law_marks(message, k);
    let rest = without_tag_at(message, k);
    lemma_without_mark(message, "label"@, k);
    lemma_unmarked(rest);
    let used = ClientView { labels: client.labels.remove(label), ..client };
    if client.labels.contains_key(label) && client.labels[label] is Buffer && (!(message.command
        is PRIVMSG || message.command is NOTICE) || message.parsed.user is None
        || message.parsed.user->0@.nickname != client.nick()) {
        super::talk_laws::law_answer_is_taken_in(
            used,
            rest,
            client.labels[label]->Buffer_0,
            now,
        );
    }
}

/// What this client said itself from a buffer comes to nothing when the server repeats it under its
/// label, unless it draws attention by a mention, or asks for a connection.
pub proof fn law_labeled_echo(
    client: ClientView,
    message: EncodedView,
    k: int,
    label: Seq<char>,
    now: Instant,
)
    requires
        only_mark(message, "label"@, k),
        opt_text(message.tags[k].value) == Some(label),
        message.command is PRIVMSG || message.command is NOTICE,
        client.labels.contains_key(label),
        client.labels[label] is Buffer,
        message.parsed.user is Some,
        message.parsed.user->0@.nickname == client.nick(),
        message.parsed.dcc is None,
    ensures
        ({
            let target = match message.command {
                Command::PRIVMSG(target, _) => target@,
                Command::NOTICE(target, _) => target@,
                _ => Seq::empty(),
            };
            on_receive(client, message, now) == ReceivedView {
                client: ClientView { labels: client.labels.remove(label), ..client },
                sent: Seq::empty(),
                events: if message.parsed.references_us && client.highlight_blackout is Receiving {
                    seq![
                        EventView::Notification(
                            without_tag_at(message, k),
                            NotificationView::Highlight(message.parsed.user->0@, target),
                        ),
                    ]
                } else {
                    Seq::empty()
                },
            }
        }),
{
    law_marks(message, k);
    reveal(on_command);
}

/// A message that is marked by nothing but a batch that is not known, or by a batch without a name,
/// is taken in as if it were not marked.
pub proof fn law_message_of_no_batch(client: ClientView, message: EncodedView, k: int, now: Instant)
    requires
        only_mark(message, "batch"@, k),
        !(message.command is BATCH),
        message.tags[k].value is None || !client.batches.contains_key(message.tags[k].value->0@),
    ensures
        on_receive(client, message, now) == on_receive(client, without_tag_at(message, k), now),
{
    law_marks(message, k);
    let rest = without_tag_at(message, k);
    lemma_without_mark(message, "batch"@, k);
    lemma_unmarked(rest);
    law_command_sound(client, rest.command, rest.parsed, false, now);
    assert(on_encoded(client, rest, None, now) == on_message(client, rest, None, now));
    reveal_with_fuel(on_encoded, 2);
}

/// A message of a batch that is known does and sends what it would without the batch, but nothing
/// of it is told yet: what would be told is kept with the batch, behind what came before. Where the
/// batch answers what was written from a buffer, this holds but for what this client says itself.
pub proof fn law_message_of_batch(
    client: ClientView,
    message: EncodedView,
    k: int,
    name: Seq<char>,
    now: Instant,
)
    requires
        only_mark(message, "batch"@, k),
        opt_text(message.tags[k].value) == Some(name),
        !(message.command is BATCH),
        client.batches.contains_key(name),
        client.batches[name].context is None || (client.batches[name].context->0 is Buffer && (!(
        message.command is PRIVMSG || message.command is NOTICE) || message.parsed.user is None
            || message.parsed.user->0@.nickname != client.nick())),
    ensures
        ({
            let alone = on_receive(client, without_tag_at(message, k), now);
            let batch = client.batches[name];
            on_receive(client, message, now) == ReceivedView {
                client: ClientView {
                    batches: client.batches.insert(
                        name,
                        BatchView { context: batch.context, events: batch.events + alone.events },
                    ),
                    ..alone.client
                },
                sent: alone.sent,
                events: Seq::empty(),
            }
        }),
{
    law_marks(message, k);
    let rest = without_tag_at(message, k);
    let batch = client.batches[name];
    lemma_without_mark(message, "batch"@, k);
    lemma_unmarked(rest);
    law_command_sound(client, rest.command, rest.parsed, false, now);
    law_command_sound(client, rest.command, rest.parsed, true, now);
    let inner = on_encoded(client, rest, batch.context, now);
    assert(inner == on_message(client, rest, batch.context, now));
    if batch.context is Some {
        super::talk_laws::law_answer_is_taken_in(client, rest, batch.context->0->Buffer_0, now);
    }
    assert(on_encoded(client, rest, None, now) == inner);
    reveal_with_fuel(on_encoded, 2);
    if inner.events is None {
        assert(batch.events + Seq::<EventView>::empty() =~= batch.events);
        assert(client.batches.insert(name, batch) =~= client.batches);
    }
}

/// The answer to the question who somebody is, when it comes in a batch, is kept with the batch for
/// where it was asked.
pub proof fn law_answer_in_batch(
    client: ClientView,
    message: EncodedView,
    k: int,
    name: Seq<char>,
    now: Instant,
)
    requires
        only_mark(message, "batch"@, k),
        opt_text(message.tags[k].value) == Some(name),
        !(message.command is BATCH),
        client.batches.contains_key(name),
        client.batches[name].context is Some,
        client.batches[name].context->0 is Whois,
    ensures
        ({
            let batch = client.batches[name];
            let received = on_receive(client, message, now);
            &&& received.sent.len() == 0
            &&& received.events.len() == 0
            &&& received.client == ClientView {
                batches: client.batches.insert(
                    name,
                    BatchView {
                        context: batch.context,
                        events: batch.events.push(
                            EventView::WithTarget(
                                without_tag_at(message, k),
                                batch.context->0->Whois_0,
                            ),
                        ),
                    },
                ),
                reroute_responses_to: if is_last_answer(message.command) {
                    None
                } else {
                    client.reroute_responses_to
                },
                ..client
            }
        }),
{
    law_marks(message, k);
    let rest = without_tag_at(message, k);
    let batch = client.batches[name];
    lemma_without_mark(message, "batch"@, k);
    lemma_unmarked(rest);
    let inner = on_encoded(client, rest, batch.context, now);
    assert(inner == on_message(client, rest, batch.context, now));
    reveal_with_fuel(on_encoded, 2);
    let event = EventView::WithTarget(rest, batch.context->0->Whois_0);
    assert(batch.events + seq![event] =~= batch.events.push(event));
}

/// A batch begins empty, and answers what the label says that its beginning bears.
pub proof fn law_batch_begins(
    client: ClientView,
    message: EncodedView,
    name: Seq<char>,
    k: int,
    label: Seq<char>,
    now: Instant,
)
    requires
        message.command is BATCH,
        message.command->BATCH_0@ == seq!['+'] + name,
        unmarked(message) || (only_mark(message, "label"@, k) && opt_text(message.tags[k].value)
            == Some(label)),
    ensures
        ({
            let received = on_receive(client, message, now);
            let labeled = !unmarked(message);
            &&& received.sent.len() == 0
            &&& received.events.len() == 0
            &&& received.client == ClientView {
                labels: if labeled {
                    client.labels.remove(label)
                } else {
                    client.labels
                },
                batches: client.batches.insert(
                    name,
                    BatchView {
                        context: if labeled && client.labels.contains_key(label) {
                            Some(client.labels[label])
                        } else {
                            None
                        },
                        events: Seq::empty(),
                    },
                ),
                ..client
            }
        }),
{
    let reference = seq!['+'] + name;
    assert(reference[0] == '+');
    assert(reference.drop_first() =~= name);
    if unmarked(message) {
        lemma_unmarked(message);
    } else {
        law_marks(message, k);
    }
}

/// When a batch that is known ends, all that was kept with it is told, in order, and it is known no
/// more. The end of one that is not known comes to nothing.
pub proof fn law_batch_ends(client: ClientView, message: EncodedView, name: Seq<char>, now: Instant)
    requires
        unmarked(message),
        message.command is BATCH,
        message.command->BATCH_0@ == seq!['-'] + name,
    ensures
        on_receive(client, message, now) == (ReceivedView {
            client: ClientView { batches: client.batches.remove(name), ..client },
            sent: Seq::empty(),
            events: if client.batches.contains_key(name) {
                client.batches[name].events
            } else {
                Seq::empty()
            },
        }),
{
    let reference = seq!['-'] + name;
    assert(reference[0] == '-');
    assert(reference.drop_first() =~= name);
    lemma_unmarked(message);
    if !client.batches.contains_key(name) {
        assert(client.batches.remove(name) =~= client.batches);
    }
}

/// When a batch ends within another that is known, what was kept with it is kept with the other,
/// behind what came before; within one that is not known, it is told.
pub proof fn law_batch_ends_within(
    client: ClientView,
    message: EncodedView,
    k: int,
    outer: Seq<char>,
    name: Seq<char>,
    now: Instant,
)
    requires
        only_mark(message, "batch"@, k),
        opt_text(message.tags[k].value) == Some(outer),
        message.command is BATCH,
        message.command->BATCH_0@ == seq!['-'] + name,
        client.batches.contains_key(name),
        outer != name,
    ensures
        ({
            let kept = client.batches[name].events;
            let others = client.batches.remove(name);
            on_receive(client, message, now) == ReceivedView {
                client: ClientView {
                    batches: if others.contains_key(outer) {
                        others.insert(
                            outer,
                            BatchView {
                                context: others[outer].context,
                                events: others[outer].events + kept,
                            },
                        )
                    } else {
                        others
                    },
                    ..client
                },
                sent: Seq::empty(),
                events: if others.contains_key(outer) {
                    Seq::empty()
                } else {
                    kept
                },
            }
        }),
{
    let reference = seq!['-'] + name;
    assert(reference[0] == '-');
    assert(reference.drop_first() =~= name);
    law_marks(message, k);
}

/// A word about batches that neither begins nor ends one comes to nothing.
pub proof fn law_other_batch_words(client: ClientView, message: EncodedView, now: Instant)
    requires
        unmarked(message),
        message.command is BATCH,
        message.command->BATCH_0@.len() == 0 || (message.command->BATCH_0@[0] != '+'
            && message.command->BATCH_0@[0] != '-'),
    ensures
        on_receive(client, message, now) == (ReceivedView {
            client,
            sent: Seq::empty(),
            events: Seq::empty(),
        }),
{
    lemma_unmarked(message);
}

/// What a message answers is what it is known to answer already, and else what its label stands
/// for, and else what its batch answers; one of a message that is known to answer something already
/// is not used up.
pub proof fn law_what_is_answered(client: ClientView, tags: Seq<Tag>, parent: Option<Context>)
    ensures
        ({
            let label = tag_value(tags, "label"@);
            let batch = batch_of(tags);
            let labeled = label is Some && client.labels.contains_key(label->0);
            let batched = batch is Some && client.batches.contains_key(batch->0);
            &&& parent is Some ==> context_of(client, tags, parent) == parent && label_used(
                client,
                tags,
                parent,
            ) == client
            &&& parent is None && labeled ==> context_of(client, tags, parent) == Some(
                client.labels[label->0],
            )
            &&& parent is None && !labeled && batched ==> context_of(client, tags, parent)
                == client.batches[batch->0].context
            &&& parent is None && !labeled && !batched ==> context_of(client, tags, parent) is None
            &&& parent is None && label is Some ==> label_used(client, tags, parent) == (ClientView {
                labels: client.labels.remove(label->0),
                ..client
            })
            &&& label is None ==> label_used(client, tags, parent) == client
        }),
{
}

/// A message is looked into for what it lacks where it is a reply about a topic that names no
/// channel, or changes the topic of a known channel and comes from a user without a username; but
/// not where it is only passed on. Every other message can be received.
pub proof fn law_what_can_be_received(client: ClientView, message: EncodedView)
    requires
        unmarked(message),
    ensures
        misses(client, message, None) <==> (match message.command {
            Command::Numeric(Numeric::RPL_TOPIC, args) => args@.len() < 2
                && client.reroute_responses_to is None,
            Command::Numeric(Numeric::RPL_TOPICWHOTIME, args) => args@.len() < 2
                && client.reroute_responses_to is None,
            Command::TOPIC(channel, _) => client.chanmap.contains_key(channel@)
                && message.parsed.user is Some && message.parsed.user->0.username is None,
            _ => false,
        }),
{
    lemma_unmarked(message);
}

/// What was written for a buffer comes from that buffer.
pub proof fn law_origin(buffer: Buffer)
    ensures
        Context::Buffer(buffer).origin() == buffer,
        Context::Whois(buffer).origin() == buffer,
        match buffer {
            Buffer::Server(server) => buffer.of_server() == server@,
            Buffer::Channel(server, _) => buffer.of_server() == server@,
            Buffer::Query(server, _) => buffer.of_server() == server@,
        },
{
}

} // verus!
