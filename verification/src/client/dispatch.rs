//! What a client makes of the messages of a server.

use vstd::prelude::*;

use super::capability::{on_authenticate, on_cap};
use super::members::{lacks_parts, on_away, on_chghost, on_endofnames, on_invite, on_join, on_kick};
use super::members::{on_mode, on_namreply, on_nick, on_own_away, on_part, on_quit, on_rpl_topic};
use super::members::{on_topic, on_topicwhotime};
use super::session::{on_account, on_isupport, on_logged_in, on_logged_out, on_nick_refused};
use super::session::{on_nochanmodes, on_welcome};
use super::talk::{on_mononline, on_monoffline, on_text};
use super::who::{on_endofwho, on_whoreply, on_whospcrpl};
use super::{Batch, BatchView, Client, ClientView, Context, Outcome, OutcomeView, Outgoing};
use super::{outgoing_views, OutgoingView, Reply, Step};
use crate::event::{event_views, Event, EventView};
use crate::message::{Encoded, EncodedView, Parsed};
use crate::proto;
use crate::proto::{tag_value, without_tag, Command, Numeric, Tag};
use crate::text;
use crate::text::opt_text;
use crate::time::Instant;

verus! {

// ---------------------------------------------------------------------------
// One message by itself

/// What a client makes of a numeric reply.
#[verifier::opaque]
pub open spec fn on_numeric(
    client: ClientView,
    numeric: Numeric,
    args: Seq<String>,
    parsed: Parsed,
    now: Instant,
) -> Step {
    match numeric {
        Numeric::RPL_LOGGEDIN => on_logged_in(client, args),
        Numeric::RPL_LOGGEDOUT => on_logged_out(client),
        Numeric::ERR_NICKNAMEINUSE => on_nick_refused(client),
        Numeric::ERR_ERRONEUSNICKNAME => on_nick_refused(client),
        Numeric::RPL_WELCOME => on_welcome(client, args),
        Numeric::RPL_WHOREPLY => on_whoreply(client, args),
        Numeric::RPL_WHOSPCRPL => on_whospcrpl(client, args, parsed),
        Numeric::RPL_ENDOFWHO => on_endofwho(client, args, now),
        Numeric::RPL_UNAWAY => on_own_away(client, false, args, parsed),
        Numeric::RPL_NOWAWAY => on_own_away(client, true, args, parsed),
        Numeric::RPL_NAMREPLY => on_namreply(client, args, parsed),
        Numeric::RPL_ENDOFNAMES => on_endofnames(client, args),
        Numeric::RPL_TOPIC => on_rpl_topic(client, args),
        Numeric::RPL_TOPICWHOTIME => on_topicwhotime(client, args),
        Numeric::ERR_NOCHANMODES => on_nochanmodes(client, args),
        Numeric::RPL_ISUPPORT => on_isupport(client, parsed.isupport@, 0),
        Numeric::RPL_MONONLINE => on_mononline(client, args, parsed),
        Numeric::RPL_MONOFFLINE => on_monoffline(client, args),
        Numeric::RPL_ENDOFMONLIST => Step::nothing(client),
        _ => Step::shown(client),
    }
}

/// What a client makes of a message by itself. `answered` is whether the message answers one that
/// this client sent from a buffer.
#[verifier::opaque]
pub open spec fn on_command(
    client: ClientView,
    command: Command,
    parsed: Parsed,
    answered: bool,
    now: Instant,
) -> Step {
    match command {
        Command::CAP(_, sub, a, b) => on_cap(client, sub@, opt_text(a), opt_text(b)),
        Command::AUTHENTICATE(param) => on_authenticate(client, param@),
        Command::Numeric(numeric, args) => on_numeric(client, numeric, args@, parsed, now),
        Command::PRIVMSG(target, _) => on_text(client, target@, true, parsed, answered),
        Command::NOTICE(target, _) => on_text(client, target@, false, parsed, answered),
        Command::INVITE(nick, channel) => on_invite(client, nick@, channel@, parsed),
        Command::NICK(nick) => on_nick(client, nick@, parsed),
        Command::QUIT(comment) => on_quit(client, opt_text(comment), parsed),
        Command::PART(channel, _) => on_part(client, channel@, parsed),
        Command::JOIN(channel, accountname) => on_join(
            client,
            channel@,
            opt_text(accountname),
            parsed,
            now,
        ),
        Command::KICK(channel, victim, _) => on_kick(client, channel@, victim@),
        Command::AWAY(reason) => on_away(client, reason is Some, parsed),
        Command::MODE(target, Some(_), Some(_)) => on_mode(client, target@, parsed),
        Command::TOPIC(channel, topic) => on_topic(client, channel@, topic, parsed),
        Command::TAGMSG(_) => Step::nothing(client),
        Command::ACCOUNT(accountname) => on_account(client, accountname@, parsed),
        Command::CHGHOST(username, hostname) => on_chghost(client, username@, hostname@, parsed),
        _ => Step::shown(client),
    }
}

/// What a message means, once it is clear what becomes of it.
pub open spec fn meaning(outcome: OutcomeView, message: EncodedView) -> Option<Seq<EventView>> {
    match outcome {
        OutcomeView::Nothing => None,
        OutcomeView::Events(events) => Some(events),
        OutcomeView::Notify(notification) => Some(
            seq![EventView::Notification(message, notification)],
        ),
        OutcomeView::Shown(events) => Some(events.push(EventView::Single(message))),
    }
}

impl Client {
    /// Takes in a numeric reply.
    fn numeric(&mut self, numeric: Numeric, args: &Vec<String>, parsed: &Parsed, now: Instant) -> (reply:
        Reply)
        requires
            numeric is RPL_TOPIC || numeric is RPL_TOPICWHOTIME ==> args@.len() >= 2,
        ensures
            (Step { client: final(self)@, reply: reply@ }) == on_numeric(
                old(self)@,
                numeric,
                args@,
                *parsed,
                now,
            ),
    {
        reveal(on_numeric);
        match numeric {
            Numeric::RPL_LOGGEDIN => self.logged_in(args),
            Numeric::RPL_LOGGEDOUT => self.logged_out(),
            Numeric::ERR_NICKNAMEINUSE => self.nick_refused(),
            Numeric::ERR_ERRONEUSNICKNAME => self.nick_refused(),
            Numeric::RPL_WELCOME => self.welcome(args),
            Numeric::RPL_WHOREPLY => self.who_reply(args),
            Numeric::RPL_WHOSPCRPL => self.who_special_reply(args, parsed),
            Numeric::RPL_ENDOFWHO => self.end_of_who(args, now),
            Numeric::RPL_UNAWAY => self.own_away(false, args, parsed),
            Numeric::RPL_NOWAWAY => self.own_away(true, args, parsed),
            Numeric::RPL_NAMREPLY => self.names(args, parsed),
            Numeric::RPL_ENDOFNAMES => self.end_of_names(args),
            Numeric::RPL_TOPIC => self.topic_told(args),
            Numeric::RPL_TOPICWHOTIME => self.topic_author_told(args),
            Numeric::ERR_NOCHANMODES => self.no_channel_modes(args),
            Numeric::RPL_ISUPPORT => self.supported(&parsed.isupport),
            Numeric::RPL_MONONLINE => self.came_online(args, parsed),
            Numeric::RPL_MONOFFLINE => self.went_offline(args),
            Numeric::RPL_ENDOFMONLIST => Reply::nothing(),
            _ => Reply::shown(),
        }
    }

    /// Takes in a message by itself.
    fn command(&mut self, command: &Command, parsed: &Parsed, answered: bool, now: Instant) -> (reply:
        Reply)
        requires
            !lacks_parts(old(self)@, *command, *parsed),
        ensures
            (Step { client: final(self)@, reply: reply@ }) == on_command(
                old(self)@,
                *command,
                *parsed,
                answered,
                now,
            ),
    {
        reveal(on_command);
        match command {
            Command::CAP(_, sub, a, b) => self.cap(sub.as_str(), a, b),
            Command::AUTHENTICATE(param) => self.authenticate(param.as_str()),
            Command::Numeric(numeric, args) => self.numeric(*numeric, args, parsed, now),
            Command::PRIVMSG(target, _) => self.text(target, true, parsed, answered),
            Command::NOTICE(target, _) => self.text(target, false, parsed, answered),
            Command::INVITE(nick, channel) => self.invite(nick, channel, parsed),
            Command::NICK(nick) => self.nick(nick, parsed),
            Command::QUIT(comment) => self.quit(comment, parsed),
            Command::PART(channel, _) => self.part(channel, parsed),
            Command::JOIN(channel, accountname) => self.join(channel, accountname, parsed, now),
            Command::KICK(channel, victim, _) => self.kick(channel, victim),
            Command::AWAY(reason) => self.away(reason.is_some(), parsed),
            Command::MODE(target, Some(_), Some(_)) => self.mode(target, parsed),
            Command::TOPIC(channel, topic) => self.topic(channel, topic, parsed),
            Command::TAGMSG(_) => Reply::nothing(),
            Command::ACCOUNT(accountname) => self.account(accountname, parsed),
            Command::CHGHOST(username, hostname) => self.change_host(username, hostname, parsed),
            _ => Reply::shown(),
        }
    }
}

/// What a message means, once it is clear what becomes of it.
fn finish(outcome: Outcome, message: Encoded) -> (events: Option<Vec<Event>>)
    ensures
        match events {
            Some(events) => meaning(outcome@, message@) == Some(event_views(events@)),
            None => meaning(outcome@, message@) is None,
        },
{
    match outcome {
        Outcome::Nothing => None,
        Outcome::Events(events) => Some(events),
        Outcome::Notify(notification) => {
            let mut events: Vec<Event> = Vec::new();
            let ghost event = EventView::Notification(message@, notification@);
            events.push(Event::Notification(message, notification));
            assert(event_views(events@) =~= seq![event]);
            Some(events)
        },
        Outcome::Shown(events) => {
            let mut events = events;
            let ghost before = event_views(events@);
            let ghost event = EventView::Single(message@);
            events.push(Event::Single(message));
            assert(event_views(events@) =~= before.push(event));
            Some(events)
        },
    }
}

// ---------------------------------------------------------------------------
// Labels and batches

/// What a message answers: what it is known to answer already, or else what the label says, or
/// else what the batch says that it belongs to.
pub open spec fn context_of(
    client: ClientView,
    tags: Seq<Tag>,
    parent: Option<Context>,
) -> Option<Context> {
    let label = tag_value(tags, "label"@);
    let batch = tag_value(without_tag(tags, "label"@), "batch"@);
    if parent is Some {
        parent
    } else if label is Some && client.labels.contains_key(label->0) {
        Some(client.labels[label->0])
    } else if batch is Some && client.batches.contains_key(batch->0) {
        client.batches[batch->0].context
    } else {
        None
    }
}

/// The client once it is clear what a message answers: a label counts for one answer.
pub open spec fn label_used(client: ClientView, tags: Seq<Tag>, parent: Option<Context>) -> ClientView {
    let label = tag_value(tags, "label"@);
    if parent is None && label is Some {
        ClientView { labels: client.labels.remove(label->0), ..client }
    } else {
        client
    }
}

/// The batch that a message belongs to.
pub open spec fn batch_of(tags: Seq<Tag>) -> Option<Seq<char>> {
    tag_value(without_tag(tags, "label"@), "batch"@)
}

/// The tags that are left of a message.
pub open spec fn other_tags(tags: Seq<Tag>) -> Seq<Tag> {
    without_tag(without_tag(tags, "label"@), "batch"@)
}

/// What a client knows after a message, what it sends, and what the message means.
#[verifier::ext_equal]
pub struct HandledView {
    pub client: ClientView,
    pub sent: Seq<OutgoingView>,
    pub events: Option<Seq<EventView>>,
}

impl HandledView {
    /// Nothing is sent.
    pub open spec fn silent(client: ClientView, events: Option<Seq<EventView>>) -> HandledView {
        HandledView { client, sent: Seq::empty(), events }
    }
}

/// The client with more events in a batch.
pub open spec fn with_events(client: ClientView, batch: Seq<char>, events: Seq<EventView>) -> ClientView {
    let known = client.batches[batch];
    ClientView {
        batches: client.batches.insert(
            batch,
            BatchView { events: known.events + events, ..known },
        ),
        ..client
    }
}

/// A batch begins or ends. What its messages mean is told when it ends, unless it is within
/// another batch, which then tells it.
pub open spec fn on_batch(
    client: ClientView,
    reference: Seq<char>,
    context: Option<Context>,
    parent: Option<Seq<char>>,
) -> HandledView {
    if reference.len() > 0 && reference[0] == '+' {
        HandledView::silent(
            ClientView {
                batches: client.batches.insert(
                    reference.drop_first(),
                    BatchView { context, events: Seq::empty() },
                ),
                ..client
            },
            None,
        )
    } else if reference.len() > 0 && reference[0] == '-' && client.batches.contains_key(
        reference.drop_first(),
    ) {
        let finished = client.batches[reference.drop_first()];
        let client = ClientView {
            batches: client.batches.remove(reference.drop_first()),
            ..client
        };
        if parent is Some && client.batches.contains_key(parent->0) {
            HandledView::silent(with_events(client, parent->0, finished.events), None)
        } else {
            HandledView::silent(client, Some(finished.events))
        }
    } else {
        HandledView::silent(client, None)
    }
}

/// What a client makes of a message whose tags are read: an answer to the question who somebody is
/// goes to where it was asked, and other answers to where answers are shown.
pub open spec fn on_message(
    client: ClientView,
    message: EncodedView,
    context: Option<Context>,
    now: Instant,
) -> HandledView {
    if context is Some && context->0 is Whois {
        HandledView::silent(
            client,
            Some(seq![EventView::WithTarget(message, context->0.origin())]),
        )
    } else if (message.command is Numeric || message.command is Unknown)
        && client.reroute_responses_to is Some {
        HandledView::silent(
            client,
            Some(seq![EventView::WithTarget(message, client.reroute_responses_to->0)]),
        )
    } else {
        let step = on_command(client, message.command, message.parsed, context is Some, now);
        HandledView {
            client: step.client,
            sent: step.reply.sent,
            events: meaning(step.reply.outcome, message),
        }
    }
}

/// What a client makes of a message. `parent` is what the message is known to answer already.
pub open spec fn on_encoded(
    client: ClientView,
    message: EncodedView,
    parent: Option<Context>,
    now: Instant,
) -> HandledView
    decreases message.tags.len(),
{
    let context = context_of(client, message.tags, parent);
    let batch = batch_of(message.tags);
    let client = label_used(client, message.tags, parent);
    let bare = EncodedView { tags: other_tags(message.tags), ..message };
    match message.command {
        Command::BATCH(reference, _) => on_batch(client, reference@, context, batch),
        _ => if batch is Some {
            proof {
                lemma_other_tags(message.tags);
            }
            let inner = on_encoded(client, bare, context, now);
            if inner.events is Some && inner.client.batches.contains_key(batch->0) {
                HandledView {
                    client: with_events(inner.client, batch->0, inner.events->0),
                    events: None,
                    ..inner
                }
            } else {
                inner
            }
        } else {
            on_message(client, bare, context, now)
        },
    }
}

/// A message that belongs to a batch has fewer tags once they are read.
pub proof fn lemma_other_tags(tags: Seq<Tag>)
    ensures
        other_tags(tags).len() <= tags.len(),
        batch_of(tags) is Some ==> other_tags(tags).len() < tags.len(),
{
    let rest = without_tag(tags, "label"@);
    if proto::has_tag(tags, "label"@) {
        proto::lemma_has_tag(tags, "label"@);
    }
    if proto::has_tag(rest, "batch"@) {
        proto::lemma_has_tag(rest, "batch"@);
    }
}

/// What a message turns out to answer, once all its tags are read.
pub open spec fn answers_to(client: ClientView, tags: Seq<Tag>, parent: Option<Context>) -> Option<
    Context,
>
    decreases tags.len(),
{
    let context = context_of(client, tags, parent);
    if batch_of(tags) is Some {
        proof {
            lemma_other_tags(tags);
        }
        answers_to(label_used(client, tags, parent), other_tags(tags), context)
    } else {
        context
    }
}

/// Whether a client would look into a message for what the message lacks. It does not look into
/// one that it only passes on.
pub open spec fn misses(client: ClientView, message: EncodedView, parent: Option<Context>) -> bool {
    let context = answers_to(client, message.tags, parent);
    &&& lacks_parts(client, message.command, message.parsed)
    &&& !(context is Some && context->0 is Whois)
    &&& !(message.command is Numeric && client.reroute_responses_to is Some)
}

/// What a client does about a message: what it sends, and what the message means, if anything.
#[derive(Debug)]
pub struct Handled {
    pub sent: Vec<Outgoing>,
    pub events: Option<Vec<Event>>,
}

/// What optional events hold.
pub open spec fn opt_event_views(events: Option<Vec<Event>>) -> Option<Seq<EventView>> {
    match events {
        Some(events) => Some(event_views(events@)),
        None => None,
    }
}

impl Handled {
    /// Together with what the client knows then, what it does about a message.
    pub open spec fn with(self, client: ClientView) -> HandledView {
        HandledView {
            client,
            sent: outgoing_views(self.sent@),
            events: opt_event_views(self.events),
        }
    }

    /// Nothing is sent.
    fn silent(events: Option<Vec<Event>>) -> (handled: Handled)
        ensures
            outgoing_views(handled.sent@) == Seq::<OutgoingView>::empty(),
            handled.events == events,
    {
        let sent: Vec<Outgoing> = Vec::new();
        assert(outgoing_views(sent@) =~= Seq::<OutgoingView>::empty());
        Handled { sent, events }
    }

    /// Nothing is sent, and the message is shown in a buffer.
    fn shown_in(message: Encoded, buffer: crate::buffer::Buffer) -> (handled: Handled)
        ensures
            outgoing_views(handled.sent@) == Seq::<OutgoingView>::empty(),
            opt_event_views(handled.events) == Some(
                seq![EventView::WithTarget(message@, buffer)],
            ),
    {
        let mut events: Vec<Event> = Vec::new();
        let ghost event = EventView::WithTarget(message@, buffer);
        events.push(Event::WithTarget(message, buffer));
        assert(event_views(events@) =~= seq![event]);
        Handled::silent(Some(events))
    }
}

impl Batch {
    /// Adds events to a batch.
    fn extend(&mut self, events: Vec<Event>)
        ensures
            final(self)@ == (BatchView {
                events: old(self)@.events + event_views(events@),
                ..old(self)@
            }),
    {
        let mut events = events;
        let ghost more = events@;
        self.events.append(&mut events);
        assert(event_views(self.events@) =~= event_views(old(self).events@) + event_views(more));
    }
}

impl Client {
    /// Finds out what a message answers. A label counts for one answer.
    fn take_context(&mut self, label: Option<String>, batch: &Option<String>, parent: Option<Context>) -> (context:
        Option<Context>)
        ensures
            final(self)@ == (if parent is None && label is Some {
                ClientView { labels: old(self)@.labels.remove(label->0@), ..old(self)@ }
            } else {
                old(self)@
            }),
            context == (if parent is Some {
                parent
            } else if label is Some && old(self)@.labels.contains_key(label->0@) {
                Some(old(self)@.labels[label->0@])
            } else if batch is Some && old(self)@.batches.contains_key(batch->0@) {
                old(self)@.batches[batch->0@].context
            } else {
                None
            }),
    {
        if parent.is_some() {
            return parent;
        }
        if let Some(label) = label {
            if let Some(context) = self.labels.remove(label.as_str()) {
                return Some(context);
            }
            assert(self@.labels =~= old(self)@.labels.remove(label@));
        }
        if let Some(batch) = batch {
            if let Some(batch) = self.batches.get(batch.as_str()) {
                return match &batch.context {
                    Some(context) => Some(context.clone()),
                    None => None,
                };
            }
        }
        None
    }

    /// Adds events to a batch, if it is known; else gives them back.
    fn collect(&mut self, batch: &str, events: Vec<Event>) -> (left: Option<Vec<Event>>)
        ensures
            if old(self)@.batches.contains_key(batch@) {
                &&& left is None
                &&& final(self)@ == with_events(old(self)@, batch@, event_views(events@))
            } else {
                &&& left == Some(events)
                &&& final(self)@ == old(self)@
            },
    {
        match self.batches.get_mut(batch) {
            Some(batch) => {
                batch.extend(events);
                None
            },
            None => Some(events),
        }
    }

    /// Takes in that a batch begins or ends.
    fn batch(&mut self, reference: &str, context: Option<Context>, parent: Option<String>) -> (handled:
        Handled)
        ensures
            handled.with(final(self)@) == on_batch(
                old(self)@,
                reference@,
                context,
                opt_text(parent),
            ),
    {
        match text::first_char(reference) {
            Some('+') => {
                let name = text::after_first(reference);
                let _ = self.batches.insert(name, Batch::new(context));
                Handled::silent(None)
            },
            Some('-') => {
                let name = text::after_first(reference);
                match self.batches.remove(name.as_str()) {
                    Some(finished) => match parent {
                        Some(parent) => {
                            let left = self.collect(parent.as_str(), finished.events);
                            Handled::silent(left)
                        },
                        None => Handled::silent(Some(finished.events)),
                    },
                    None => Handled::silent(None),
                }
            },
            _ => Handled::silent(None),
        }
    }

    /// Takes in a message whose tags are read.
    fn bare_message(&mut self, message: Encoded, context: Option<Context>, now: Instant) -> (handled:
        Handled)
        requires
            lacks_parts(old(self)@, message.command, message.parsed) ==> (context is Some
                && context->0 is Whois) || message.command is Numeric
                && old(self)@.reroute_responses_to is Some,
        ensures
            handled.with(final(self)@) == on_message(old(self)@, message@, context, now),
    {
        let answered = context.is_some();
        if let Some(context) = context {
            if context.is_whois() {
                return Handled::shown_in(message, context.buffer());
            }
        }
        if matches!(&message.command, Command::Numeric(_, _) | Command::Unknown(_, _)) {
            if let Some(buffer) = &self.reroute_responses_to {
                let buffer = buffer.clone();
                return Handled::shown_in(message, buffer);
            }
        }
        let Reply { sent, outcome } = self.command(
            &message.command,
            &message.parsed,
            answered,
            now,
        );
        Handled { sent, events: finish(outcome, message) }
    }

    /// Takes in a message. `parent` is what the message is known to answer already.
    pub fn handle(&mut self, message: Encoded, parent: Option<Context>, now: Instant) -> (handled: Handled)
        requires
            !misses(old(self)@, message@, parent),
        ensures
            handled.with(final(self)@) == on_encoded(old(self)@, message@, parent, now),
        decreases message.tags@.len(),
    {
        let ghost whole = message@;
        let Encoded { mut tags, command, parsed } = message;
        let label_tag = proto::remove_tag("label", &mut tags);
        let batch_tag = proto::remove_tag("batch", &mut tags);
        proof {
            lemma_other_tags(whole.tags);
        }
        let context = self.take_context(label_tag, &batch_tag, parent);
        assert(self@ == label_used(old(self)@, whole.tags, parent));
        if let Command::BATCH(reference, _) = &command {
            return self.batch(reference.as_str(), context, batch_tag);
        }
        let bare = Encoded { tags, command, parsed };
        match batch_tag {
            Some(batch) => {
                let Handled { sent, events } = self.handle(bare, context, now);
                match events {
                    Some(events) => {
                        let events = self.collect(batch.as_str(), events);
                        Handled { sent, events }
                    },
                    None => Handled { sent, events: None },
                }
            },
            None => self.bare_message(bare, context, now),
        }
    }
}

} // verus!
