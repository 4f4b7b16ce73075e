//! Beginning a session, sending and receiving.

use vstd::prelude::*;

use super::dispatch::{answers_to, batch_of, label_used, misses, on_encoded, other_tags};
use super::dispatch::Handled;
use super::{outgoing_views, Client, ClientView, Context, Environment, HighlightBlackout};
use super::{Outgoing, OutgoingView, RegistrationStep};
use crate::buffer::{Buffer, Server};
use crate::config;
use crate::event::{event_views, Event, EventView};
use crate::handle::{Handle, HandleView};
use crate::message::{Encoded, EncodedView};
use crate::number;
use crate::number::numeral;
use crate::proto;
use crate::proto::{message_views, names_channel, Command, CommandView, Message, MessageView};
use crate::proto::{Numeric, Tag, TagView};
use crate::sender::Sender;
use crate::string_map::StringMap;
use crate::time::{Clock, Instant, Posix};

verus! {

// ---------------------------------------------------------------------------
// Beginning

/// What begins a session: the question what the server supports, and who this client is.
pub open spec fn opening(config: config::ServerView) -> Seq<MessageView> {
    let hello = seq![MessageView::plain(Command::CAP(None, "LS"@, Some("302"@), None))];
    let password = match config.password {
        Some(password) => seq![MessageView::plain(Command::PASS(password))],
        None => Seq::empty(),
    };
    let user = match config.username {
        Some(username) => username,
        None => config.nickname,
    };
    let real_name = match config.realname {
        Some(realname) => realname,
        None => config.nickname,
    };
    hello + password + seq![
        MessageView::plain(Command::NICK(config.nickname)),
        MessageView::plain(Command::USER(user, real_name)),
    ]
}

/// A client that has just begun.
pub open spec fn beginning(
    server: Server,
    config: config::ServerView,
    queue: int,
    environment: Environment,
    now: Instant,
) -> ClientView {
    ClientView {
        server,
        config,
        queue,
        environment,
        alt_nick: None,
        resolved_nick: None,
        chanmap: Map::empty(),
        labels: Map::empty(),
        batches: Map::empty(),
        reroute_responses_to: None,
        registration_step: RegistrationStep::List,
        listed_caps: Seq::empty(),
        supports_labels: false,
        supports_away_notify: false,
        supports_account_notify: false,
        supports_extended_join: false,
        highlight_blackout: HighlightBlackout::Blackout(now),
        registration_required_channels: Seq::empty(),
        isupport: Map::empty(),
    }
}

/// What a handle holds on a client that has just begun: it asks through the queue of the client.
pub open spec fn first_handle(handle: HandleView, config: config::ServerView, queue: int) -> bool {
    &&& handle.sender.queue == queue
    &&& handle.config == config
    &&& handle.resolved_nick is None
    &&& handle.chanmap == Map::<Seq<char>, crate::channel::ChannelView>::empty()
    &&& handle.isupport == Map::<Seq<char>, crate::isupport::Parameter>::empty()
}

/// What begins a session.
fn open_session(server_config: &config::Server) -> (messages: Vec<Message>)
    ensures
        message_views(messages@) == opening(server_config@),
{
    let nick = &server_config.nickname;
    let user = match &server_config.username {
        Some(username) => username,
        None => nick,
    };
    let real_name = match &server_config.realname {
        Some(realname) => realname,
        None => nick,
    };
    let mut messages: Vec<Message> = Vec::new();
    messages.push(
        Message::plain(Command::CAP(None, "LS".to_owned(), Some("302".to_owned()), None)),
    );
    if let Some(password) = &server_config.password {
        messages.push(Message::plain(Command::PASS(password.clone())));
    }
    messages.push(Message::plain(Command::NICK(nick.clone())));
    messages.push(Message::plain(Command::USER(user.clone(), real_name.clone())));
    assert(message_views(messages@) =~= opening(server_config@));
    messages
}

impl Client {
    /// Begins a session by a clock that was read: the client, a handle on it, and what is to be
    /// sent.
    pub fn new_at(
        server: Server,
        server_config: config::Server,
        sender: Sender,
        environment: Environment,
        clock: Clock,
        now: Instant,
    ) -> (res: (Client, Handle, Vec<Message>))
        ensures
            res.0@ == beginning(server, server_config@, sender@.queue, environment, now),
            first_handle(res.1@, server_config@, sender@.queue),
            message_views(res.2@) == opening(server_config@),
    {
        let messages = open_session(&server_config);
        let handle = Handle::new(sender.clone(), server_config.clone());
        let client = Client {
            server,
            server_config,
            sender,
            environment,
            clock,
            alt_nick: None,
            resolved_nick: None,
            chanmap: StringMap::new(),
            labels: StringMap::new(),
            batches: StringMap::new(),
            reroute_responses_to: None,
            registration_step: RegistrationStep::List,
            listed_caps: Vec::new(),
            supports_labels: false,
            supports_away_notify: false,
            supports_account_notify: false,
            supports_extended_join: false,
            highlight_blackout: HighlightBlackout::Blackout(now),
            registration_required_channels: Vec::new(),
            isupport: StringMap::new(),
        };
        assert(client@ =~= beginning(server, server_config@, sender@.queue, environment, now));
        (client, handle, messages)
    }

    /// Begins a session: the client, a handle on it, and what is to be sent.
    pub fn new(
        server: Server,
        server_config: config::Server,
        sender: Sender,
        environment: Environment,
    ) -> (res: (Client, Handle, Vec<Message>))
        ensures
            exists|now: Instant|
                res.0@ == #[trigger] beginning(server, server_config@, sender@.queue, environment, now),
            first_handle(res.1@, server_config@, sender@.queue),
            message_views(res.2@) == opening(server_config@),
    {
        let clock = Clock::start();
        let now = clock.now();
        Client::new_at(server, server_config, sender, environment, clock, now)
    }
}

// ---------------------------------------------------------------------------
// Sending

/// A label for a message: the present time.
pub fn generate_label() -> (label: String)
    ensures
        exists|nanos: u128| label@ == #[trigger] numeral(nanos as nat),
{
    let nanos: u128 = Posix::now().as_nanos();
    number::to_numeral(nanos)
}

/// Whether the answers to a command are shown where it was written.
pub open spec fn starts_reroute(command: CommandView) -> bool {
    match command {
        Command::MODE(target, _, _) => !names_channel(target),
        _ => command is WHO || command is WHOIS || command is WHOWAS,
    }
}

/// Whether the answers to a command are shown where it was written.
pub fn start_reroute(command: &Command) -> (res: bool)
    ensures
        res == starts_reroute(command@),
{
    match command {
        Command::MODE(target, _, _) => !proto::is_channel(target.as_str()),
        Command::WHO(_, _, _) => true,
        Command::WHOIS(_, _) => true,
        Command::WHOWAS(_, _) => true,
        _ => false,
    }
}

/// A message with a label.
pub open spec fn labeled(message: MessageView, label: Seq<char>) -> MessageView {
    MessageView { tags: seq![TagView { key: "label"@, value: Some(label) }], ..message }
}

/// What a client sends for a message.
pub open spec fn sent_for(
    client: ClientView,
    message: MessageView,
    buffer: Option<Buffer>,
    label: Seq<char>,
) -> MessageView {
    if buffer is Some && client.supports_labels {
        labeled(message, label)
    } else {
        message
    }
}

/// What a client knows after it has sent a message. Where answers are labeled, it remembers what
/// the message was written for.
pub open spec fn after_sending(
    client: ClientView,
    message: MessageView,
    buffer: Option<Buffer>,
    label: Seq<char>,
) -> ClientView {
    match buffer {
        None => client,
        Some(buffer) => ClientView {
            labels: if client.supports_labels {
                client.labels.insert(label, Context::of(message.command, buffer))
            } else {
                client.labels
            },
            reroute_responses_to: if starts_reroute(message.command) {
                Some(buffer)
            } else {
                None
            },
            ..client
        },
    }
}

impl Client {
    /// Sends a message, under a label where answers are labeled; gives back what is to be sent.
    pub fn send_with_label(&mut self, message: Message, buffer: Option<Buffer>, label: String) -> (sent:
        Message)
        ensures
            sent@ == sent_for(old(self)@, message@, buffer, label@),
            final(self)@ == after_sending(old(self)@, message@, buffer, label@),
    {
        let mut message = message;
        if let Some(buffer) = buffer {
            let starts = start_reroute(&message.command);
            if self.supports_labels {
                let context = Context::new(&message, buffer.clone());
                let _ = self.labels.insert(label.clone(), context);
                let ghost name = label@;
                let mut tags: Vec<Tag> = Vec::new();
                tags.push(Tag { key: "label".to_owned(), value: Some(label) });
                assert(proto::tag_views(tags@) =~= seq![
                    TagView { key: "label"@, value: Some(name) },
                ]);
                message.tags = tags;
            }
            self.reroute_responses_to = if starts {
                Some(buffer)
            } else {
                None
            };
        }
        message
    }

    /// Sends a message that was written from a buffer, if any; gives back what is to be sent.
    pub fn send(&mut self, message: Message, buffer: Option<Buffer>) -> (sent: Message)
        ensures
            exists|nanos: u128|
                {
                    &&& sent@ == sent_for(
                        old(self)@,
                        message@,
                        buffer,
                        #[trigger] numeral(nanos as nat),
                    )
                    &&& final(self)@ == after_sending(
                        old(self)@,
                        message@,
                        buffer,
                        numeral(nanos as nat),
                    )
                },
    {
        let label = generate_label();
        self.send_with_label(message, buffer, label)
    }
}

// ---------------------------------------------------------------------------
// Receiving

/// Whether a message is the last answer to a command.
pub open spec fn stops_reroute(command: Command) -> bool {
    match command {
        Command::Numeric(numeric, _) => {
            ||| numeric is RPL_ENDOFWHO
            ||| numeric is RPL_ENDOFWHOIS
            ||| numeric is RPL_ENDOFWHOWAS
            ||| numeric is ERR_NOSUCHNICK
            ||| numeric is ERR_NOSUCHSERVER
            ||| numeric is ERR_NONICKNAMEGIVEN
            ||| numeric is ERR_WASNOSUCHNICK
            ||| numeric is ERR_NEEDMOREPARAMS
            ||| numeric is ERR_USERSDONTMATCH
            ||| numeric is RPL_UMODEIS
            ||| numeric is ERR_UMODEUNKNOWNFLAG
        },
        _ => false,
    }
}

/// Whether a message is the last answer to a command.
pub fn stop_reroute(command: &Command) -> (res: bool)
    ensures
        res == stops_reroute(*command),
{
    match command {
        Command::Numeric(numeric, _) => matches!(
            numeric,
            Numeric::RPL_ENDOFWHO
                | Numeric::RPL_ENDOFWHOIS
                | Numeric::RPL_ENDOFWHOWAS
                | Numeric::ERR_NOSUCHNICK
                | Numeric::ERR_NOSUCHSERVER
                | Numeric::ERR_NONICKNAMEGIVEN
                | Numeric::ERR_WASNOSUCHNICK
                | Numeric::ERR_NEEDMOREPARAMS
                | Numeric::ERR_USERSDONTMATCH
                | Numeric::RPL_UMODEIS
                | Numeric::ERR_UMODEUNKNOWNFLAG
        ),
        _ => false,
    }
}

/// What a client does about a message: what it sends, and what the message means.
#[derive(Debug)]
pub struct Received {
    pub sent: Vec<Outgoing>,
    pub events: Vec<Event>,
}

/// What a client knows after a message, what it sends, and what the message means.
#[verifier::ext_equal]
pub struct ReceivedView {
    pub client: ClientView,
    pub sent: Seq<OutgoingView>,
    pub events: Seq<EventView>,
}

impl Received {
    /// Together with what the client knows then, what it does about a message.
    pub open spec fn with(self, client: ClientView) -> ReceivedView {
        ReceivedView {
            client,
            sent: outgoing_views(self.sent@),
            events: event_views(self.events@),
        }
    }
}

/// What a client makes of a message that it receives. After the last answer, answers are no longer
/// shown where a command was written.
pub open spec fn on_receive(client: ClientView, message: EncodedView, now: Instant) -> ReceivedView {
    let handled = on_encoded(client, message, None, now);
    ReceivedView {
        client: if stops_reroute(message.command) {
            ClientView { reroute_responses_to: None, ..handled.client }
        } else {
            handled.client
        },
        sent: handled.sent,
        events: match handled.events {
            Some(events) => events,
            None => Seq::empty(),
        },
    }
}

/// What is known to be answered stays known.
proof fn lemma_known_answer(client: ClientView, tags: Seq<Tag>, context: Context)
    ensures
        answers_to(client, tags, Some(context)) == Some(context),
    decreases tags.len(),
{
    if batch_of(tags) is Some {
        super::dispatch::lemma_other_tags(tags);
        lemma_known_answer(label_used(client, tags, Some(context)), other_tags(tags), context);
    }
}

impl Client {
    /// What a message turns out to answer.
    fn final_context(&self, message: &Encoded) -> (context: Option<Context>)
        ensures
            context == answers_to(self@, message.tags@, None),
    {
        let mut tags: Vec<Tag> = Vec::new();
        for i in 0..message.tags.len()
            invariant
                tags@ == message.tags@.take(i as int),
        {
            tags.push(message.tags[i].clone());
            assert(message.tags@.take(i + 1) =~= message.tags@.take(i as int).push(
                message.tags@[i as int],
            ));
        }
        assert(tags@ =~= message.tags@);
        loop
            invariant
                answers_to(self@, message.tags@, None) == answers_to(self@, tags@, None),
            decreases tags@.len(),
        {
            let ghost before = tags@;
            let label = proto::remove_tag("label", &mut tags);
            let batch = proto::remove_tag("batch", &mut tags);
            proof {
                super::dispatch::lemma_other_tags(before);
            }
            if let Some(label) = &label {
                if let Some(context) = self.labels.get(label.as_str()) {
                    proof {
                        lemma_known_answer(
                            label_used(self@, before, None),
                            other_tags(before),
                            *context,
                        );
                    }
                    return Some(context.clone());
                }
                assert(label_used(self@, before, None) =~= self@);
            }
            match &batch {
                Some(batch) => {
                    if let Some(batch) = self.batches.get(batch.as_str()) {
                        if let Some(context) = &batch.context {
                            proof {
                                lemma_known_answer(
                                    label_used(self@, before, None),
                                    other_tags(before),
                                    *context,
                                );
                            }
                            return Some(context.clone());
                        }
                    }
                },
                None => return None,
            }
        }
    }

    /// Whether a message has all that this client looks for in it. One about a topic may lack the
    /// channel, or the username of whoever changed the topic.
    pub fn accepts(&self, message: &Encoded) -> (res: bool)
        ensures
            res == !misses(self@, message@, None),
    {
        let lacks = match &message.command {
            Command::Numeric(Numeric::RPL_TOPIC, args) => args.len() < 2,
            Command::Numeric(Numeric::RPL_TOPICWHOTIME, args) => args.len() < 2,
            Command::TOPIC(channel, _) => match &message.parsed.user {
                Some(user) => user.username.is_none() && self.chanmap.contains_key(
                    channel.as_str(),
                ),
                None => false,
            },
            _ => false,
        };
        if !lacks {
            return true;
        }
        if matches!(&message.command, Command::Numeric(_, _)) && self.reroute_responses_to.is_some() {
            return true;
        }
        match self.final_context(message) {
            Some(context) => context.is_whois(),
            None => false,
        }
    }

    /// Takes in a message at a time; gives back what is to be sent, and what the message means.
    pub fn receive_at(&mut self, message: Encoded, now: Instant) -> (received: Received)
        requires
            !misses(old(self)@, message@, None),
        ensures
            received.with(final(self)@) == on_receive(old(self)@, message@, now),
    {
        let stops = stop_reroute(&message.command);
        let Handled { sent, events } = self.handle(message, None, now);
        if stops {
            self.reroute_responses_to = None;
        }
        let events = match events {
            Some(events) => events,
            None => {
                let none: Vec<Event> = Vec::new();
                assert(event_views(none@) =~= Seq::<EventView>::empty());
                none
            },
        };
        Received { sent, events }
    }

    /// Takes in a message; gives back what is to be sent, and what the message means.
    pub fn receive(&mut self, message: Encoded) -> (received: Received)
        requires
            !misses(old(self)@, message@, None),
        ensures
            exists|now: Instant|
                received.with(final(self)@) == #[trigger] on_receive(old(self)@, message@, now),
    {
        let now = self.clock.now();
        self.receive_at(message, now)
    }
}

} // verus!
