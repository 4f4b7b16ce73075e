//! A client: what it knows of the session, and what it makes of the messages of the server.

use vstd::prelude::*;

use crate::buffer::{Buffer, Server};
use crate::channel::{Channel, Channels};
use crate::config;
use crate::event::{event_views, Event, EventView, Notification, NotificationView};
use crate::isupport::{Parameter, WhoToken};
use crate::message::CtcpCommand;
use crate::order;
use crate::proto::{Command, Message, MessageView};
use crate::sender::Sender;
use crate::string_map::StringMap;
use crate::text::{opt_text, texts};
use crate::time::{Clock, Instant};

pub mod answer_laws;
pub mod capability;
pub mod channel_laws;
pub mod dispatch;
pub mod exchange;
pub mod laws;
pub mod mark_laws;
pub mod member_laws;
pub mod members;
pub mod negotiation_laws;
pub mod plain_laws;
pub mod run_laws;
pub mod session;
pub mod session_laws;
pub mod state_laws;
pub mod talk;
pub mod talk_laws;
pub mod who;
pub mod who_laws;

verus! {

// ---------------------------------------------------------------------------
// What a client keeps

/// What a message was written for.
#[derive(Debug)]
pub enum Context {
    Buffer(Buffer),
    Whois(Buffer),
}

impl Clone for Context {
    fn clone(&self) -> (res: Self)
        ensures
            res == *self,
    {
        match self {
            Context::Buffer(buffer) => Context::Buffer(buffer.clone()),
            Context::Whois(buffer) => Context::Whois(buffer.clone()),
        }
    }
}

impl View for Context {
    type V = Context;

    open spec fn view(&self) -> Context {
        *self
    }
}

impl Context {
    /// What a command is written for, from a buffer.
    pub open spec fn of<S, L>(command: Command<S, L>, buffer: Buffer) -> Context {
        if command is WHOIS {
            Context::Whois(buffer)
        } else {
            Context::Buffer(buffer)
        }
    }

    /// The buffer that a message was written from.
    pub open spec fn origin(self) -> Buffer {
        match self {
            Context::Buffer(buffer) => buffer,
            Context::Whois(buffer) => buffer,
        }
    }

    /// What a message is written for, from a buffer.
    pub fn new(message: &Message, buffer: Buffer) -> (context: Context)
        ensures
            context == Context::of(message.command, buffer),
    {
        if let Command::WHOIS(_, _) = &message.command {
            Context::Whois(buffer)
        } else {
            Context::Buffer(buffer)
        }
    }

    /// Whether the message asks who somebody is.
    pub fn is_whois(&self) -> (res: bool)
        ensures
            res == (*self is Whois),
    {
        matches!(self, Context::Whois(_))
    }

    /// The buffer that the message was written from.
    pub fn buffer(self) -> (buffer: Buffer)
        ensures
            buffer == self.origin(),
    {
        match self {
            Context::Buffer(buffer) => buffer,
            Context::Whois(buffer) => buffer,
        }
    }
}

/// Messages that belong together: what they answer, and what those that have come mean.
#[derive(Debug)]
pub struct Batch {
    context: Option<Context>,
    events: Vec<Event>,
}

/// What a batch holds.
#[verifier::ext_equal]
pub struct BatchView {
    pub context: Option<Context>,
    pub events: Seq<EventView>,
}

impl View for Batch {
    type V = BatchView;

    closed spec fn view(&self) -> BatchView {
        BatchView { context: self.context, events: event_views(self.events@) }
    }
}

impl Batch {
    /// A batch of which no message has come.
    pub fn new(context: Option<Context>) -> (batch: Batch)
        ensures
            batch@ == (BatchView { context, events: Seq::empty() }),
    {
        let batch = Batch { context, events: Vec::new() };
        assert(batch@.events =~= Seq::<EventView>::empty());
        batch
    }
}

/// How far the negotiation before the session has come.
#[derive(Debug, Clone, Copy, PartialEq, Eq, Structural)]
pub enum RegistrationStep {
    List,
    Req,
    Sasl,
    End,
}

impl RegistrationStep {
    /// Whether the negotiation has not come to authentication yet.
    pub open spec fn before_sasl(self) -> bool {
        self is List || self is Req
    }

    /// Whether the negotiation has not come to authentication yet.
    pub fn is_before_sasl(&self) -> (res: bool)
        ensures
            res == self.before_sasl(),
    {
        matches!(self, RegistrationStep::List | RegistrationStep::Req)
    }
}

/// Whether attention is drawn to messages that mention this client. It is not right after the
/// start, when a server repeats what was said before.
#[derive(Debug, Clone, Copy, PartialEq, Eq, Structural)]
pub enum HighlightBlackout {
    Blackout(Instant),
    Receiving,
}

impl HighlightBlackout {
    /// Whether attention is drawn to messages that mention this client.
    pub fn allow_highlights(&self) -> (res: bool)
        ensures
            res == (*self is Receiving),
    {
        match self {
            HighlightBlackout::Blackout(_) => false,
            HighlightBlackout::Receiving => true,
        }
    }
}

/// What a client says of itself.
#[derive(Debug)]
pub struct Environment {
    /// Where its source can be found.
    pub source_website: String,
    pub version: String,
    /// By what it knows the answers to its own requests.
    pub who_poll_token: WhoToken,
}

/// A client of a server.
pub struct Client {
    server: Server,
    server_config: config::Server,
    sender: Sender,
    environment: Environment,
    clock: Clock,
    alt_nick: Option<usize>,
    pub resolved_nick: Option<String>,
    pub chanmap: StringMap<Channel>,
    labels: StringMap<Context>,
    batches: StringMap<Batch>,
    reroute_responses_to: Option<Buffer>,
    registration_step: RegistrationStep,
    listed_caps: Vec<String>,
    supports_labels: bool,
    supports_away_notify: bool,
    supports_account_notify: bool,
    supports_extended_join: bool,
    highlight_blackout: HighlightBlackout,
    registration_required_channels: Vec<String>,
    isupport: StringMap<Parameter>,
}

/// What a client knows.
#[verifier::ext_equal]
pub struct ClientView {
    pub server: Server,
    pub config: config::ServerView,
    /// The queue in which the connection finds what it is asked to do.
    pub queue: int,
    pub environment: Environment,
    /// Which of the other nicknames was asked for last.
    pub alt_nick: Option<usize>,
    /// The nickname that the server knows this client by.
    pub resolved_nick: Option<Seq<char>>,
    pub chanmap: Channels,
    /// What the messages were written for whose answers will bear a label.
    pub labels: Map<Seq<char>, Context>,
    /// The batches that have begun and not ended.
    pub batches: Map<Seq<char>, BatchView>,
    /// The buffer in which answers are shown.
    pub reroute_responses_to: Option<Buffer>,
    pub registration_step: RegistrationStep,
    pub listed_caps: Seq<Seq<char>>,
    pub supports_labels: bool,
    pub supports_away_notify: bool,
    pub supports_account_notify: bool,
    pub supports_extended_join: bool,
    pub highlight_blackout: HighlightBlackout,
    /// The channels to join once the server knows whose nickname it is.
    pub registration_required_channels: Seq<Seq<char>>,
    pub isupport: Map<Seq<char>, Parameter>,
}

impl View for Client {
    type V = ClientView;

    closed spec fn view(&self) -> ClientView {
        ClientView {
            server: self.server,
            config: self.server_config@,
            queue: self.sender@.queue,
            environment: self.environment,
            alt_nick: self.alt_nick,
            resolved_nick: opt_text(self.resolved_nick),
            chanmap: self.chanmap@,
            labels: self.labels@,
            batches: self.batches@,
            reroute_responses_to: self.reroute_responses_to,
            registration_step: self.registration_step,
            listed_caps: texts(self.listed_caps@),
            supports_labels: self.supports_labels,
            supports_away_notify: self.supports_away_notify,
            supports_account_notify: self.supports_account_notify,
            supports_extended_join: self.supports_extended_join,
            highlight_blackout: self.highlight_blackout,
            registration_required_channels: texts(self.registration_required_channels@),
            isupport: self.isupport@,
        }
    }
}

impl ClientView {
    /// The nickname of this client: the one that the server knows it by, or else the one that it
    /// asks for.
    pub open spec fn nick(self) -> Seq<char> {
        match self.resolved_nick {
            Some(nick) => nick,
            None => self.config.nickname,
        }
    }
}

// ---------------------------------------------------------------------------
// What a client does about a message

/// Something that is sent to the server.
#[derive(Debug)]
pub enum Outgoing {
    Message(Message),
    /// An answer to the question of another client.
    Ctcp { command: CtcpCommand, target: String, params: Option<String> },
}

/// What something that is sent holds.
pub enum OutgoingView {
    Message(MessageView),
    Ctcp { command: CtcpCommand, target: Seq<char>, params: Option<Seq<char>> },
}

impl View for Outgoing {
    type V = OutgoingView;

    open spec fn view(&self) -> OutgoingView {
        match *self {
            Outgoing::Message(message) => OutgoingView::Message(message@),
            Outgoing::Ctcp { command, target, params } => OutgoingView::Ctcp {
                command,
                target: target@,
                params: opt_text(params),
            },
        }
    }
}

/// What all that is sent holds.
pub open spec fn outgoing_views(sent: Seq<Outgoing>) -> Seq<OutgoingView> {
    sent.map_values(|outgoing: Outgoing| outgoing@)
}

/// Messages, as something that is sent.
pub open spec fn all_sent(messages: Seq<MessageView>) -> Seq<OutgoingView> {
    messages.map_values(|message: MessageView| OutgoingView::Message(message))
}

/// A command, as something that is sent.
pub open spec fn sends(command: crate::proto::CommandView) -> OutgoingView {
    OutgoingView::Message(MessageView::plain(command))
}

/// What becomes of a message.
#[derive(Debug)]
pub enum Outcome {
    /// Nothing comes of it.
    Nothing,
    /// It means these events.
    Events(Vec<Event>),
    /// Attention is drawn to it.
    Notify(Notification),
    /// It is shown, after these events.
    Shown(Vec<Event>),
}

/// What becomes of a message, as the contracts say it.
#[verifier::ext_equal]
pub enum OutcomeView {
    Nothing,
    Events(Seq<EventView>),
    Notify(NotificationView),
    Shown(Seq<EventView>),
}

impl View for Outcome {
    type V = OutcomeView;

    open spec fn view(&self) -> OutcomeView {
        match *self {
            Outcome::Nothing => OutcomeView::Nothing,
            Outcome::Events(events) => OutcomeView::Events(event_views(events@)),
            Outcome::Notify(notification) => OutcomeView::Notify(notification@),
            Outcome::Shown(events) => OutcomeView::Shown(event_views(events@)),
        }
    }
}

/// What a client does about a message: what it sends, and what becomes of the message.
#[derive(Debug)]
pub struct Reply {
    pub sent: Vec<Outgoing>,
    pub outcome: Outcome,
}

/// What a client does about a message, as the contracts say it.
#[verifier::ext_equal]
pub struct ReplyView {
    pub sent: Seq<OutgoingView>,
    pub outcome: OutcomeView,
}

impl View for Reply {
    type V = ReplyView;

    open spec fn view(&self) -> ReplyView {
        ReplyView { sent: outgoing_views(self.sent@), outcome: self.outcome@ }
    }
}

/// What a client knows after a message, and what it does about it.
#[verifier::ext_equal]
pub struct Step {
    pub client: ClientView,
    pub reply: ReplyView,
}

impl Step {
    /// Nothing is sent, and nothing comes of the message.
    pub open spec fn nothing(client: ClientView) -> Step {
        Step { client, reply: ReplyView { sent: Seq::empty(), outcome: OutcomeView::Nothing } }
    }

    /// Nothing is sent, and the message is shown.
    pub open spec fn shown(client: ClientView) -> Step {
        Step::shown_sending(client, Seq::empty())
    }

    /// The message is shown.
    pub open spec fn shown_sending(client: ClientView, sent: Seq<OutgoingView>) -> Step {
        Step { client, reply: ReplyView { sent, outcome: OutcomeView::Shown(Seq::empty()) } }
    }

    /// Nothing is sent, and the message means events.
    pub open spec fn events(client: ClientView, events: Seq<EventView>) -> Step {
        Step {
            client,
            reply: ReplyView { sent: Seq::empty(), outcome: OutcomeView::Events(events) },
        }
    }

    /// Nothing is sent, and attention is drawn to the message.
    pub open spec fn notify(client: ClientView, notification: NotificationView) -> Step {
        Step {
            client,
            reply: ReplyView { sent: Seq::empty(), outcome: OutcomeView::Notify(notification) },
        }
    }
}

impl Reply {
    /// Nothing is sent, and nothing comes of the message.
    pub fn nothing() -> (reply: Reply)
        ensures
            reply@ == (ReplyView { sent: Seq::empty(), outcome: OutcomeView::Nothing }),
    {
        let reply = Reply { sent: Vec::new(), outcome: Outcome::Nothing };
        assert(reply@.sent =~= Seq::<OutgoingView>::empty());
        reply
    }

    /// The message is shown.
    pub fn shown_sending(sent: Vec<Outgoing>) -> (reply: Reply)
        ensures
            reply@ == (ReplyView {
                sent: outgoing_views(sent@),
                outcome: OutcomeView::Shown(Seq::empty()),
            }),
    {
        let events: Vec<Event> = Vec::new();
        assert(event_views(events@) =~= Seq::<EventView>::empty());
        Reply { sent, outcome: Outcome::Shown(events) }
    }

    /// Nothing is sent, and the message is shown.
    pub fn shown() -> (reply: Reply)
        ensures
            reply@ == (ReplyView {
                sent: Seq::empty(),
                outcome: OutcomeView::Shown(Seq::empty()),
            }),
    {
        let sent: Vec<Outgoing> = Vec::new();
        assert(outgoing_views(sent@) =~= Seq::<OutgoingView>::empty());
        Reply::shown_sending(sent)
    }

    /// Nothing is sent, and the message means one event.
    pub fn event(event: Event) -> (reply: Reply)
        ensures
            reply@ == (ReplyView {
                sent: Seq::empty(),
                outcome: OutcomeView::Events(seq![event@]),
            }),
    {
        let sent: Vec<Outgoing> = Vec::new();
        assert(outgoing_views(sent@) =~= Seq::<OutgoingView>::empty());
        let mut events: Vec<Event> = Vec::new();
        events.push(event);
        assert(event_views(events@) =~= seq![event@]);
        Reply { sent, outcome: Outcome::Events(events) }
    }

    /// Nothing is sent, and attention is drawn to the message.
    pub fn notify(notification: Notification) -> (reply: Reply)
        ensures
            reply@ == (ReplyView {
                sent: Seq::empty(),
                outcome: OutcomeView::Notify(notification@),
            }),
    {
        let sent: Vec<Outgoing> = Vec::new();
        assert(outgoing_views(sent@) =~= Seq::<OutgoingView>::empty());
        Reply { sent, outcome: Outcome::Notify(notification) }
    }
}

/// Adds a command to what is sent.
pub(crate) fn push_command(sent: &mut Vec<Outgoing>, command: Command)
    ensures
        outgoing_views(final(sent)@) == outgoing_views(old(sent)@).push(sends(command@)),
{
    sent.push(Outgoing::Message(Message::plain(command)));
    assert(outgoing_views(sent@) =~= outgoing_views(old(sent)@).push(sends(command@)));
}

/// One command, as all that is sent.
pub(crate) fn one_command(command: Command) -> (sent: Vec<Outgoing>)
    ensures
        outgoing_views(sent@) == seq![sends(command@)],
{
    let mut sent: Vec<Outgoing> = Vec::new();
    push_command(&mut sent, command);
    assert(outgoing_views(sent@) =~= seq![sends(command@)]);
    sent
}

/// Adds messages to what is sent.
pub(crate) fn push_messages(sent: &mut Vec<Outgoing>, messages: Vec<Message>)
    ensures
        outgoing_views(final(sent)@) == outgoing_views(old(sent)@) + all_sent(
            crate::proto::message_views(messages@),
        ),
{
    let ghost views = all_sent(crate::proto::message_views(messages@));
    let ghost before = outgoing_views(sent@);
    let ghost whole = messages@;
    let mut reversed = order::reversed(messages);
    assert(views.take(0) =~= Seq::<OutgoingView>::empty());
    while reversed.len() > 0
        invariant
            views == all_sent(crate::proto::message_views(whole)),
            reversed@.len() <= whole.len(),
            forall|j: int| 0 <= j < reversed@.len() ==> reversed@[j] == whole[whole.len() - 1 - j],
            outgoing_views(sent@) == before + views.take(whole.len() - reversed@.len()),
        decreases reversed@.len(),
    {
        let ghost so_far = sent@;
        let ghost n = whole.len() - reversed@.len();
        if let Some(message) = reversed.pop() {
            sent.push(Outgoing::Message(message));
            proof {
                assert(message == whole[n]);
                assert(outgoing_views(sent@) =~= outgoing_views(so_far).push(
                    OutgoingView::Message(message@),
                ));
                assert(views.take(n + 1) =~= views.take(n).push(views[n]));
                assert(outgoing_views(sent@) =~= before + views.take(n + 1));
            }
        }
    }
    assert(views.take(whole.len() as int) =~= views);
}

impl Client {
    /// The nickname of this client.
    pub fn nickname(&self) -> (nick: &str)
        ensures
            nick@ == self@.nick(),
    {
        match &self.resolved_nick {
            Some(nick) => nick.as_str(),
            None => self.server_config.nickname.as_str(),
        }
    }

    /// The nickname that the server knows this client by.
    pub fn given_nickname(&self) -> (nick: &Option<String>)
        ensures
            opt_text(*nick) == self@.resolved_nick,
    {
        &self.resolved_nick
    }

    /// The channels that this client is in.
    pub fn channels(&self) -> (channels: &StringMap<Channel>)
        ensures
            channels@ == self@.chanmap,
            self@.chanmap.dom().finite(),
    {
        let _ = self.chanmap.len();
        &self.chanmap
    }
}

} // verus!
