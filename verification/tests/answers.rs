//! What users say, and where answers go: labels, batches and buffers.

use futures::channel::mpsc;
use irc_client::buffer::{Buffer, Server};
use irc_client::client::exchange::{generate_label, start_reroute, stop_reroute, Received};
use irc_client::client::who::HIGHLIGHT_BLACKOUT_INTERVAL;
use irc_client::client::{Client, Context, Environment, HighlightBlackout, Outgoing};
use irc_client::config;
use irc_client::event::{Event, Notification};
use irc_client::isupport::WhoToken;
use irc_client::message::{CtcpCommand, CtcpQuery, DccCommand, DccSend, Encoded, Parsed};
use irc_client::proto::{Command, Message, Numeric, Tag};
use irc_client::sender::{Request, Sender};
use irc_client::string_map::StringMap;
use irc_client::time::{Clock, DateTime, Instant};
use irc_client::user::{Nick, User};

fn text(value: &str) -> String {
    value.to_string()
}

fn strings(list: &[&str]) -> Vec<String> {
    list.iter().map(|value| value.to_string()).collect()
}

fn client_and_queue() -> (Client, mpsc::Receiver<Request>) {
    let settings = config::Server {
        nickname: text("me"),
        username: None,
        realname: None,
        password: None,
        nick_password: None,
        nick_identify_syntax: None,
        should_ghost: false,
        ghost_sequence: vec![],
        alt_nicks: vec![],
        umodes: None,
        on_connect: vec![],
        channels: vec![],
        channel_keys: StringMap::new(),
        monitor: vec![],
        sasl: None,
        who_poll_interval: 100,
        who_retry_interval: 10,
    };
    let environment = Environment {
        source_website: text("https://example.org"),
        version: text("1.0"),
        who_poll_token: WhoToken { text: text("9") },
    };
    let (sender, receiver) = mpsc::channel(4);
    let (client, _, _) = Client::new_at(
        Server(text("server")),
        settings,
        Sender::new(sender),
        environment,
        Clock::start(),
        Instant { nanos: 0 },
    );
    (client, receiver)
}

fn client() -> Client {
    client_and_queue().0
}

fn parsed(nick: Option<&str>) -> Parsed {
    Parsed {
        user: nick.map(|nick| User::named(text(nick))),
        server_time: DateTime { seconds: 1, nanos: 2 },
        dcc: None,
        is_query: false,
        is_action: false,
        query: None,
        references_us: false,
        users: vec![],
        channel_modes: vec![],
        user_modes: vec![],
        isupport: vec![],
        who_token: None,
    }
}

fn tag(key: &str, value: &str) -> Tag {
    Tag { key: text(key), value: Some(text(value)) }
}

fn receive(client: &mut Client, tags: Vec<Tag>, command: Command, parsed: Parsed) -> Received {
    let message = Encoded { tags, command, parsed };
    assert!(client.accepts(&message));
    client.receive_at(message, Instant { nanos: 50 })
}

fn with_labels(client: &mut Client) {
    let command = Command::CAP(None, text("ACK"), Some(text("labeled-response batch")), None);
    receive(client, vec![], command, parsed(None));
}

fn privmsg(target: &str) -> Command {
    Command::PRIVMSG(text(target), text("text"))
}

fn reply(numeric: Numeric) -> Command {
    Command::Numeric(numeric, strings(&["me", "x"]))
}

fn batch(reference: &str) -> Command {
    Command::BATCH(text(reference), vec![])
}

fn message(command: Command) -> Message {
    Message { tags: vec![], command }
}

fn channel() -> Buffer {
    Buffer::Channel(Server(text("server")), text("#a"))
}

fn is_in_channel(received: &Received) -> bool {
    match &received.events[..] {
        [Event::WithTarget(_, Buffer::Channel(_, channel))] => channel == "#a",
        _ => false,
    }
}

fn is_shown(received: &Received) -> bool {
    matches!(&received.events[..], [Event::Single(_)])
}

#[test]
fn a_labeled_question_is_answered_where_it_was_asked() {
    let mut client = client();
    with_labels(&mut client);
    let whois = message(Command::WHOIS(None, text("x")));
    let sent = client.send_with_label(whois, Some(channel()), text("7"));
    assert_eq!(sent.tags.len(), 1);
    assert_eq!(sent.tags[0].key, "label");
    assert_eq!(sent.tags[0].value, Some(text("7")));
    let tags = vec![tag("time", "now"), tag("label", "7")];
    let answer = receive(&mut client, tags, privmsg("me"), parsed(None));
    assert!(is_in_channel(&answer));
    match &answer.events[0] {
        Event::WithTarget(message, _) => {
            assert_eq!(message.tags.len(), 1);
            assert_eq!(message.tags[0].key, "time");
        }
        other => panic!("{other:?}"),
    }
    let again = receive(&mut client, vec![tag("label", "7")], privmsg("#a"), parsed(None));
    assert!(is_shown(&again));
}

#[test]
fn labels_are_the_time_in_nanoseconds() {
    let label = generate_label();
    assert!(label.parse::<u128>().unwrap() > 1_600_000_000_000_000_000);
    let mut client = client();
    with_labels(&mut client);
    let sent = client.send(message(privmsg("#a")), Some(channel()));
    let label = sent.tags[0].value.clone().unwrap();
    assert!(label.parse::<u128>().unwrap() > 1_600_000_000_000_000_000);
}

#[test]
fn without_labels_messages_go_out_as_they_are() {
    let mut client = client();
    let sent = client.send(message(privmsg("#a")), Some(channel()));
    assert!(sent.tags.is_empty());
    let kept = Message { tags: vec![tag("own", "1")], command: privmsg("#a") };
    assert_eq!(client.send(kept, None).tags.len(), 1);
    with_labels(&mut client);
    assert!(client.send(message(privmsg("#a")), None).tags.is_empty());
}

#[test]
fn an_echo_of_what_was_sent_here_is_dropped() {
    let mut client = client();
    with_labels(&mut client);
    client.send_with_label(message(privmsg("#a")), Some(channel()), text("7"));
    let echo = receive(&mut client, vec![tag("label", "7")], privmsg("#a"), parsed(Some("me")));
    assert!(echo.events.is_empty());
    let elsewhere = receive(&mut client, vec![], privmsg("#a"), parsed(Some("me")));
    assert!(is_shown(&elsewhere));
}

#[test]
fn answers_are_shown_where_the_command_was_written() {
    let mut client = client();
    client.send(message(Command::WHOIS(None, text("x"))), Some(channel()));
    assert!(is_in_channel(&receive(&mut client, vec![], reply(Numeric::Other(311)), parsed(None))));
    let unknown = Command::Unknown(text("X"), vec![]);
    assert!(is_in_channel(&receive(&mut client, vec![], unknown, parsed(None))));
    assert!(is_shown(&receive(&mut client, vec![], privmsg("#a"), parsed(Some("x")))));
    let last = receive(&mut client, vec![], reply(Numeric::RPL_ENDOFWHOIS), parsed(None));
    assert!(is_in_channel(&last));
    assert!(is_shown(&receive(&mut client, vec![], reply(Numeric::Other(311)), parsed(None))));
}

#[test]
fn a_later_command_ends_the_wait_for_answers() {
    let mut client = client();
    client.send(message(Command::WHO(text("x"), None, None)), Some(channel()));
    client.send(message(privmsg("#a")), Some(channel()));
    assert!(is_shown(&receive(&mut client, vec![], reply(Numeric::Other(311)), parsed(None))));
}

#[test]
fn some_commands_have_answers() {
    assert!(start_reroute(&Command::WHO(text("x"), None, None)));
    assert!(start_reroute(&Command::WHOIS(None, text("x"))));
    assert!(start_reroute(&Command::WHOWAS(text("x"), None)));
    assert!(start_reroute(&Command::MODE(text("me"), None, None)));
    assert!(!start_reroute(&Command::MODE(text("#a"), None, None)));
    assert!(!start_reroute(&privmsg("x")));
    for numeric in [
        Numeric::RPL_ENDOFWHO,
        Numeric::RPL_ENDOFWHOIS,
        Numeric::RPL_ENDOFWHOWAS,
        Numeric::ERR_NOSUCHNICK,
        Numeric::ERR_NOSUCHSERVER,
        Numeric::ERR_NONICKNAMEGIVEN,
        Numeric::ERR_WASNOSUCHNICK,
        Numeric::ERR_NEEDMOREPARAMS,
        Numeric::ERR_USERSDONTMATCH,
        Numeric::RPL_UMODEIS,
        Numeric::ERR_UMODEUNKNOWNFLAG,
    ] {
        assert!(stop_reroute(&reply(numeric)));
    }
    assert!(!stop_reroute(&reply(Numeric::RPL_WHOREPLY)));
    assert!(!stop_reroute(&privmsg("x")));
}

#[test]
fn a_rerouted_answer_is_not_looked_into() {
    let mut client = client();
    let short = || Encoded {
        tags: vec![],
        command: Command::Numeric(Numeric::RPL_TOPIC, vec![]),
        parsed: parsed(None),
    };
    assert!(!client.accepts(&short()));
    client.send(message(Command::WHOIS(None, text("x"))), Some(channel()));
    assert!(client.accepts(&short()));
    assert!(is_in_channel(&client.receive_at(short(), Instant { nanos: 1 })));
}

#[test]
fn a_labeled_answer_is_not_looked_into() {
    let mut client = client();
    with_labels(&mut client);
    client.send_with_label(message(Command::WHOIS(None, text("x"))), Some(channel()), text("7"));
    client.send(message(privmsg("#a")), Some(channel()));
    let short = |tags: Vec<Tag>| Encoded {
        tags,
        command: Command::Numeric(Numeric::RPL_TOPIC, vec![]),
        parsed: parsed(None),
    };
    assert!(!client.accepts(&short(vec![tag("label", "8")])));
    assert!(client.accepts(&short(vec![tag("label", "7")])));
    assert!(client.accepts(&short(vec![
        tag("label", "8"),
        tag("batch", "unknown"),
        tag("label", "7"),
    ])));
    receive(&mut client, vec![tag("label", "7")], batch("+b"), parsed(None));
    assert!(client.accepts(&short(vec![tag("batch", "b")])));
    assert!(!client.accepts(&short(vec![tag("batch", "c")])));
}

#[test]
fn a_batch_tells_everything_at_its_end() {
    let mut client = client();
    assert!(receive(&mut client, vec![], batch("+b"), parsed(None)).events.is_empty());
    for nick in ["x", "y"] {
        let tags = vec![tag("batch", "b")];
        let received = receive(&mut client, tags, privmsg("#a"), parsed(Some(nick)));
        assert!(received.events.is_empty());
    }
    let end = receive(&mut client, vec![], batch("-b"), parsed(None));
    let nicks: Vec<String> = end
        .events
        .iter()
        .map(|event| match event {
            Event::Single(message) => message.parsed.user.as_ref().unwrap().nickname.clone(),
            other => panic!("{other:?}"),
        })
        .collect();
    assert_eq!(nicks, strings(&["x", "y"]));
    assert!(receive(&mut client, vec![], batch("-b"), parsed(None)).events.is_empty());
    let late = receive(&mut client, vec![tag("batch", "b")], privmsg("#a"), parsed(Some("z")));
    assert!(is_shown(&late));
}

#[test]
fn messages_of_a_batch_count_at_their_own_time() {
    let mut client = client();
    let mut at = |nanos: u64, tags: Vec<Tag>, command: Command, nick: Option<&str>| {
        let message = Encoded { tags, command, parsed: parsed(nick) };
        client.receive_at(message, Instant { nanos: nanos.into() })
    };
    at(1, vec![], batch("+b"), None);
    for (nanos, name) in [(10, "#x"), (20, "#y")] {
        let join = Command::JOIN(text(name), None);
        let received = at(nanos, vec![tag("batch", "b")], join, Some("me"));
        assert!(received.events.is_empty());
        assert_eq!(received.sent.len(), 1);
    }
    let end = at(30, vec![], batch("-b"), None);
    assert!(end.sent.is_empty());
    assert!(matches!(&end.events[..], [Event::Single(_), Event::Single(_)]));
    assert!(at(40, vec![], batch("-b"), None).events.is_empty());
    let asked = |name: &str| format!("{:?}", client.chanmap.get(name).unwrap().last_who);
    assert_eq!(asked("#x"), "Some(Requested(Instant { nanos: 10 }, None))");
    assert_eq!(asked("#y"), "Some(Requested(Instant { nanos: 20 }, None))");
}

#[test]
fn a_message_means_nothing_yet_in_a_batch() {
    let mut client = client();
    let mut handle = |tags: Vec<Tag>, command: Command, nick: Option<&str>| {
        let message = Encoded { tags, command, parsed: parsed(nick) };
        client.handle(message, None, Instant { nanos: 50 }).events.map(|events| events.len())
    };
    assert_eq!(handle(vec![], batch("+b"), None), None);
    assert_eq!(handle(vec![tag("batch", "b")], privmsg("#a"), Some("x")), None);
    assert_eq!(handle(vec![], privmsg("#a"), Some("x")), Some(1));
    assert_eq!(handle(vec![], batch("-b"), None), Some(1));
    assert_eq!(handle(vec![], batch("-b"), None), None);
}

#[test]
fn a_batch_within_a_batch_is_told_with_it() {
    let mut client = client();
    receive(&mut client, vec![], batch("+outer"), parsed(None));
    receive(&mut client, vec![tag("batch", "outer")], batch("+inner"), parsed(None));
    receive(&mut client, vec![tag("batch", "inner")], privmsg("#a"), parsed(Some("x")));
    let tags = vec![tag("batch", "outer")];
    assert!(receive(&mut client, tags, batch("-inner"), parsed(None)).events.is_empty());
    let end = receive(&mut client, vec![], batch("-outer"), parsed(None));
    assert!(is_shown(&end));
    let tags = vec![tag("batch", "unknown")];
    receive(&mut client, vec![], batch("+b"), parsed(None));
    receive(&mut client, vec![tag("batch", "b")], privmsg("#a"), parsed(Some("x")));
    assert!(is_shown(&receive(&mut client, tags, batch("-b"), parsed(None))));
    assert!(receive(&mut client, vec![], batch(""), parsed(None)).events.is_empty());
    assert!(receive(&mut client, vec![], batch("b"), parsed(None)).events.is_empty());
}

#[test]
fn a_labeled_batch_answers_for_its_messages() {
    let mut client = client();
    with_labels(&mut client);
    client.send_with_label(message(Command::WHOIS(None, text("x"))), Some(channel()), text("7"));
    client.send(message(privmsg("#a")), Some(channel()));
    receive(&mut client, vec![tag("label", "7")], batch("+b"), parsed(None));
    receive(&mut client, vec![tag("batch", "b")], reply(Numeric::Other(311)), parsed(None));
    let end = receive(&mut client, vec![], batch("-b"), parsed(None));
    assert!(is_in_channel(&end));
}

#[test]
fn a_mention_is_highlighted_once_the_blackout_is_over() {
    let mut client = client();
    let mention = || {
        let mut parsed = parsed(Some("x"));
        parsed.references_us = true;
        parsed
    };
    assert!(is_shown(&receive(&mut client, vec![], privmsg("#a"), mention())));
    client.tick(Instant { nanos: HIGHLIGHT_BLACKOUT_INTERVAL - 1 });
    assert!(is_shown(&receive(&mut client, vec![], privmsg("#a"), mention())));
    client.tick(Instant { nanos: HIGHLIGHT_BLACKOUT_INTERVAL });
    let received = receive(&mut client, vec![], privmsg("#a"), mention());
    match &received.events[..] {
        [Event::Notification(_, Notification::Highlight(user, channel))] => {
            assert_eq!(user.nickname, "x");
            assert_eq!(channel, "#a");
        }
        other => panic!("{other:?}"),
    }
    client.tick(Instant { nanos: 0 });
    assert!(!is_shown(&receive(&mut client, vec![], privmsg("#a"), mention())));
    assert!(!HighlightBlackout::Blackout(Instant { nanos: 0 }).allow_highlights());
    assert!(HighlightBlackout::Receiving.allow_highlights());
}

#[test]
fn a_direct_message_is_notified() {
    let mut client = client();
    let received = receive(&mut client, vec![], privmsg("me"), parsed(Some("x")));
    match &received.events[..] {
        [Event::Notification(message, Notification::DirectMessage(user))] => {
            assert_eq!(user.nickname, "x");
            assert!(matches!(&message.command, Command::PRIVMSG(target, _) if target == "me"));
        }
        other => panic!("{other:?}"),
    }
    assert!(is_shown(&receive(&mut client, vec![], privmsg("me"), parsed(None))));
}

#[test]
fn questions_of_other_clients_are_answered() {
    let ask = |nick: &str, command: CtcpCommand, params: Option<&str>, notice: bool| {
        let mut client = client();
        let mut parsed = parsed(Some(nick));
        parsed.is_query = true;
        parsed.query = Some(CtcpQuery { command, params: params.map(text) });
        let command = if notice {
            Command::NOTICE(text("me"), text("question"))
        } else {
            privmsg("me")
        };
        let received = receive(&mut client, vec![], command, parsed);
        let answers: Vec<(String, String, Option<String>)> = received
            .sent
            .into_iter()
            .map(|outgoing| match outgoing {
                Outgoing::Ctcp { command, target, params } => {
                    (format!("{command:?}"), target, params)
                }
                other => panic!("{other:?}"),
            })
            .collect();
        (answers, received.events.len())
    };
    let one = |command: &str, params: Option<&str>| {
        (vec![(text(command), text("x"), params.map(text))], 0)
    };
    assert_eq!(
        ask("x", CtcpCommand::ClientInfo, None, false),
        one("ClientInfo", Some("ACTION CLIENTINFO DCC PING SOURCE VERSION"))
    );
    assert_eq!(ask("x", CtcpCommand::Ping, Some("12"), false), one("Ping", Some("12")));
    assert_eq!(ask("x", CtcpCommand::Ping, None, false), one("Ping", None));
    assert_eq!(
        ask("x", CtcpCommand::Source, None, false),
        one("Source", Some("https://example.org"))
    );
    assert_eq!(ask("x", CtcpCommand::Version, None, false), one("Version", Some("Halloy 1.0")));
    assert_eq!(ask("x", CtcpCommand::Action, None, false), (vec![], 0));
    assert_eq!(ask("x", CtcpCommand::DCC, None, false), (vec![], 0));
    assert_eq!(ask("x", CtcpCommand::Unknown(text("Y")), None, false), (vec![], 0));
    assert_eq!(ask("x", CtcpCommand::Version, None, true), (vec![], 0));
    assert_eq!(ask("me", CtcpCommand::Version, None, false), (vec![], 1));
}

#[test]
fn an_action_is_no_question() {
    let mut client = client();
    let mut action = parsed(Some("x"));
    action.is_query = true;
    action.is_action = true;
    action.query = Some(CtcpQuery { command: CtcpCommand::Action, params: None });
    assert!(is_shown(&receive(&mut client, vec![], privmsg("#a"), action)));
    let mut broken = parsed(Some("x"));
    broken.is_query = true;
    assert!(is_shown(&receive(&mut client, vec![], privmsg("#a"), broken)));
}

#[test]
fn a_file_is_offered_with_a_way_to_answer() {
    let (mut client, mut queue) = client_and_queue();
    let mut offer = parsed(Some("x"));
    offer.dcc = Some(DccCommand::Send(DccSend { text: text("file") }));
    let mut received = receive(&mut client, vec![], privmsg("me"), offer);
    match received.events.pop() {
        Some(Event::FileTransferRequest(mut request)) => {
            assert_eq!(request.from.0, "x");
            assert_eq!(request.dcc_send.text, "file");
            assert_eq!(request.server.0, "server");
            assert!(request.sender.try_send(message(privmsg("x"))).is_ok());
        }
        other => panic!("{other:?}"),
    }
    assert!(matches!(queue.try_recv(), Ok(Request::Send(_, None))));
    let mut unsupported = parsed(Some("x"));
    unsupported.dcc = Some(DccCommand::Unsupported(text("CHAT")));
    assert!(receive(&mut client, vec![], privmsg("me"), unsupported).events.is_empty());
}

#[test]
fn contexts_know_what_they_are_for() {
    let whois = Context::new(&message(Command::WHOIS(None, text("x"))), channel());
    assert!(whois.is_whois());
    assert!(matches!(whois.buffer(), Buffer::Channel(_, name) if name == "#a"));
    let query = Buffer::Query(Server(text("server")), Nick(text("x")));
    let other = Context::new(&message(privmsg("x")), query);
    assert!(!other.is_whois());
    assert_eq!(other.clone().buffer().server().0, "server");
}

#[test]
fn events_are_read_with_their_messages() {
    let encoded = || Encoded { tags: vec![], command: privmsg("#a"), parsed: parsed(None) };
    let event = Event::Single(encoded());
    assert!(event.message().is_some());
    assert!(matches!(event.decode(Some(5)), Some(Event::Single(5))));
    assert!(Event::Single(encoded()).decode::<u8>(None).is_none());
    let event = Event::WithTarget(encoded(), channel());
    assert!(event.message().is_some());
    assert!(matches!(event.decode(Some(6)), Some(Event::WithTarget(6, Buffer::Channel(_, _)))));
    assert!(Event::WithTarget(encoded(), channel()).decode::<u8>(None).is_none());
    let notification = || Notification::DirectMessage(User::named(text("x")));
    let event = Event::Notification(encoded(), notification());
    assert!(matches!(event.decode(Some(7)), Some(Event::Notification(7, _))));
    assert!(Event::Notification(encoded(), notification()).decode::<u8>(None).is_none());
    let event: Event = Event::NickUpdated(text("x"));
    assert!(event.message().is_none());
    assert!(matches!(event.decode::<u8>(None), Some(Event::NickUpdated(nick)) if nick == "x"));
    let event: Event = Event::IsupportUpdated(StringMap::new());
    assert!(matches!(event.decode::<u8>(None), Some(Event::IsupportUpdated(_))));
}
