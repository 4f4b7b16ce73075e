//! The session: its beginning, negotiation, nicknames, accounts, and what the server supports.

use futures::channel::mpsc;
use irc_client::buffer::Server;
use irc_client::client::exchange::Received;
use irc_client::client::{Client, Environment, Outgoing};
use irc_client::config::{self, IdentifySyntax, Sasl};
use irc_client::event::Event;
use irc_client::handle::Handle;
use irc_client::isupport::{Operation as Announcement, Parameter, WhoToken};
use irc_client::message::{Encoded, Parsed, UserMode, UserModeKind};
use irc_client::proto::{Command, Message, Numeric};
use irc_client::sender::{Request, Sender};
use irc_client::string_map::StringMap;
use irc_client::time::{Clock, DateTime, Instant};
use irc_client::user::{Operation, User};

fn text(value: &str) -> String {
    value.to_string()
}

fn strings(list: &[&str]) -> Vec<String> {
    list.iter().map(|value| value.to_string()).collect()
}

fn settings() -> config::Server {
    config::Server {
        nickname: text("me"),
        username: None,
        realname: None,
        password: None,
        nick_password: None,
        nick_identify_syntax: None,
        should_ghost: false,
        ghost_sequence: vec![],
        alt_nicks: vec![],
        umodes: None,
        on_connect: vec![],
        channels: vec![],
        channel_keys: StringMap::new(),
        monitor: vec![],
        sasl: None,
        who_poll_interval: 100,
        who_retry_interval: 10,
    }
}

fn begin(settings: config::Server) -> (Client, Handle, Vec<Message>) {
    let environment = Environment {
        source_website: text("https://example.org"),
        version: text("1.0"),
        who_poll_token: WhoToken { text: text("9") },
    };
    let (sender, _) = mpsc::channel(4);
    Client::new_at(
        Server(text("server")),
        settings,
        Sender::new(sender),
        environment,
        Clock::start(),
        Instant { nanos: 0 },
    )
}

fn client(settings: config::Server) -> Client {
    begin(settings).0
}

fn parsed(nick: Option<&str>) -> Parsed {
    Parsed {
        user: nick.map(|nick| User::named(text(nick))),
        server_time: DateTime { seconds: 1, nanos: 2 },
        dcc: None,
        is_query: false,
        is_action: false,
        query: None,
        references_us: false,
        users: vec![],
        channel_modes: vec![],
        user_modes: vec![],
        isupport: vec![],
        who_token: None,
    }
}

fn receive(client: &mut Client, command: Command, parsed: Parsed) -> Received {
    let message = Encoded { tags: vec![], command, parsed };
    assert!(client.accepts(&message));
    client.receive_at(message, Instant { nanos: 50 })
}

fn numeric(client: &mut Client, numeric: Numeric, args: &[&str]) -> Received {
    receive(client, Command::Numeric(numeric, strings(args)), parsed(None))
}

fn user_mode(operation: Option<Operation>, kind: UserModeKind, arg: Option<&str>) -> UserMode {
    UserMode { operation, kind, arg: arg.map(text) }
}

fn cap(client: &mut Client, sub: &str, a: Option<&str>, b: Option<&str>) -> Received {
    let command = Command::CAP(Some(text("me")), text(sub), a.map(text), b.map(text));
    receive(client, command, parsed(None))
}

fn sent(received: &Received) -> Vec<String> {
    received
        .sent
        .iter()
        .map(|outgoing| match outgoing {
            Outgoing::Message(message) => format!("{:?}", message.command),
            Outgoing::Ctcp { .. } => panic!("an answer to a question"),
        })
        .collect()
}

fn is_shown(received: &Received) -> bool {
    matches!(received.events.last(), Some(Event::Single(_)))
}

const END: &str = r#"CAP(None, "END", None, None)"#;

fn req(caps: &str) -> String {
    format!(r#"CAP(None, "REQ", Some("{caps}"), None)"#)
}

#[test]
fn begins_with_a_question_and_an_introduction() {
    let (client, handle, messages) = begin(settings());
    let commands: Vec<String> =
        messages.iter().map(|message| format!("{:?}", message.command)).collect();
    assert_eq!(
        commands,
        strings(&[
            r#"CAP(None, "LS", Some("302"), None)"#,
            r#"NICK("me")"#,
            r#"USER("me", "me")"#,
        ])
    );
    assert_eq!(client.nickname(), "me");
    assert_eq!(handle.nickname(), "me");
    assert!(handle.channels().is_empty());
}

#[test]
fn a_handle_asks_the_connection_of_its_client() {
    let (sender, mut queue) = mpsc::channel(4);
    let environment = Environment {
        source_website: text("https://example.org"),
        version: text("1.0"),
        who_poll_token: WhoToken { text: text("9") },
    };
    let (_client, mut handle, _) = Client::new_at(
        Server(text("server")),
        settings(),
        Sender::new(sender),
        environment,
        Clock::start(),
        Instant { nanos: 0 },
    );
    assert!(handle.quit(Some(text("bye"))).is_ok());
    match queue.try_recv() {
        Ok(Request::Send(message, None)) => {
            assert_eq!(format!("{:?}", message.command), r#"QUIT(Some("bye"))"#);
        }
        other => panic!("{other:?}"),
    }
}

#[test]
fn a_client_shows_its_nickname_and_its_channels() {
    let mut client = client(settings());
    assert_eq!(*client.given_nickname(), None);
    assert!(client.channels().is_empty());
    numeric(&mut client, Numeric::RPL_WELCOME, &["you", "hello"]);
    receive(&mut client, Command::JOIN(text("#a"), None), parsed(Some("you")));
    assert_eq!(*client.given_nickname(), Some(text("you")));
    assert_eq!(client.channels().keys(), strings(&["#a"]));
}

#[test]
fn begins_with_the_password_and_the_names_that_were_set() {
    let mut set = settings();
    set.password = Some(text("pw"));
    set.username = Some(text("user"));
    set.realname = Some(text("Real Name"));
    let (_, _, messages) = begin(set);
    let commands: Vec<String> =
        messages.iter().map(|message| format!("{:?}", message.command)).collect();
    assert_eq!(
        commands,
        strings(&[
            r#"CAP(None, "LS", Some("302"), None)"#,
            r#"PASS("pw")"#,
            r#"NICK("me")"#,
            r#"USER("user", "Real Name")"#,
        ])
    );
}

#[test]
fn begins_by_the_clock_of_the_system() {
    let environment = Environment {
        source_website: text("https://example.org"),
        version: text("1.0"),
        who_poll_token: WhoToken { text: text("9") },
    };
    let (sender, _) = mpsc::channel(4);
    let (mut client, _, messages) =
        Client::new(Server(text("server")), settings(), Sender::new(sender), environment);
    assert_eq!(messages.len(), 3);
    let message = Encoded {
        tags: vec![],
        command: Command::Numeric(Numeric::RPL_WELCOME, strings(&["me"])),
        parsed: parsed(None),
    };
    let received = client.receive(message);
    assert_eq!(received.events.len(), 2);
    let later = client.now();
    assert!(client.now().nanos >= later.nanos);
}

#[test]
fn asks_for_what_it_can_use_in_its_own_order() {
    let mut client = client(settings());
    let received = cap(
        &mut client,
        "LS",
        Some("multi-prefix batch echo-message labeled-response unknown sasl=PLAIN,EXTERNAL"),
        None,
    );
    assert_eq!(sent(&received), vec![req("batch labeled-response echo-message sasl multi-prefix")]);
    assert!(is_shown(&received));
}

#[test]
fn asks_for_all_that_it_can_use() {
    let mut client = client(settings());
    let all = "invite-notify userhost-in-names away-notify message-tags server-time chghost \
               extended-monitor account-notify extended-join batch labeled-response echo-message \
               sasl multi-prefix";
    assert_eq!(sent(&cap(&mut client, "LS", Some(all), None)), vec![req(all)]);
}

#[test]
fn asks_neither_for_echoes_without_labels_nor_for_extended_joins_without_accounts() {
    let mut client = client(settings());
    let received = cap(&mut client, "LS", Some("echo-message extended-join batch"), None);
    assert_eq!(sent(&received), vec![req("batch")]);
}

#[test]
fn takes_the_listing_in_parts() {
    let mut client = client(settings());
    let first = cap(&mut client, "LS", Some("*"), Some("batch"));
    assert!(sent(&first).is_empty());
    assert!(is_shown(&first));
    let second = cap(&mut client, "LS", Some("chghost"), None);
    assert_eq!(sent(&second), vec![req("chghost batch")]);
}

#[test]
fn ends_the_negotiation_when_there_is_nothing_to_ask_for() {
    let mut client = client(settings());
    assert_eq!(sent(&cap(&mut client, "LS", Some("unknown"), None)), vec![text(END)]);
    let nothing = cap(&mut client, "LS", None, None);
    assert!(sent(&nothing).is_empty());
    assert!(nothing.events.is_empty());
}

#[test]
fn authenticates_when_it_was_set_and_is_granted() {
    let mut set = settings();
    set.sasl = Some(Sasl { command: text("PLAIN"), param: text("c2VjcmV0") });
    let mut client = client(set);
    let granted = cap(&mut client, "ACK", Some("batch sasl"), None);
    assert_eq!(sent(&granted), vec![text(r#"AUTHENTICATE("PLAIN")"#)]);
    let refused = cap(&mut client, "NAK", Some("other"), None);
    assert!(sent(&refused).is_empty());
    let other = receive(&mut client, Command::AUTHENTICATE(text("x")), parsed(None));
    assert!(sent(&other).is_empty());
    let ready = receive(&mut client, Command::AUTHENTICATE(text("+")), parsed(None));
    assert_eq!(sent(&ready), vec![text(r#"AUTHENTICATE("c2VjcmV0")"#), text(END)]);
    assert!(is_shown(&ready));
}

#[test]
fn does_not_authenticate_when_it_was_not_set() {
    let mut client = client(settings());
    assert_eq!(sent(&cap(&mut client, "ACK", Some("sasl"), None)), vec![text(END)]);
    let ready = receive(&mut client, Command::AUTHENTICATE(text("+")), parsed(None));
    assert!(sent(&ready).is_empty());
}

#[test]
fn ends_the_negotiation_when_it_is_refused() {
    let mut client = client(settings());
    assert_eq!(sent(&cap(&mut client, "NAK", Some("batch"), None)), vec![text(END)]);
    let again = cap(&mut client, "NAK", Some("batch"), None);
    assert!(sent(&again).is_empty());
    assert!(is_shown(&again));
    assert!(cap(&mut client, "NAK", None, None).events.is_empty());
    assert!(cap(&mut client, "ACK", None, None).events.is_empty());
    assert!(cap(&mut client, "NEW", None, None).events.is_empty());
    assert!(cap(&mut client, "DEL", None, None).events.is_empty());
}

#[test]
fn asks_for_what_is_new() {
    let mut client = client(settings());
    cap(&mut client, "LS", Some("labeled-response"), None);
    let received = cap(&mut client, "NEW", Some("echo-message sasl extended-join"), None);
    assert_eq!(sent(&received), vec![req("echo-message")]);
    let known = cap(&mut client, "NEW", Some("account-notify"), None);
    assert_eq!(sent(&known), vec![req("account-notify")]);
    let now = cap(&mut client, "NEW", Some("extended-join"), None);
    assert_eq!(sent(&now), vec![req("extended-join")]);
    assert!(sent(&cap(&mut client, "NEW", Some("unknown"), None)).is_empty());
}

#[test]
fn forgets_what_is_taken_back() {
    let mut client = client(settings());
    cap(&mut client, "LS", Some("labeled-response"), None);
    let gone = cap(&mut client, "DEL", Some("labeled-response"), None);
    assert!(is_shown(&gone));
    assert!(sent(&cap(&mut client, "NEW", Some("echo-message"), None)).is_empty());
    assert!(is_shown(&cap(&mut client, "LIST", Some("x"), None)));
}

#[test]
fn asks_for_other_nicknames_in_turn() {
    let mut set = settings();
    set.alt_nicks = strings(&["me_", "me__"]);
    let mut client = client(set);
    let refused = numeric(&mut client, Numeric::ERR_NICKNAMEINUSE, &["*", "me"]);
    assert_eq!(sent(&refused), vec![text(r#"NICK("me_")"#)]);
    let refused = numeric(&mut client, Numeric::ERR_ERRONEUSNICKNAME, &["*", "me_"]);
    assert_eq!(sent(&refused), vec![text(r#"NICK("me__")"#)]);
    let refused = numeric(&mut client, Numeric::ERR_NICKNAMEINUSE, &["*", "me__"]);
    assert!(sent(&refused).is_empty());
    let refused = numeric(&mut client, Numeric::ERR_NICKNAMEINUSE, &["*", "me"]);
    assert_eq!(sent(&refused), vec![text(r#"NICK("me_")"#)]);
    numeric(&mut client, Numeric::RPL_WELCOME, &["me_"]);
    let refused = numeric(&mut client, Numeric::ERR_NICKNAMEINUSE, &["me_", "x"]);
    assert!(sent(&refused).is_empty());
    assert!(is_shown(&refused));
}

#[test]
fn has_no_other_nickname_to_ask_for() {
    let mut client = client(settings());
    let refused = numeric(&mut client, Numeric::ERR_NICKNAMEINUSE, &["*", "me"]);
    assert!(sent(&refused).is_empty());
}

#[test]
fn takes_the_nickname_that_it_is_welcomed_by() {
    let mut client = client(settings());
    assert!(numeric(&mut client, Numeric::RPL_WELCOME, &[]).events.is_empty());
    assert_eq!(client.nickname(), "me");
    let received = numeric(&mut client, Numeric::RPL_WELCOME, &["other", "Welcome"]);
    assert_eq!(client.nickname(), "other");
    assert_eq!(client.resolved_nick, Some(text("other")));
    assert!(sent(&received).is_empty());
    assert_eq!(received.events.len(), 2);
    assert!(matches!(&received.events[0], Event::NickUpdated(nick) if nick == "other"));
    assert!(is_shown(&received));
}

#[test]
fn greets_the_server_with_all_that_was_set() {
    let mut set = settings();
    set.nick_password = Some(text("pw"));
    set.should_ghost = true;
    set.ghost_sequence = strings(&["REGAIN", "GHOST"]);
    set.umodes = Some(text("+x"));
    set.on_connect = vec![Some(Command::AWAY(None)), None, Some(Command::TAGMSG(text("x")))];
    set.channels = strings(&["#a", "#b"]);
    set.channel_keys.insert(text("#b"), text("key"));
    let mut client = client(set);
    let received = numeric(&mut client, Numeric::RPL_WELCOME, &["other"]);
    assert_eq!(
        sent(&received),
        strings(&[
            r#"PRIVMSG("NickServ", "REGAIN me pw")"#,
            r#"PRIVMSG("NickServ", "GHOST me pw")"#,
            r#"PRIVMSG("NickServ", "IDENTIFY me pw")"#,
            r#"MODE("other", Some("+x"), None)"#,
            "AWAY(None)",
            r#"TAGMSG("x")"#,
            r##"JOIN("#a", None)"##,
            r##"JOIN("#b", Some("key"))"##,
        ])
    );
}

#[test]
fn identifies_in_the_order_that_was_set() {
    let identify = |syntax: Option<IdentifySyntax>, nick: &str| {
        let mut set = settings();
        set.nick_password = Some(text("pw"));
        set.nick_identify_syntax = syntax;
        let mut client = client(set);
        sent(&numeric(&mut client, Numeric::RPL_WELCOME, &[nick]))
    };
    let word = |word: &str| vec![format!(r#"PRIVMSG("NickServ", "{word}")"#)];
    assert_eq!(identify(Some(IdentifySyntax::PasswordNick), "me"), word("IDENTIFY pw me"));
    assert_eq!(identify(Some(IdentifySyntax::NickPassword), "me"), word("IDENTIFY me pw"));
    assert_eq!(identify(None, "me"), word("IDENTIFY pw"));
    assert_eq!(identify(None, "other"), word("IDENTIFY me pw"));
}

#[test]
fn recovers_no_nickname_that_it_has() {
    let mut set = settings();
    set.nick_password = Some(text("pw"));
    set.should_ghost = true;
    set.ghost_sequence = strings(&["REGAIN"]);
    let mut client = client(set);
    let received = numeric(&mut client, Numeric::RPL_WELCOME, &["me"]);
    assert_eq!(sent(&received), vec![text(r#"PRIVMSG("NickServ", "IDENTIFY pw")"#)]);
}

#[test]
fn modes_join_nothing_where_accounts_are_told() {
    let mut set = settings();
    set.channels = strings(&["#a"]);
    let mut client = client(set);
    cap(&mut client, "ACK", Some("account-notify"), None);
    numeric(&mut client, Numeric::ERR_NOCHANMODES, &["me", "#a"]);
    let mut registered = parsed(None);
    registered.user_modes =
        vec![user_mode(Some(Operation::Add), UserModeKind::Registered, None)];
    let command = Command::MODE(text("me"), Some(text("+r")), Some(vec![]));
    assert!(sent(&receive(&mut client, command, registered)).is_empty());
    assert_eq!(sent(&numeric(&mut client, Numeric::RPL_LOGGEDIN, &[])).len(), 1);
}

#[test]
fn joins_channels_that_waited_for_the_account() {
    let mut set = settings();
    set.channels = strings(&["#a", "#b"]);
    let mut client = client(set);
    assert!(numeric(&mut client, Numeric::ERR_NOCHANMODES, &["me"]).events.is_empty());
    assert!(is_shown(&numeric(&mut client, Numeric::ERR_NOCHANMODES, &["me", "#a"])));
    numeric(&mut client, Numeric::ERR_NOCHANMODES, &["me", "#unset"]);
    numeric(&mut client, Numeric::ERR_NOCHANMODES, &["me", "#b"]);
    let received = numeric(&mut client, Numeric::RPL_LOGGEDIN, &["acct"]);
    assert_eq!(sent(&received), vec![text(r##"JOIN("#a,#b", None)"##)]);
    assert!(is_shown(&received));
    assert!(sent(&numeric(&mut client, Numeric::RPL_LOGGEDIN, &["acct"])).is_empty());
}

#[test]
fn a_login_without_an_account_still_joins() {
    let mut set = settings();
    set.channels = strings(&["#a"]);
    let mut client = client(set);
    numeric(&mut client, Numeric::ERR_NOCHANMODES, &["me", "#a"]);
    let received = numeric(&mut client, Numeric::RPL_LOGGEDIN, &[]);
    assert_eq!(sent(&received).len(), 1);
    assert!(received.events.is_empty());
}

#[test]
fn an_account_or_a_mode_joins_too() {
    let mut set = settings();
    set.channels = strings(&["#a"]);
    let mut client = client(set);
    numeric(&mut client, Numeric::ERR_NOCHANMODES, &["me", "#a"]);
    let star = receive(&mut client, Command::ACCOUNT(text("*")), parsed(Some("me")));
    assert!(sent(&star).is_empty());
    let other = receive(&mut client, Command::ACCOUNT(text("acct")), parsed(Some("you")));
    assert!(sent(&other).is_empty());
    assert!(receive(&mut client, Command::ACCOUNT(text("acct")), parsed(None)).events.is_empty());
    let ours = receive(&mut client, Command::ACCOUNT(text("acct")), parsed(Some("me")));
    assert_eq!(sent(&ours), vec![text(r##"JOIN("#a", None)"##)]);
    let again = receive(&mut client, Command::ACCOUNT(text("acct")), parsed(Some("me")));
    assert!(sent(&again).is_empty());

    numeric(&mut client, Numeric::ERR_NOCHANMODES, &["me", "#a"]);
    let mode = |modes: Vec<UserMode>| {
        let mut parsed = parsed(None);
        parsed.user_modes = modes;
        (Command::MODE(text("me"), Some(text("+r")), Some(vec![])), parsed)
    };
    let (command, unregistered) = mode(vec![
        user_mode(Some(Operation::Remove), UserModeKind::Registered, None),
        user_mode(Some(Operation::Add), UserModeKind::Registered, Some("x")),
        user_mode(None, UserModeKind::Registered, None),
        user_mode(Some(Operation::Add), UserModeKind::Other(text("i")), None),
    ]);
    assert!(sent(&receive(&mut client, command, unregistered)).is_empty());
    let registered = || {
        mode(vec![
            user_mode(Some(Operation::Add), UserModeKind::Other(text("i")), None),
            user_mode(Some(Operation::Add), UserModeKind::Registered, None),
        ])
    };
    let (command, modes) = registered();
    assert_eq!(sent(&receive(&mut client, command, modes)).len(), 1);
    let (command, modes) = registered();
    assert!(sent(&receive(&mut client, command, modes)).is_empty());
}

#[test]
fn keeps_what_the_server_supports() {
    let mut set = settings();
    set.monitor = strings(&["a", "b", "c"]);
    let mut client = client(set);
    let isupport = |operations: Vec<Option<Announcement>>| {
        let mut parsed = parsed(None);
        parsed.isupport = operations;
        (Command::Numeric(Numeric::RPL_ISUPPORT, strings(&["me"])), parsed)
    };
    let (command, nothing) = isupport(vec![
        None,
        Some(Announcement::Remove(None)),
        Some(Announcement::Add(Parameter::Other(None, text("X=1")))),
    ]);
    let received = receive(&mut client, command, nothing);
    assert!(received.events.is_empty() && received.sent.is_empty());

    let (command, whox) = isupport(vec![
        None,
        Some(Announcement::Add(Parameter::WHOX)),
        Some(Announcement::Add(Parameter::MONITOR(Some(2)))),
    ]);
    let received = receive(&mut client, command, whox);
    match &received.events[..] {
        [Event::IsupportUpdated(map)] => assert_eq!(map.keys(), strings(&["WHOX"])),
        other => panic!("{other:?}"),
    }

    let (command, monitor) = isupport(vec![Some(Announcement::Add(Parameter::MONITOR(Some(2))))]);
    let received = receive(&mut client, command, monitor);
    assert_eq!(sent(&received), vec![text(r#"MONITOR("+", Some("a,b"))"#)]);
    match &received.events[..] {
        [Event::IsupportUpdated(map)] => assert_eq!(map.keys(), strings(&["MONITOR", "WHOX"])),
        other => panic!("{other:?}"),
    }

    let (command, removed) = isupport(vec![Some(Announcement::Remove(Some(text("WHOX"))))]);
    let received = receive(&mut client, command, removed);
    match &received.events[..] {
        [Event::IsupportUpdated(map)] => assert_eq!(map.keys(), strings(&["MONITOR"])),
        other => panic!("{other:?}"),
    }
}
