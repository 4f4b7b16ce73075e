//! The channels of a client, the users in them, and their state.

use futures::channel::mpsc;
use irc_client::buffer::Server;
use irc_client::channel::{Channel, WhoStatus};
use irc_client::client::exchange::Received;
use irc_client::client::who::WhoReason;
use irc_client::client::{Client, Environment, Outgoing};
use irc_client::config;
use irc_client::event::{Broadcast, Event, Notification};
use irc_client::isupport::{Operation as Announcement, Parameter, WhoToken};
use irc_client::message::{ChannelMode, Encoded, Parsed};
use irc_client::proto::{Command, Numeric};
use irc_client::sender::Sender;
use irc_client::string_map::StringMap;
use irc_client::time::{Clock, DateTime, Instant};
use irc_client::user::{AccessLevel, Operation, User, UserSet};

fn text(value: &str) -> String {
    value.to_string()
}

fn strings(list: &[&str]) -> Vec<String> {
    list.iter().map(|value| value.to_string()).collect()
}

fn client() -> Client {
    let settings = config::Server {
        nickname: text("me"),
        username: None,
        realname: None,
        password: None,
        nick_password: None,
        nick_identify_syntax: None,
        should_ghost: false,
        ghost_sequence: vec![],
        alt_nicks: vec![],
        umodes: None,
        on_connect: vec![],
        channels: vec![],
        channel_keys: StringMap::new(),
        monitor: vec![],
        sasl: None,
        who_poll_interval: 100,
        who_retry_interval: 10,
    };
    let environment = Environment {
        source_website: text("https://example.org"),
        version: text("1.0"),
        who_poll_token: WhoToken { text: text("9") },
    };
    let (sender, _) = mpsc::channel(4);
    let (client, _, _) = Client::new_at(
        Server(text("server")),
        settings,
        Sender::new(sender),
        environment,
        Clock::start(),
        Instant { nanos: 0 },
    );
    client
}

const TIME: DateTime = DateTime { seconds: 1, nanos: 2 };

fn parsed(nick: Option<&str>) -> Parsed {
    Parsed {
        user: nick.map(|nick| User::named(text(nick))),
        server_time: TIME,
        dcc: None,
        is_query: false,
        is_action: false,
        query: None,
        references_us: false,
        users: vec![],
        channel_modes: vec![],
        user_modes: vec![],
        isupport: vec![],
        who_token: None,
    }
}

fn receive_parsed(client: &mut Client, command: Command, parsed: Parsed) -> Received {
    let message = Encoded { tags: vec![], command, parsed };
    assert!(client.accepts(&message));
    client.receive_at(message, Instant { nanos: 50 })
}

fn receive(client: &mut Client, nick: Option<&str>, command: Command) -> Received {
    receive_parsed(client, command, parsed(nick))
}

fn numeric(client: &mut Client, numeric: Numeric, args: &[&str]) -> Received {
    receive(client, None, Command::Numeric(numeric, strings(args)))
}

fn join(client: &mut Client, nick: &str, channel: &str) -> Received {
    receive(client, Some(nick), Command::JOIN(text(channel), None))
}

fn whox(client: &mut Client) {
    let mut parsed = parsed(None);
    parsed.isupport = vec![Some(Announcement::Add(Parameter::WHOX))];
    receive_parsed(client, Command::Numeric(Numeric::RPL_ISUPPORT, vec![]), parsed);
}

fn sent(received: &Received) -> Vec<String> {
    received
        .sent
        .iter()
        .map(|outgoing| match outgoing {
            Outgoing::Message(message) => format!("{:?}", message.command),
            Outgoing::Ctcp { .. } => panic!("an answer to a question"),
        })
        .collect()
}

fn is_shown(received: &Received) -> bool {
    matches!(&received.events[..], [Event::Single(_)])
}

fn nicks(client: &Client, channel: &str) -> Vec<String> {
    let mut nicks: Vec<String> = client
        .chanmap
        .get(channel)
        .map(|channel| channel.users.sorted())
        .unwrap_or_default()
        .into_iter()
        .map(|user| user.nickname)
        .collect();
    nicks.sort();
    nicks
}

fn known<'a>(client: &'a Client, channel: &str, nick: &str) -> &'a User {
    client
        .resolve_user_attributes(channel, &User::named(text(nick)))
        .expect("a known user")
}

fn who(client: &Client, channel: &str) -> String {
    format!("{:?}", client.chanmap.get(channel).and_then(|channel| channel.last_who.clone()))
}

#[test]
fn joining_begins_a_channel_and_asks_about_it() {
    let mut client = client();
    let received = join(&mut client, "me", "#a");
    assert_eq!(sent(&received), vec![text(r##"WHO("#a", None, None)"##)]);
    assert!(is_shown(&received));
    assert_eq!(who(&client, "#a"), "Some(Requested(Instant { nanos: 50 }, None))");
    assert_eq!(client.chanmap.keys(), strings(&["#a"]));

    whox(&mut client);
    let received = join(&mut client, "me", "#b");
    assert_eq!(sent(&received), vec![text(r##"WHO("#b", Some("tcnf"), Some("9"))"##)]);
    let command = Command::CAP(None, text("ACK"), Some(text("account-notify")), None);
    receive(&mut client, None, command);
    let received = join(&mut client, "me", "#c");
    assert_eq!(sent(&received), vec![text(r##"WHO("#c", Some("tcnfa"), Some("9"))"##)]);
}

#[test]
fn joining_again_begins_anew() {
    let mut client = client();
    join(&mut client, "me", "#a");
    join(&mut client, "you", "#a");
    assert_eq!(nicks(&client, "#a"), strings(&["you"]));
    join(&mut client, "me", "#a");
    assert!(nicks(&client, "#a").is_empty());
}

#[test]
fn users_come_and_go() {
    let mut client = client();
    join(&mut client, "me", "#a");
    join(&mut client, "me", "#b");
    join(&mut client, "x", "#a");
    join(&mut client, "y", "#a");
    join(&mut client, "y", "#b");
    assert!(is_shown(&join(&mut client, "y", "#unknown")));
    assert_eq!(nicks(&client, "#a"), strings(&["x", "y"]));
    let left = receive(&mut client, Some("x"), Command::PART(text("#a"), None));
    assert!(is_shown(&left));
    assert_eq!(nicks(&client, "#a"), strings(&["y"]));
    receive(&mut client, Some("op"), Command::KICK(text("#a"), text("y"), None));
    assert!(nicks(&client, "#a").is_empty());
    assert_eq!(nicks(&client, "#b"), strings(&["y"]));
    receive(&mut client, Some("op"), Command::KICK(text("#b"), text("me"), None));
    assert_eq!(client.chanmap.keys(), strings(&["#a"]));
    receive(&mut client, Some("me"), Command::PART(text("#a"), None));
    assert!(client.chanmap.is_empty());
    assert!(receive(&mut client, None, Command::PART(text("#a"), None)).events.is_empty());
    assert!(receive(&mut client, None, Command::JOIN(text("#a"), None)).events.is_empty());
}

#[test]
fn joining_tells_the_account_only_where_that_is_supported() {
    let mut client = client();
    join(&mut client, "me", "#a");
    let extended = |nick: &str| (Some(text(nick)), Command::JOIN(text("#a"), Some(text("acct"))));
    let (nick, command) = extended("x");
    receive(&mut client, nick.as_deref(), command);
    assert_eq!(known(&client, "#a", "x").accountname, None);
    let command = Command::CAP(None, text("ACK"), Some(text("extended-join")), None);
    receive(&mut client, None, command);
    let (nick, command) = extended("y");
    receive(&mut client, nick.as_deref(), command);
    assert_eq!(known(&client, "#a", "y").accountname, Some(text("acct")));
    let (nick, command) = extended("x");
    receive(&mut client, nick.as_deref(), command);
    assert_eq!(known(&client, "#a", "x").accountname, None);
}

#[test]
fn quitting_leaves_every_channel() {
    let mut client = client();
    join(&mut client, "me", "#a");
    join(&mut client, "me", "#b");
    join(&mut client, "x", "#a");
    join(&mut client, "x", "#b");
    join(&mut client, "y", "#b");
    let received = receive(&mut client, Some("x"), Command::QUIT(Some(text("bye"))));
    match &received.events[..] {
        [Event::Broadcast(Broadcast::Quit { user, comment, channels, sent_time })] => {
            assert_eq!(user.nickname, "x");
            assert_eq!(comment, &Some(text("bye")));
            assert!(channels.is_empty());
            assert_eq!(*sent_time, TIME);
        }
        other => panic!("{other:?}"),
    }
    assert!(nicks(&client, "#a").is_empty());
    assert_eq!(nicks(&client, "#b"), strings(&["y"]));
    assert!(receive(&mut client, None, Command::QUIT(None)).events.is_empty());
}

#[test]
fn a_new_nickname_is_known_everywhere() {
    let mut client = client();
    join(&mut client, "me", "#a");
    join(&mut client, "x", "#a");
    receive(&mut client, Some("x"), Command::AWAY(Some(text("gone"))));
    let received = receive(&mut client, Some("x"), Command::NICK(text("z")));
    match &received.events[..] {
        [Event::Broadcast(Broadcast::Nickname { old_user, new_nick, ourself, channels, .. })] => {
            assert_eq!(old_user.nickname, "x");
            assert_eq!(new_nick.0, "z");
            assert!(!ourself);
            assert!(channels.is_empty());
        }
        other => panic!("{other:?}"),
    }
    assert_eq!(nicks(&client, "#a"), strings(&["z"]));
    assert!(known(&client, "#a", "z").away);

    let received = receive(&mut client, Some("me"), Command::NICK(text("you")));
    assert_eq!(client.nickname(), "you");
    assert_eq!(received.events.len(), 2);
    assert!(matches!(&received.events[0], Event::NickUpdated(nick) if nick == "you"));
    assert!(receive(&mut client, None, Command::NICK(text("x"))).events.is_empty());
}

#[test]
fn a_nickname_that_is_taken_stays_with_its_user() {
    let mut client = client();
    join(&mut client, "me", "#a");
    join(&mut client, "x", "#a");
    join(&mut client, "y", "#a");
    receive(&mut client, Some("x"), Command::AWAY(Some(text("gone"))));
    receive(&mut client, Some("x"), Command::NICK(text("y")));
    assert_eq!(nicks(&client, "#a"), strings(&["y"]));
    assert!(!known(&client, "#a", "y").away);
}

#[test]
fn an_invitation_names_the_channels_of_the_invited() {
    let mut client = client();
    join(&mut client, "me", "#b");
    join(&mut client, "me", "#a");
    join(&mut client, "x", "#a");
    join(&mut client, "x", "#b");
    let received =
        receive(&mut client, Some("op"), Command::INVITE(text("x"), text("#party")));
    match &received.events[..] {
        [Event::Broadcast(Broadcast::Invite { inviter, channel, user_channels, .. })] => {
            assert_eq!(inviter.nickname, "op");
            assert_eq!(channel, "#party");
            assert_eq!(user_channels, &strings(&["#a", "#b"]));
        }
        other => panic!("{other:?}"),
    }
    let none = receive(&mut client, None, Command::INVITE(text("x"), text("#party")));
    assert!(none.events.is_empty());
}

#[test]
fn hosts_accounts_and_absence_are_recorded() {
    let mut client = client();
    join(&mut client, "me", "#a");
    join(&mut client, "me", "#b");
    join(&mut client, "x", "#a");
    join(&mut client, "x", "#b");
    join(&mut client, "me2", "#b");
    let received =
        receive(&mut client, Some("x"), Command::CHGHOST(text("user"), text("host")));
    match &received.events[..] {
        [Event::Broadcast(Broadcast::ChangeHost { new_username, channels, ourself, .. })] => {
            assert_eq!(new_username, "user");
            assert_eq!(channels, &strings(&["#a", "#b"]));
            assert!(!ourself);
        }
        other => panic!("{other:?}"),
    }
    assert_eq!(known(&client, "#b", "x").hostname, Some(text("host")));
    receive(&mut client, Some("x"), Command::ACCOUNT(text("acct")));
    assert_eq!(known(&client, "#a", "x").accountname, Some(text("acct")));
    receive(&mut client, Some("x"), Command::AWAY(Some(text("gone"))));
    assert!(known(&client, "#a", "x").away && known(&client, "#b", "x").away);
    receive(&mut client, Some("x"), Command::AWAY(None));
    assert!(!known(&client, "#a", "x").away);
    assert!(receive(&mut client, None, Command::AWAY(None)).events.is_empty());
    assert!(receive(&mut client, None, Command::CHGHOST(text("u"), text("h"))).events.is_empty());
}

#[test]
fn the_own_account_and_absence_are_recorded() {
    let mut client = client();
    join(&mut client, "me", "#a");
    let names = |client: &mut Client, list: Vec<Option<User>>| {
        let mut parsed = parsed(None);
        parsed.users = list;
        let args = strings(&["me", "=", "#a", "names"]);
        receive_parsed(client, Command::Numeric(Numeric::RPL_NAMREPLY, args), parsed)
    };
    names(&mut client, vec![Some(User::named(text("me")))]);
    numeric(&mut client, Numeric::RPL_LOGGEDIN, &["acct"]);
    assert_eq!(known(&client, "#a", "me").accountname, Some(text("acct")));
    numeric(&mut client, Numeric::RPL_LOGGEDOUT, &[]);
    assert_eq!(known(&client, "#a", "me").accountname, Some(text("*")));

    let away = |client: &mut Client, numeric: Numeric, user: Option<User>| {
        let mut parsed = parsed(None);
        parsed.users = vec![user];
        receive_parsed(client, Command::Numeric(numeric, strings(&["name"])), parsed)
    };
    away(&mut client, Numeric::RPL_NOWAWAY, Some(User::named(text("me"))));
    assert!(known(&client, "#a", "me").away);
    away(&mut client, Numeric::RPL_UNAWAY, Some(User::named(text("x"))));
    assert!(known(&client, "#a", "me").away);
    assert!(away(&mut client, Numeric::RPL_UNAWAY, None).events.is_empty());
    away(&mut client, Numeric::RPL_UNAWAY, Some(User::named(text("me"))));
    assert!(!known(&client, "#a", "me").away);
    assert!(numeric(&mut client, Numeric::RPL_UNAWAY, &[]).events.is_empty());
}

#[test]
fn modes_give_and_take_access() {
    let mut client = client();
    join(&mut client, "me", "#a");
    join(&mut client, "x", "#a");
    let mode = |operation, arg: Option<&str>, level| ChannelMode {
        operation,
        arg: arg.map(text),
        level,
    };
    let change = |client: &mut Client, channel: &str, modes: Vec<ChannelMode>| {
        let mut parsed = parsed(Some("op"));
        parsed.channel_modes = modes;
        let command = Command::MODE(text(channel), Some(text("+o")), Some(strings(&["x"])));
        receive_parsed(client, command, parsed)
    };
    let received = change(
        &mut client,
        "#a",
        vec![
            mode(Some(Operation::Add), Some("x"), Some(AccessLevel::Oper)),
            mode(Some(Operation::Add), Some("x"), Some(AccessLevel::Voice)),
            mode(Some(Operation::Add), Some("nobody"), Some(AccessLevel::Oper)),
            mode(Some(Operation::Add), None, Some(AccessLevel::Owner)),
            mode(Some(Operation::Add), Some("x"), None),
            mode(None, Some("x"), Some(AccessLevel::Admin)),
        ],
    );
    assert!(is_shown(&received));
    let user = known(&client, "#a", "x");
    assert!(user.has_access_level(AccessLevel::Oper) && user.has_access_level(AccessLevel::Voice));
    assert!(!user.has_access_level(AccessLevel::Admin));
    change(
        &mut client,
        "#a",
        vec![mode(Some(Operation::Remove), Some("x"), Some(AccessLevel::Oper))],
    );
    let user = known(&client, "#a", "x");
    assert!(!user.has_access_level(AccessLevel::Oper));
    assert!(user.has_access_level(AccessLevel::Voice));
    assert!(is_shown(&change(&mut client, "#unknown", vec![])));
}

#[test]
fn the_names_that_come_with_joining_are_not_shown() {
    let mut client = client();
    join(&mut client, "me", "#a");
    let names = |client: &mut Client, channel: &str, list: &[Option<&str>]| {
        let mut parsed = parsed(None);
        parsed.users =
            list.iter().map(|nick| nick.map(|nick| User::named(text(nick)))).collect();
        let args = strings(&["me", "=", channel, "names"]);
        receive_parsed(client, Command::Numeric(Numeric::RPL_NAMREPLY, args), parsed)
    };
    let first = names(&mut client, "#a", &[Some("x"), None, Some("y"), Some("x")]);
    assert!(first.events.is_empty());
    assert_eq!(nicks(&client, "#a"), strings(&["x", "y"]));
    assert!(numeric(&mut client, Numeric::RPL_ENDOFNAMES, &["me"]).events.is_empty());
    assert!(numeric(&mut client, Numeric::RPL_ENDOFNAMES, &["me", "#a"]).events.is_empty());
    assert!(is_shown(&names(&mut client, "#a", &[Some("z")])));
    assert!(is_shown(&numeric(&mut client, Numeric::RPL_ENDOFNAMES, &["me", "#a"])));
    assert_eq!(nicks(&client, "#a"), strings(&["x", "y", "z"]));
    assert!(is_shown(&names(&mut client, "#b", &[Some("z")])));
    assert!(is_shown(&numeric(&mut client, Numeric::RPL_NAMREPLY, &["me", "=", "#a"])));
    assert!(is_shown(&numeric(&mut client, Numeric::RPL_ENDOFNAMES, &["me", "x"])));
}

#[test]
fn topics_are_recorded_with_their_author() {
    let mut client = client();
    join(&mut client, "me", "#a");
    let mut by_x = parsed(Some("x"));
    if let Some(user) = &mut by_x.user {
        user.username = Some(text("xuser"));
    }
    receive_parsed(&mut client, Command::TOPIC(text("#a"), Some(text("first"))), by_x);
    let topic = &client.chanmap.get("#a").unwrap().topic;
    assert_eq!(topic.content.as_ref().unwrap().text, "first");
    assert_eq!(topic.who, Some(text("xuser")));
    assert_eq!(topic.time, Some(TIME));

    receive(&mut client, None, Command::TOPIC(text("#a"), None));
    let topic = &client.chanmap.get("#a").unwrap().topic;
    assert_eq!(topic.content.as_ref().unwrap().text, "first");
    assert_eq!(topic.who, None);

    numeric(&mut client, Numeric::RPL_TOPIC, &["me", "#a", "second"]);
    assert!(numeric(&mut client, Numeric::RPL_TOPIC, &["me", "#a"]).events.is_empty());
    assert!(is_shown(&numeric(&mut client, Numeric::RPL_TOPIC, &["me", "#b"])));
    let topic = &client.chanmap.get("#a").unwrap().topic;
    assert_eq!(topic.content.as_ref().unwrap().text, "second");
}

#[test]
fn the_author_of_a_topic_is_recorded_even_without_a_time() {
    let mut client = client();
    join(&mut client, "me", "#a");
    let told = |client: &mut Client, args: &[&str]| numeric(client, Numeric::RPL_TOPICWHOTIME, args);
    assert!(told(&mut client, &["me", "#a"]).events.is_empty());
    assert!(told(&mut client, &["me", "#a", "x"]).events.is_empty());
    assert_eq!(client.chanmap.get("#a").unwrap().topic.who, Some(text("x")));
    assert!(told(&mut client, &["me", "#a", "y", "soon"]).events.is_empty());
    assert_eq!(client.chanmap.get("#a").unwrap().topic.who, Some(text("y")));
    assert!(told(&mut client, &["me", "#a", "z", "18446744073709551615"]).events.is_empty());
    assert_eq!(client.chanmap.get("#a").unwrap().topic.time, None);
    assert!(is_shown(&told(&mut client, &["me", "#a", "z", "1700000000"])));
    let time = DateTime { seconds: 1_700_000_000, nanos: 0 };
    assert_eq!(client.chanmap.get("#a").unwrap().topic.time, Some(time));
    assert!(is_shown(&told(&mut client, &["me", "#b"])));
}

#[test]
fn messages_about_topics_may_lack_parts() {
    let mut client = client();
    join(&mut client, "me", "#a");
    let message = |command, nick: Option<&str>| Encoded {
        tags: vec![],
        command,
        parsed: parsed(nick),
    };
    let reply = |numeric, args: &[&str]| Command::Numeric(numeric, strings(args));
    assert!(!client.accepts(&message(reply(Numeric::RPL_TOPIC, &["me"]), None)));
    assert!(!client.accepts(&message(reply(Numeric::RPL_TOPICWHOTIME, &[]), None)));
    assert!(client.accepts(&message(reply(Numeric::RPL_TOPIC, &["me", "#a"]), None)));
    assert!(!client.accepts(&message(Command::TOPIC(text("#a"), None), Some("x"))));
    assert!(client.accepts(&message(Command::TOPIC(text("#b"), None), Some("x"))));
    assert!(client.accepts(&message(Command::TOPIC(text("#a"), None), None)));
}

#[test]
fn answers_to_a_request_are_taken_in_and_not_shown() {
    let mut client = client();
    join(&mut client, "me", "#a");
    join(&mut client, "x", "#a");
    let reply = |client: &mut Client, flags: &str| {
        let args = ["me", "#a", "u", "h", "s", "x", flags, "0 real"];
        numeric(client, Numeric::RPL_WHOREPLY, &args)
    };
    assert!(numeric(&mut client, Numeric::RPL_WHOREPLY, &["me"]).events.is_empty());
    assert!(numeric(&mut client, Numeric::RPL_WHOREPLY, &["me", "#a", "u"]).events.is_empty());
    assert_eq!(who(&client, "#a"), "Some(Requested(Instant { nanos: 50 }, None))");
    assert!(reply(&mut client, "G@").events.is_empty());
    assert!(known(&client, "#a", "x").away);
    assert_eq!(who(&client, "#a"), "Some(Receiving(None))");
    reply(&mut client, "H");
    assert!(!known(&client, "#a", "x").away);
    reply(&mut client, "G");
    reply(&mut client, "?");
    assert!(known(&client, "#a", "x").away);
    assert!(numeric(&mut client, Numeric::RPL_ENDOFWHO, &["me", "#a"]).events.is_empty());
    assert_eq!(who(&client, "#a"), "Some(Done(Instant { nanos: 50 }))");
    assert!(is_shown(&numeric(&mut client, Numeric::RPL_ENDOFWHO, &["me", "#a"])));
    assert!(is_shown(&reply(&mut client, "H")));
    assert!(is_shown(&numeric(&mut client, Numeric::RPL_ENDOFWHO, &["me", "x"])));
    assert!(numeric(&mut client, Numeric::RPL_ENDOFWHO, &["me"]).events.is_empty());
}

#[test]
fn a_request_is_done_when_its_answers_end() {
    let mut client = client();
    join(&mut client, "me", "#a");
    for nick in ["x", "y", "z"] {
        let args = ["me", "#a", "u", "h", "s", nick, "H", "0 real"];
        assert!(numeric(&mut client, Numeric::RPL_WHOREPLY, &args).events.is_empty());
    }
    let mut end = |nanos: u64| {
        let command = Command::Numeric(Numeric::RPL_ENDOFWHO, strings(&["me", "#a"]));
        let message = Encoded { tags: vec![], command, parsed: parsed(None) };
        client.receive_at(message, Instant { nanos: nanos.into() })
    };
    assert!(end(70).events.is_empty());
    assert!(is_shown(&end(80)));
    assert_eq!(who(&client, "#a"), "Some(Done(Instant { nanos: 70 }))");
}

#[test]
fn answers_are_known_by_their_token() {
    let mut client = client();
    whox(&mut client);
    join(&mut client, "me", "#a");
    join(&mut client, "x", "#a");
    let reply = |client: &mut Client, token: Option<&str>| {
        let mut parsed = parsed(None);
        parsed.who_token = token.map(|token| WhoToken { text: text(token) });
        let args = strings(&["me", "t", "#a", "x", "G", "acct"]);
        receive_parsed(client, Command::Numeric(Numeric::RPL_WHOSPCRPL, args), parsed)
    };
    assert!(numeric(&mut client, Numeric::RPL_WHOSPCRPL, &["me", "9"]).events.is_empty());
    assert!(numeric(&mut client, Numeric::RPL_WHOSPCRPL, &["me", "9", "#a"]).events.is_empty());
    assert!(is_shown(&reply(&mut client, Some("8"))));
    assert!(is_shown(&reply(&mut client, None)));
    assert!(known(&client, "#a", "x").away);
    assert_eq!(known(&client, "#a", "x").accountname, None);
    assert!(reply(&mut client, Some("9")).events.is_empty());
    assert_eq!(who(&client, "#a"), r#"Some(Receiving(Some(WhoToken { text: "9" })))"#);
    let command = Command::CAP(None, text("ACK"), Some(text("account-notify")), None);
    receive(&mut client, None, command);
    assert!(reply(&mut client, None).events.is_empty());
    assert_eq!(known(&client, "#a", "x").accountname, Some(text("acct")));
}

#[test]
fn requests_are_repeated_in_time() {
    let mut client = client();
    join(&mut client, "me", "#b");
    join(&mut client, "me", "#a");
    assert!(client.tick(Instant { nanos: 59 }).is_empty());
    let due = client.tick(Instant { nanos: 60 });
    assert_eq!(due.len(), 2);
    assert_eq!(due[0].channel, "#a");
    assert_eq!(due[1].channel, "#b");
    assert_eq!(due[0].reason, WhoReason::Retry);
    assert_eq!(format!("{:?}", due[0].message.command), r##"WHO("#a", None, None)"##);
    client.who_requested("#a", Instant { nanos: 61 });
    client.who_requested("#unknown", Instant { nanos: 61 });
    assert_eq!(who(&client, "#a"), "Some(Requested(Instant { nanos: 61 }, None))");
    let due = client.tick(Instant { nanos: 62 });
    assert_eq!(due.len(), 1);
    assert_eq!(due[0].channel, "#b");
}

#[test]
fn the_state_of_users_is_polled_unless_the_server_tells_it() {
    let mut client = client();
    join(&mut client, "me", "#a");
    let args = ["me", "#a", "u", "h", "s", "x", "H"];
    numeric(&mut client, Numeric::RPL_WHOREPLY, &args);
    assert!(client.tick(Instant { nanos: 1000 }).is_empty());
    numeric(&mut client, Numeric::RPL_ENDOFWHO, &["me", "#a"]);
    assert!(client.tick(Instant { nanos: 149 }).is_empty());
    let due = client.tick(Instant { nanos: 150 });
    assert_eq!(due.len(), 1);
    assert_eq!(due[0].reason, WhoReason::Poll);
    let command = Command::CAP(None, text("ACK"), Some(text("away-notify")), None);
    receive(&mut client, None, command);
    assert!(client.tick(Instant { nanos: 1000 }).is_empty());
}

#[test]
fn watched_users_are_told_of() {
    let mut client = client();
    let mut online = parsed(None);
    online.users = vec![Some(User::named(text("x"))), None, Some(User::named(text("y")))];
    let command = Command::Numeric(Numeric::RPL_MONONLINE, strings(&["me", "x,?,y"]));
    let received = receive_parsed(&mut client, command, online);
    match &received.events[..] {
        [Event::Notification(_, Notification::MonitoredOnline(users))] => {
            let nicks: Vec<&str> = users.iter().map(|user| user.nickname()).collect();
            assert_eq!(nicks, vec!["x", "y"]);
        }
        other => panic!("{other:?}"),
    }
    let received = numeric(&mut client, Numeric::RPL_MONOFFLINE, &["me", "x,y"]);
    match &received.events[..] {
        [Event::Notification(_, Notification::MonitoredOffline(nicks))] => {
            let nicks: Vec<&str> = nicks.iter().map(|nick| nick.0.as_str()).collect();
            assert_eq!(nicks, vec!["x", "y"]);
        }
        other => panic!("{other:?}"),
    }
    assert!(numeric(&mut client, Numeric::RPL_MONONLINE, &["me"]).events.is_empty());
    assert!(numeric(&mut client, Numeric::RPL_MONOFFLINE, &["me"]).events.is_empty());
    assert!(numeric(&mut client, Numeric::RPL_ENDOFMONLIST, &["me"]).events.is_empty());
    assert!(receive(&mut client, None, Command::TAGMSG(text("x"))).events.is_empty());
    assert!(is_shown(&numeric(&mut client, Numeric::Other(5), &["me"])));
}

#[test]
fn users_are_listed_by_rank_and_name() {
    let user = |nick: &str, levels: Vec<AccessLevel>| {
        let mut user = User::named(text(nick));
        user.access_levels = levels;
        user
    };
    let mut users = UserSet::new();
    assert!(users.insert(user("b", vec![])));
    assert!(users.insert(user("a", vec![])));
    assert!(users.insert(user("z", vec![AccessLevel::Voice, AccessLevel::Owner])));
    assert!(users.insert(user("y", vec![AccessLevel::Voice])));
    assert!(!users.insert(user("a", vec![AccessLevel::Owner])));
    assert_eq!(users.len(), 4);
    let listed: Vec<String> = users.sorted().into_iter().map(|user| user.nickname).collect();
    assert_eq!(listed, strings(&["z", "y", "a", "b"]));
    assert!(users.remove("y"));
    assert!(!users.remove("y"));
    assert!(!users.contains("y"));
    assert_eq!(users.take("z").map(|user| user.nickname), Some(text("z")));
}

#[test]
fn a_channel_takes_in_what_it_is_told() {
    let mut channel = Channel::default();
    channel.users.insert(User::named(text("x")));
    channel.update_user_away("x", "");
    channel.update_user_away("nobody", "G");
    assert!(!channel.users.get("x").unwrap().away);
    channel.update_user_away("x", "G");
    channel.update_user_accountname("x", "acct");
    channel.update_user_accountname("nobody", "acct");
    channel.last_who = Some(WhoStatus::Receiving(None));
    let copy = channel.clone();
    assert!(copy.users.get("x").unwrap().away);
    assert_eq!(copy.users.get("x").unwrap().accountname, Some(text("acct")));
    assert_eq!(copy.users.len(), 1);
}
