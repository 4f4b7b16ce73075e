//! Handles, and the clients of all servers.

use futures::channel::mpsc;
use irc_client::buffer::{Buffer, Server};
use irc_client::channel::Channel;
use irc_client::client_map::{ClientMap, State, Status};
use irc_client::config::{self, Config};
use irc_client::handle::Handle;
use irc_client::isupport::Parameter;
use irc_client::message::Content;
use irc_client::proto::{Command, Message};
use irc_client::sender::{Request, Sender};
use irc_client::string_map::StringMap;
use irc_client::user::{AccessLevel, User};

fn text(value: &str) -> String {
    value.to_string()
}

fn strings(list: &[&str]) -> Vec<String> {
    list.iter().map(|value| value.to_string()).collect()
}

fn server(name: &str) -> Server {
    Server(text(name))
}

fn settings() -> config::Server {
    config::Server {
        nickname: text("me"),
        username: None,
        realname: None,
        password: None,
        nick_password: None,
        nick_identify_syntax: None,
        should_ghost: false,
        ghost_sequence: vec![],
        alt_nicks: vec![],
        umodes: None,
        on_connect: vec![],
        channels: vec![],
        channel_keys: StringMap::new(),
        monitor: vec![],
        sasl: None,
        who_poll_interval: 100,
        who_retry_interval: 10,
    }
}

fn handle(room: usize) -> (Handle, mpsc::Receiver<Request>) {
    let (sender, receiver) = mpsc::channel(room);
    (Handle::new(Sender::new(sender), settings()), receiver)
}

fn message(target: &str) -> Message {
    Message { tags: vec![], command: Command::PRIVMSG(text(target), text("text")) }
}

fn user(nick: &str, levels: Vec<AccessLevel>) -> User {
    let mut user = User::named(text(nick));
    user.access_levels = levels;
    user
}

fn chanmap() -> StringMap<Channel> {
    let mut map = StringMap::new();
    let mut a = Channel::default();
    a.users.insert(user("x", vec![]));
    a.users.insert(user("op", vec![AccessLevel::Oper]));
    a.topic.content = Some(Content { text: text("topic") });
    let mut b = Channel::default();
    b.users.insert(user("x", vec![]));
    map.insert(text("#b"), b);
    map.insert(text("#a"), a);
    map.insert(text("#c"), Channel::default());
    map
}

fn take(queue: &mut mpsc::Receiver<Request>) -> String {
    match queue.try_recv() {
        Ok(Request::Send(message, buffer)) => format!("{:?} {buffer:?}", message.command),
        Ok(Request::ConfigUpdated(config)) => config.text,
        Err(error) => format!("{error:?}"),
    }
}

#[test]
fn a_handle_asks_for_the_end() {
    let (mut handle, mut queue) = handle(4);
    assert!(handle.quit(Some(text("bye"))).is_ok());
    assert!(handle.quit(None).is_ok());
    assert_eq!(take(&mut queue), r#"QUIT(Some("bye")) None"#);
    assert_eq!(take(&mut queue), "QUIT(None) None");
}

#[test]
fn a_request_without_room_comes_back() {
    let (mut handle, mut queue) = handle(0);
    assert!(handle.quit(Some(text("first"))).is_ok());
    let rejected = handle.quit(Some(text("second"))).unwrap_err();
    assert!(!rejected.disconnected);
    assert_eq!(
        format!("{:?}", rejected.request),
        r#"Send(Message { tags: [], command: QUIT(Some("second")) }, None)"#
    );
    assert_eq!(take(&mut queue), r#"QUIT(Some("first")) None"#);
    drop(queue);
    let rejected = handle.quit(None).unwrap_err();
    assert!(rejected.disconnected);
}

#[test]
fn a_handle_asks_for_channels() {
    let (mut handle, mut queue) = handle(4);
    assert!(handle.join(&strings(&["#a", "#b"])).is_empty());
    assert_eq!(take(&mut queue), r##"JOIN("#a,#b", None) None"##);
    assert!(handle.join(&vec![]).is_empty());
    assert!(queue.try_recv().is_err());
}

#[test]
fn each_message_that_joins_is_asked_for_by_itself() {
    let (mut handle, mut queue) = handle(0);
    let names: Vec<String> = (0..3).map(|i| format!("#{i}{}", "x".repeat(400))).collect();
    let rejected = handle.join(&names);
    assert_eq!(rejected.len(), 2);
    match &rejected[0].request {
        Request::Send(message, None) => {
            assert!(matches!(&message.command, Command::JOIN(channel, None) if *channel == names[1]));
        }
        other => panic!("{other:?}"),
    }
    assert_eq!(take(&mut queue), format!("JOIN({:?}, None) None", names[0]));
}

#[test]
fn a_message_is_asked_for_with_its_buffer() {
    let (mut handle, mut queue) = handle(4);
    let buffer = Buffer::Server(server("s"));
    assert!(handle.send(&buffer, message("x")).is_ok());
    assert_eq!(take(&mut queue), r#"PRIVMSG("x", "text") Some(Server(Server("s")))"#);
    drop(queue);
    assert!(handle.send(&buffer, message("x")).unwrap_err().disconnected);
}

#[test]
fn a_handle_shows_what_the_client_knows() {
    let (mut handle, _queue) = handle(4);
    assert_eq!(handle.nickname(), "me");
    handle.update_nick(text("you"));
    assert_eq!(handle.nickname(), "you");
    assert!(handle.users("#a").is_empty());
    handle.update_chanmap(chanmap());
    assert_eq!(handle.channels(), strings(&["#a", "#b", "#c"]));
    let nicks: Vec<&str> = handle.users("#a").iter().map(|user| user.nickname()).collect();
    assert_eq!(nicks, vec!["op", "x"]);
    assert!(handle.users("#c").is_empty());
    assert!(handle.users("#d").is_empty());
    assert_eq!(handle.user_channels("x"), strings(&["#a", "#b"]));
    assert!(handle.user_channels("nobody").is_empty());
    assert_eq!(handle.topic("#a").unwrap().content.as_ref().unwrap().text, "topic");
    assert!(handle.topic("#b").unwrap().content.is_none());
    assert!(handle.topic("#d").is_none());
    let known = handle.resolve_user_attributes("#a", &User::named(text("op"))).unwrap();
    assert!(known.has_access_level(AccessLevel::Oper));
    assert!(handle.resolve_user_attributes("#b", &User::named(text("op"))).is_none());
    assert!(handle.resolve_user_attributes("#d", &User::named(text("x"))).is_none());
    handle.update_chanmap(StringMap::new());
    assert!(handle.channels().is_empty());
    assert!(handle.users("#a").is_empty());
}

#[test]
fn a_sender_puts_requests_in_order() {
    let (sender, mut queue) = mpsc::channel(4);
    let mut sender = Sender::new(sender);
    assert!(sender.try_send(message("x")).is_ok());
    assert!(sender.try_send_with_buffer(message("y"), Buffer::Server(server("s"))).is_ok());
    assert!(sender.config_updated(Config { text: text("config") }).is_ok());
    let mut other = sender.clone();
    assert!(other.try_send(message("z")).is_ok());
    assert_eq!(take(&mut queue), r#"PRIVMSG("x", "text") None"#);
    assert_eq!(take(&mut queue), r#"PRIVMSG("y", "text") Some(Server(Server("s")))"#);
    assert_eq!(take(&mut queue), "config");
    assert_eq!(take(&mut queue), r#"PRIVMSG("z", "text") None"#);
}

#[test]
fn servers_come_and_go() {
    let mut clients = ClientMap::default();
    assert!(clients.is_empty());
    assert_eq!(clients.status(&server("a")), Status::Unavailable);
    clients.disconnected(server("b"));
    assert_eq!(clients.status(&server("b")), Status::Disconnected);
    assert!(!clients.status(&server("b")).connected());
    clients.ready(server("b"), handle(1).0);
    clients.ready(server("a"), handle(1).0);
    clients.disconnected(server("c"));
    assert!(clients.status(&server("b")).connected());
    assert_eq!(clients.len(), 3);
    let connected: Vec<String> =
        clients.connected_servers().into_iter().map(|server| server.0).collect();
    assert_eq!(connected, strings(&["a", "b"]));
    let all: Vec<(String, bool)> = clients
        .iter()
        .into_iter()
        .map(|(server, state)| (server.clone(), matches!(state, State::Ready(_))))
        .collect();
    assert_eq!(all, vec![(text("a"), true), (text("b"), true), (text("c"), false)]);
    assert!(clients.remove(&server("a")).is_some());
    assert!(clients.remove(&server("c")).is_none());
    assert!(clients.remove(&server("c")).is_none());
    assert_eq!(clients.status(&server("a")), Status::Unavailable);
    assert_eq!(clients.len(), 1);
    clients.disconnected(server("b"));
    assert!(clients.client(&server("b")).is_none());
    assert!(clients.client_mut(&server("b")).is_none());
}

#[test]
fn clients_are_asked_by_server() {
    let mut clients = ClientMap::default();
    let (handle_a, mut queue) = handle(4);
    clients.ready(server("a"), handle_a);
    clients.disconnected(server("b"));
    let buffer = |name: &str| Buffer::Channel(server(name), text("#x"));
    assert!(clients.send(&buffer("a"), message("#x")).is_none());
    assert!(clients.send(&buffer("b"), message("#x")).is_none());
    assert!(clients.join(&server("a"), &strings(&["#x"])).is_empty());
    assert!(clients.join(&server("b"), &strings(&["#x"])).is_empty());
    assert!(clients.quit(&server("a"), Some(text("bye"))).is_none());
    assert!(clients.quit(&server("b"), None).is_none());
    assert_eq!(
        take(&mut queue),
        r##"PRIVMSG("#x", "text") Some(Channel(Server("a"), "#x"))"##
    );
    assert_eq!(take(&mut queue), r##"JOIN("#x", None) None"##);
    assert_eq!(take(&mut queue), r#"QUIT(Some("bye")) None"#);
    drop(queue);
    assert!(clients.send(&buffer("a"), message("#x")).unwrap().disconnected);
    assert!(clients.quit(&server("a"), None).unwrap().disconnected);
    assert_eq!(clients.join(&server("a"), &strings(&["#x"])).len(), 1);
}

#[test]
fn clients_show_what_they_know_by_server() {
    let mut clients = ClientMap::default();
    clients.ready(server("a"), handle(4).0);
    if let Some(client) = clients.client_mut(&server("a")) {
        client.update_nick(text("you"));
        client.update_chanmap(chanmap());
        let mut isupport = StringMap::new();
        isupport.insert(text("WHOX"), Parameter::WHOX);
        client.update_isupport(isupport);
    }
    let (a, b) = (server("a"), server("b"));
    assert_eq!(clients.nickname(&a), Some("you"));
    assert_eq!(clients.nickname(&b), None);
    assert_eq!(clients.get_channels(&a), strings(&["#a", "#b", "#c"]));
    assert!(clients.get_channels(&b).is_empty());
    assert_eq!(clients.get_channel_users(&a, "#a").len(), 2);
    assert!(clients.get_channel_users(&b, "#a").is_empty());
    assert_eq!(clients.get_user_channels(&a, "x"), strings(&["#a", "#b"]));
    assert!(clients.get_user_channels(&b, "x").is_empty());
    assert!(clients.get_channel_topic(&a, "#a").is_some());
    assert!(clients.get_channel_topic(&b, "#a").is_none());
    assert_eq!(clients.get_isupport(&a).keys(), strings(&["WHOX"]));
    assert!(clients.get_isupport(&b).is_empty());
    assert!(clients.get_sender(&a).is_some());
    assert!(clients.get_sender(&b).is_none());
    assert!(clients.resolve_user_attributes(&a, "#a", &User::named(text("x"))).is_some());
    assert!(clients.resolve_user_attributes(&b, "#a", &User::named(text("x"))).is_none());
}

#[test]
fn all_clients_hear_of_new_settings() {
    let mut clients = ClientMap::default();
    let (handle_a, mut queue_a) = handle(4);
    let (handle_b, mut queue_b) = handle(4);
    clients.ready(server("a"), handle_a);
    clients.ready(server("b"), handle_b);
    clients.disconnected(server("c"));
    assert!(clients.config_updated(Config { text: text("new") }).is_empty());
    assert_eq!(take(&mut queue_a), "new");
    assert_eq!(take(&mut queue_b), "new");
    drop(queue_a);
    assert_eq!(clients.config_updated(Config { text: text("newer") }), strings(&["a"]));
    assert_eq!(take(&mut queue_b), "newer");
}
