//! The session with a server: its beginning, the nickname, the account, and what the server
//! supports.

use vstd::prelude::*;

use super::{all_sent, outgoing_views, push_command, push_messages, sends};
use super::{Client, ClientView, Outcome, OutcomeView, Outgoing, OutgoingView, Reply, ReplyView};
use super::Step;
use crate::channel;
use crate::channel::everywhere;
use crate::config::IdentifySyntax;
use crate::event::{event_views, Event, EventView};
use crate::grouping;
use crate::grouping::{joins, monitors};
use crate::isupport;
use crate::isupport::Parameter;
use crate::message::Parsed;
use crate::proto::{Command, CommandView};
use crate::text;
use crate::text::{joined, texts};
use crate::user::Change;

verus! {

// ---------------------------------------------------------------------------
// Channels that want a registered nickname

/// What is sent to join the channels that had to wait for the account.
pub open spec fn waiting_joins(client: ClientView) -> Seq<OutgoingView> {
    if client.registration_required_channels.len() == 0 {
        Seq::empty()
    } else {
        all_sent(joins(client.registration_required_channels, client.config.channel_keys))
    }
}

/// The client once no channel waits for the account.
pub open spec fn none_waiting(client: ClientView) -> ClientView {
    ClientView { registration_required_channels: Seq::empty(), ..client }
}

/// The server cannot give the modes of a channel, or wants a registered nickname for it: the two
/// replies have one number. A channel that is to be joined and was not waits for the account.
pub open spec fn on_nochanmodes(client: ClientView, args: Seq<String>) -> Step {
    if args.len() < 2 {
        Step::nothing(client)
    } else if !client.chanmap.contains_key(args[1]@) && client.config.channels.contains(args[1]@) {
        Step::shown(
            ClientView {
                registration_required_channels: client.registration_required_channels.push(
                    args[1]@,
                ),
                ..client
            },
        )
    } else {
        Step::shown(client)
    }
}

impl Client {
    /// Joins the channels that had to wait for the account.
    pub(super) fn join_waiting(&mut self) -> (sent: Vec<Outgoing>)
        ensures
            final(self)@ == none_waiting(old(self)@),
            outgoing_views(sent@) == waiting_joins(old(self)@),
    {
        let mut sent: Vec<Outgoing> = Vec::new();
        proof {
            assert(outgoing_views(sent@) =~= Seq::<OutgoingView>::empty());
        }
        if self.registration_required_channels.len() > 0 {
            let messages = grouping::group_joins(
                &self.registration_required_channels,
                &self.server_config.channel_keys,
            );
            push_messages(&mut sent, messages);
            assert(outgoing_views(sent@) =~= waiting_joins(old(self)@));
        }
        self.registration_required_channels = Vec::new();
        assert(self@.registration_required_channels =~= Seq::<Seq<char>>::empty());
        sent
    }

    /// Takes in that a channel cannot give its modes, or wants a registered nickname.
    pub(super) fn no_channel_modes(&mut self, args: &Vec<String>) -> (reply: Reply)
        ensures
            (Step { client: final(self)@, reply: reply@ }) == on_nochanmodes(old(self)@, args@),
    {
        if args.len() < 2 {
            return Reply::nothing();
        }
        if !self.chanmap.contains_key(args[1].as_str()) && text::list_contains(
            &self.server_config.channels,
            args[1].as_str(),
        ) {
            let ghost before = texts(self.registration_required_channels@);
            self.registration_required_channels.push(args[1].clone());
            assert(texts(self.registration_required_channels@) =~= before.push(args@[1]@));
        }
        Reply::shown()
    }
}

// ---------------------------------------------------------------------------
// The account

/// The server says that this client is logged in. Where it does not tell of accounts otherwise,
/// this is how the account of this client is known.
pub open spec fn on_logged_in(client: ClientView, args: Seq<String>) -> Step {
    let sent = waiting_joins(client);
    let client = none_waiting(client);
    if client.supports_account_notify {
        Step::shown_sending(client, sent)
    } else if args.len() == 0 {
        Step { client, reply: ReplyView { sent, outcome: OutcomeView::Nothing } }
    } else {
        Step::shown_sending(
            ClientView {
                chanmap: everywhere(client.chanmap, client.nick(), Change::Accountname(args[0]@)),
                ..client
            },
            sent,
        )
    }
}

/// The server says that this client is logged out.
pub open spec fn on_logged_out(client: ClientView) -> Step {
    if client.supports_account_notify {
        Step::shown(client)
    } else {
        Step::shown(
            ClientView {
                chanmap: everywhere(client.chanmap, client.nick(), Change::Accountname("*"@)),
                ..client
            },
        )
    }
}

/// The server says which account a user has.
pub open spec fn on_account(client: ClientView, accountname: Seq<char>, parsed: Parsed) -> Step {
    match parsed.user {
        None => Step::nothing(client),
        Some(user) => {
            let changed = ClientView {
                chanmap: everywhere(
                    client.chanmap,
                    user@.nickname,
                    Change::Accountname(accountname),
                ),
                ..client
            };
            if user@.nickname == client.nick() && accountname != "*"@ {
                Step::shown_sending(none_waiting(changed), waiting_joins(changed))
            } else {
                Step::shown(changed)
            }
        },
    }
}

impl Client {
    /// Records of this client itself which account it has.
    fn set_own_account(&mut self, accountname: &str)
        ensures
            final(self)@ == (ClientView {
                chanmap: everywhere(
                    old(self)@.chanmap,
                    old(self)@.nick(),
                    Change::Accountname(accountname@),
                ),
                ..old(self)@
            }),
    {
        let nick = self.nickname().to_owned();
        channel::change_everywhere(
            &mut self.chanmap,
            nick.as_str(),
            &Change::Accountname(accountname.to_owned()),
        );
    }

    /// Takes in that this client is logged in.
    pub(super) fn logged_in(&mut self, args: &Vec<String>) -> (reply: Reply)
        ensures
            (Step { client: final(self)@, reply: reply@ }) == on_logged_in(old(self)@, args@),
    {
        let sent = self.join_waiting();
        if !self.supports_account_notify {
            if args.len() == 0 {
                return Reply { sent, outcome: Outcome::Nothing };
            }
            self.set_own_account(args[0].as_str());
        }
        Reply::shown_sending(sent)
    }

    /// Takes in that this client is logged out.
    pub(super) fn logged_out(&mut self) -> (reply: Reply)
        ensures
            (Step { client: final(self)@, reply: reply@ }) == on_logged_out(old(self)@),
    {
        if !self.supports_account_notify {
            self.set_own_account("*");
        }
        Reply::shown()
    }

    /// Takes in which account a user has.
    pub(super) fn account(&mut self, accountname: &String, parsed: &Parsed) -> (reply: Reply)
        ensures
            (Step { client: final(self)@, reply: reply@ }) == on_account(
                old(self)@,
                accountname@,
                *parsed,
            ),
    {
        let user = match &parsed.user {
            Some(user) => user,
            None => return Reply::nothing(),
        };
        channel::change_everywhere(
            &mut self.chanmap,
            user.nickname(),
            &Change::Accountname(accountname.clone()),
        );
        if text::same(user.nickname(), self.nickname()) && !text::same(accountname.as_str(), "*") {
            let sent = self.join_waiting();
            Reply::shown_sending(sent)
        } else {
            Reply::shown()
        }
    }
}

// ---------------------------------------------------------------------------
// The nickname

/// The nickname to ask for next: one after the other of those that were set, and then none.
pub open spec fn next_alt(alt_nick: Option<usize>, count: nat) -> Option<usize> {
    match alt_nick {
        Some(i) => if i + 1 >= count {
            None
        } else {
            Some((i + 1) as usize)
        },
        None => if count > 0 {
            Some(0)
        } else {
            None
        },
    }
}

/// The server refuses a nickname. Before the session has begun, another is asked for.
pub open spec fn on_nick_refused(client: ClientView) -> Step {
    if client.resolved_nick is Some {
        Step::shown(client)
    } else {
        let alt_nick = next_alt(client.alt_nick, client.config.alt_nicks.len());
        let client = ClientView { alt_nick, ..client };
        match alt_nick {
            Some(i) => Step::shown_sending(
                client,
                seq![sends(Command::NICK(client.config.alt_nicks[i as int]))],
            ),
            None => Step::shown(client),
        }
    }
}

impl Client {
    /// Takes in that a nickname is refused.
    pub(super) fn nick_refused(&mut self) -> (reply: Reply)
        ensures
            (Step { client: final(self)@, reply: reply@ }) == on_nick_refused(old(self)@),
    {
        if self.resolved_nick.is_some() {
            return Reply::shown();
        }
        let count = self.server_config.alt_nicks.len();
        self.alt_nick = match self.alt_nick {
            Some(i) => if count == 0 || i >= count - 1 {
                None
            } else {
                Some(i + 1)
            },
            None => if count > 0 {
                Some(0)
            } else {
                None
            },
        };
        match self.alt_nick {
            Some(i) => Reply::shown_sending(
                super::one_command(Command::NICK(self.server_config.alt_nicks[i].clone())),
            ),
            None => Reply::shown(),
        }
    }
}

// ---------------------------------------------------------------------------
// The beginning of the session

/// Words to the nickname service.
pub open spec fn to_nickserv(words: Seq<Seq<char>>) -> CommandView {
    Command::PRIVMSG("NickServ"@, joined(words, " "@))
}

/// What recovers the nickname from a session that was left behind.
pub open spec fn ghosts(client: ClientView, password: Seq<char>) -> Seq<OutgoingView> {
    client.config.ghost_sequence.map_values(
        |word: Seq<char>| sends(to_nickserv(seq![word, client.config.nickname, password])),
    )
}

/// What identifies this client to the nickname service. Without a syntax that was set, the
/// nickname is left out where it is the one that was asked for.
pub open spec fn identification(client: ClientView, nick: Seq<char>, password: Seq<char>) -> CommandView {
    let ours = client.config.nickname;
    match client.config.nick_identify_syntax {
        Some(IdentifySyntax::PasswordNick) => to_nickserv(seq!["IDENTIFY"@, password, ours]),
        Some(IdentifySyntax::NickPassword) => to_nickserv(seq!["IDENTIFY"@, ours, password]),
        None => if nick == ours {
            to_nickserv(seq!["IDENTIFY"@, password])
        } else {
            to_nickserv(seq!["IDENTIFY"@, ours, password])
        },
    }
}

/// What is said to the nickname service when the session begins.
pub open spec fn nickserv_greeting(client: ClientView, nick: Seq<char>) -> Seq<OutgoingView> {
    match client.config.nick_password {
        Some(password) => (if client.config.should_ghost && nick != client.config.nickname {
            ghosts(client, password)
        } else {
            Seq::empty()
        }).push(sends(identification(client, nick, password))),
        None => Seq::empty(),
    }
}

/// What sets the modes of this client when the session begins.
pub open spec fn mode_greeting(client: ClientView, nick: Seq<char>) -> Seq<OutgoingView> {
    match client.config.umodes {
        Some(modes) => seq![sends(Command::MODE(nick, Some(modes), None))],
        None => Seq::empty(),
    }
}

/// The commands that the lines stand for which were set for the beginning of the session; a line
/// that stands for none is passed over.
pub open spec fn line_greeting(lines: Seq<Option<CommandView>>) -> Seq<OutgoingView>
    decreases lines.len(),
{
    if lines.len() == 0 {
        Seq::empty()
    } else {
        let rest = line_greeting(lines.drop_last());
        match lines.last() {
            Some(command) => rest.push(sends(command)),
            None => rest,
        }
    }
}

/// What is sent when the session begins.
pub open spec fn greeting(client: ClientView, nick: Seq<char>) -> Seq<OutgoingView> {
    nickserv_greeting(client, nick) + mode_greeting(client, nick)
        + line_greeting(client.config.on_connect) + all_sent(
        joins(client.config.channels, client.config.channel_keys),
    )
}

/// The session begins, under a nickname.
pub open spec fn on_welcome(client: ClientView, args: Seq<String>) -> Step {
    if args.len() == 0 {
        Step::nothing(client)
    } else {
        let nick = args[0]@;
        Step {
            client: ClientView { resolved_nick: Some(nick), ..client },
            reply: ReplyView {
                sent: greeting(client, nick),
                outcome: OutcomeView::Shown(seq![EventView::NickUpdated(nick)]),
            },
        }
    }
}

/// Words to the nickname service.
fn nickserv_command(words: &Vec<String>) -> (command: Command)
    ensures
        command@ == to_nickserv(texts(words@)),
{
    Command::PRIVMSG("NickServ".to_owned(), text::join(words, " "))
}

/// Three words to the nickname service.
fn three_words(a: &str, b: &str, c: &str) -> (command: Command)
    ensures
        command@ == to_nickserv(seq![a@, b@, c@]),
{
    let mut words: Vec<String> = Vec::new();
    words.push(a.to_owned());
    words.push(b.to_owned());
    words.push(c.to_owned());
    assert(texts(words@) =~= seq![a@, b@, c@]);
    nickserv_command(&words)
}

/// Two words to the nickname service.
fn two_words(a: &str, b: &str) -> (command: Command)
    ensures
        command@ == to_nickserv(seq![a@, b@]),
{
    let mut words: Vec<String> = Vec::new();
    words.push(a.to_owned());
    words.push(b.to_owned());
    assert(texts(words@) =~= seq![a@, b@]);
    nickserv_command(&words)
}

impl Client {
    /// Recovers the nickname from a session that was left behind.
    fn push_ghosts(&self, password: &String, sent: &mut Vec<Outgoing>)
        ensures
            outgoing_views(final(sent)@) == outgoing_views(old(sent)@) + ghosts(self@, password@),
    {
        let ghost before = outgoing_views(sent@);
        let ghost all = ghosts(self@, password@);
        assert(before + all.take(0) =~= before);
        for i in 0..self.server_config.ghost_sequence.len()
            invariant
                all == ghosts(self@, password@),
                outgoing_views(sent@) == before + all.take(i as int),
        {
            push_command(
                sent,
                three_words(
                    self.server_config.ghost_sequence[i].as_str(),
                    self.server_config.nickname.as_str(),
                    password.as_str(),
                ),
            );
            assert(all.take(i + 1) =~= all.take(i as int).push(all[i as int]));
            assert(outgoing_views(sent@) =~= before + all.take(i + 1));
        }
        assert(all.take(all.len() as int) =~= all);
    }

    /// What identifies this client to the nickname service.
    fn identify(&self, nick: &String, password: &String) -> (command: Command)
        ensures
            command@ == identification(self@, nick@, password@),
    {
        let ours = self.server_config.nickname.as_str();
        match self.server_config.nick_identify_syntax {
            Some(IdentifySyntax::PasswordNick) => three_words("IDENTIFY", password.as_str(), ours),
            Some(IdentifySyntax::NickPassword) => three_words("IDENTIFY", ours, password.as_str()),
            None => if text::same(nick.as_str(), ours) {
                two_words("IDENTIFY", password.as_str())
            } else {
                three_words("IDENTIFY", ours, password.as_str())
            },
        }
    }

    /// What is said to the nickname service when the session begins.
    fn greet_nickserv(&self, nick: &String) -> (sent: Vec<Outgoing>)
        ensures
            outgoing_views(sent@) == nickserv_greeting(self@, nick@),
    {
        let mut sent: Vec<Outgoing> = Vec::new();
        assert(outgoing_views(sent@) =~= Seq::<OutgoingView>::empty());
        if let Some(password) = &self.server_config.nick_password {
            if self.server_config.should_ghost && !text::same(
                nick.as_str(),
                self.server_config.nickname.as_str(),
            ) {
                self.push_ghosts(password, &mut sent);
                assert(outgoing_views(sent@) =~= ghosts(self@, password@));
            }
            push_command(&mut sent, self.identify(nick, password));
        }
        sent
    }

    /// The commands that were set for the beginning of the session.
    fn push_on_connect(&self, sent: &mut Vec<Outgoing>)
        ensures
            outgoing_views(final(sent)@) == outgoing_views(old(sent)@) + line_greeting(
                self@.config.on_connect,
            ),
    {
        let ghost before = outgoing_views(sent@);
        let ghost lines = self@.config.on_connect;
        proof {
            assert(lines.take(0) =~= Seq::<Option<CommandView>>::empty());
            assert(before + line_greeting(lines.take(0)) =~= before);
        }
        for i in 0..self.server_config.on_connect.len()
            invariant
                lines == self@.config.on_connect,
                outgoing_views(sent@) == before + line_greeting(lines.take(i as int)),
        {
            proof {
                assert(lines.take(i + 1).drop_last() =~= lines.take(i as int));
                assert(lines.take(i + 1).last() == lines[i as int]);
            }
            if let Some(command) = &self.server_config.on_connect[i] {
                push_command(sent, command.clone());
            }
            assert(outgoing_views(sent@) =~= before + line_greeting(lines.take(i + 1)));
        }
        assert(lines.take(lines.len() as int) =~= lines);
    }

    /// What is sent when the session begins.
    fn greet(&self, nick: &String) -> (sent: Vec<Outgoing>)
        ensures
            outgoing_views(sent@) == greeting(self@, nick@),
    {
        let mut sent = self.greet_nickserv(nick);
        let ghost first = outgoing_views(sent@);
        if let Some(modes) = &self.server_config.umodes {
            push_command(&mut sent, Command::MODE(nick.clone(), Some(modes.clone()), None));
        }
        assert(outgoing_views(sent@) =~= first + mode_greeting(self@, nick@));
        self.push_on_connect(&mut sent);
        push_messages(
            &mut sent,
            grouping::group_joins(
                &self.server_config.channels,
                &self.server_config.channel_keys,
            ),
        );
        sent
    }

    /// Takes in that the session begins.
    pub(super) fn welcome(&mut self, args: &Vec<String>) -> (reply: Reply)
        ensures
            (Step { client: final(self)@, reply: reply@ }) == on_welcome(old(self)@, args@),
    {
        if args.len() == 0 {
            return Reply::nothing();
        }
        let nick = &args[0];
        let sent = self.greet(nick);
        self.resolved_nick = Some(nick.clone());
        let mut events: Vec<Event> = Vec::new();
        events.push(Event::NickUpdated(nick.clone()));
        assert(event_views(events@) =~= seq![EventView::NickUpdated(nick@)]);
        Reply { sent, outcome: Outcome::Shown(events) }
    }
}

// ---------------------------------------------------------------------------
// What the server supports

/// What is sent when the server turns out to support something.
pub open spec fn on_supported(client: ClientView, parameter: Parameter) -> Seq<OutgoingView> {
    match parameter {
        Parameter::MONITOR(limit) => all_sent(monitors(client.config.monitor, limit)),
        _ => Seq::empty(),
    }
}

/// The server announces what it supports: the first announcement of a known kind counts, from a
/// place on.
pub open spec fn on_isupport(
    client: ClientView,
    operations: Seq<Option<isupport::Operation>>,
    from: int,
) -> Step
    decreases operations.len() - from,
{
    if from >= operations.len() || from < 0 {
        Step::nothing(client)
    } else {
        match operations[from] {
            Some(isupport::Operation::Add(parameter)) => match parameter.known_as() {
                Some(kind) => {
                    let supported = client.isupport.insert(kind, parameter);
                    Step {
                        client: ClientView { isupport: supported, ..client },
                        reply: ReplyView {
                            sent: on_supported(client, parameter),
                            outcome: OutcomeView::Events(
                                seq![EventView::IsupportUpdated(supported)],
                            ),
                        },
                    }
                },
                None => on_isupport(client, operations, from + 1),
            },
            Some(isupport::Operation::Remove(Some(kind))) => {
                let supported = client.isupport.remove(kind@);
                Step::events(
                    ClientView { isupport: supported, ..client },
                    seq![EventView::IsupportUpdated(supported)],
                )
            },
            _ => on_isupport(client, operations, from + 1),
        }
    }
}

impl Client {
    /// Tells what the server supports now.
    fn isupport_event(&self) -> (events: Vec<Event>)
        ensures
            event_views(events@) == seq![EventView::<crate::message::EncodedView>::IsupportUpdated(
                self@.isupport,
            )],
    {
        let mut events: Vec<Event> = Vec::new();
        events.push(Event::IsupportUpdated(self.isupport.copy()));
        assert(event_views(events@) =~= seq![EventView::IsupportUpdated(self@.isupport)]);
        events
    }

    /// Takes in that the server supports something.
    fn add_supported(&mut self, kind: String, parameter: &Parameter) -> (reply: Reply)
        ensures
            final(self)@ == (ClientView {
                isupport: old(self)@.isupport.insert(kind@, *parameter),
                ..old(self)@
            }),
            reply@ == (ReplyView {
                sent: on_supported(old(self)@, *parameter),
                outcome: OutcomeView::Events(seq![EventView::IsupportUpdated(final(self)@.isupport)]),
            }),
    {
        let mut sent: Vec<Outgoing> = Vec::new();
        assert(outgoing_views(sent@) =~= Seq::<OutgoingView>::empty());
        if let Parameter::MONITOR(limit) = parameter {
            push_messages(
                &mut sent,
                grouping::group_monitors(&self.server_config.monitor, *limit),
            );
        }
        assert(outgoing_views(sent@) =~= on_supported(old(self)@, *parameter));
        let _ = self.isupport.insert(kind, parameter.clone());
        Reply { sent, outcome: Outcome::Events(self.isupport_event()) }
    }

    /// Takes in what the server announces that it supports.
    pub(super) fn supported(&mut self, operations: &Vec<Option<isupport::Operation>>) -> (reply: Reply)
        ensures
            (Step { client: final(self)@, reply: reply@ }) == on_isupport(
                old(self)@,
                operations@,
                0,
            ),
    {
        let mut i: usize = 0;
        while i < operations.len()
            invariant
                i <= operations@.len(),
                self@ == old(self)@,
                on_isupport(old(self)@, operations@, 0) == on_isupport(
                    old(self)@,
                    operations@,
                    i as int,
                ),
            decreases operations@.len() - i,
        {
            match &operations[i] {
                Some(isupport::Operation::Add(parameter)) => {
                    if let Some(kind) = parameter.kind() {
                        return self.add_supported(kind, parameter);
                    }
                },
                Some(isupport::Operation::Remove(Some(kind))) => {
                    let _ = self.isupport.remove(kind.as_str());
                    let sent: Vec<Outgoing> = Vec::new();
                    assert(outgoing_views(sent@) =~= Seq::<OutgoingView>::empty());
                    return Reply { sent, outcome: Outcome::Events(self.isupport_event()) };
                },
                _ => {},
            }
            i = i + 1;
        }
        Reply::nothing()
    }
}

} // verus!
