//! What a user has set for a server.

use vstd::prelude::*;

use crate::proto::{Command, CommandView};
use crate::string_map::StringMap;
use crate::text;

verus! {

/// The order of the arguments with which one identifies to the nickname service.
#[derive(Debug, Clone, Copy, PartialEq, Eq, Structural)]
pub enum IdentifySyntax {
    NickPassword,
    PasswordNick,
}

/// How to authenticate before the session begins: the name of the mechanism, and its parameter.
#[derive(Debug)]
pub struct Sasl {
    pub command: String,
    pub param: String,
}

impl Clone for Sasl {
    fn clone(&self) -> (res: Self)
        ensures
            res == *self,
    {
        Sasl { command: self.command.clone(), param: self.param.clone() }
    }
}

/// What a user has set for a server.
#[derive(Debug)]
pub struct Server {
    /// The nickname to ask for.
    pub nickname: String,
    /// The username; the nickname where there is none.
    pub username: Option<String>,
    /// The real name; the nickname where there is none.
    pub realname: Option<String>,
    /// The password of the server.
    pub password: Option<String>,
    /// The password of the nickname.
    pub nick_password: Option<String>,
    /// How to identify to the nickname service, if that is known.
    pub nick_identify_syntax: Option<IdentifySyntax>,
    /// Whether to recover the nickname from a session that was left behind.
    pub should_ghost: bool,
    /// The commands of the nickname service that recover a nickname.
    pub ghost_sequence: Vec<String>,
    /// The nicknames to ask for where the first is taken.
    pub alt_nicks: Vec<String>,
    /// The modes to set for oneself.
    pub umodes: Option<String>,
    /// What each line that was set for the beginning of the session stands for; `None` where it
    /// stands for no command.
    pub on_connect: Vec<Option<Command>>,
    /// The channels to join.
    pub channels: Vec<String>,
    /// The keys of channels that need one.
    pub channel_keys: StringMap<String>,
    /// The users to watch.
    pub monitor: Vec<String>,
    /// How to authenticate before the session begins.
    pub sasl: Option<Sasl>,
    /// The nanoseconds between two requests for the state of a channel's users.
    pub who_poll_interval: u128,
    /// The nanoseconds after which an unanswered request is repeated.
    pub who_retry_interval: u128,
}

/// What an optional command holds.
pub open spec fn opt_command(command: Option<Command>) -> Option<CommandView> {
    match command {
        Some(command) => Some(command@),
        None => None,
    }
}

/// What optional commands hold.
pub open spec fn command_views(commands: Seq<Option<Command>>) -> Seq<Option<CommandView>> {
    commands.map_values(|command: Option<Command>| opt_command(command))
}

/// What a user has set, as the contracts read it.
pub struct ServerView {
    pub nickname: Seq<char>,
    pub username: Option<Seq<char>>,
    pub realname: Option<Seq<char>>,
    pub password: Option<Seq<char>>,
    pub nick_password: Option<Seq<char>>,
    pub nick_identify_syntax: Option<IdentifySyntax>,
    pub should_ghost: bool,
    pub ghost_sequence: Seq<Seq<char>>,
    pub alt_nicks: Seq<Seq<char>>,
    pub umodes: Option<Seq<char>>,
    pub on_connect: Seq<Option<CommandView>>,
    pub channels: Seq<Seq<char>>,
    pub channel_keys: Map<Seq<char>, Seq<char>>,
    pub monitor: Seq<Seq<char>>,
    pub sasl: Option<Sasl>,
    pub who_poll_interval: u128,
    pub who_retry_interval: u128,
}

impl View for Server {
    type V = ServerView;

    open spec fn view(&self) -> ServerView {
        ServerView {
            nickname: self.nickname@,
            username: text::opt_text(self.username),
            realname: text::opt_text(self.realname),
            password: text::opt_text(self.password),
            nick_password: text::opt_text(self.nick_password),
            nick_identify_syntax: self.nick_identify_syntax,
            should_ghost: self.should_ghost,
            ghost_sequence: text::texts(self.ghost_sequence@),
            alt_nicks: text::texts(self.alt_nicks@),
            umodes: text::opt_text(self.umodes),
            on_connect: command_views(self.on_connect@),
            channels: text::texts(self.channels@),
            channel_keys: self.channel_keys@,
            monitor: text::texts(self.monitor@),
            sasl: self.sasl,
            who_poll_interval: self.who_poll_interval,
            who_retry_interval: self.who_retry_interval,
        }
    }
}

/// A copy of a list of commands.
pub fn copy_commands(commands: &Vec<Option<Command>>) -> (copy: Vec<Option<Command>>)
    ensures
        command_views(copy@) == command_views(commands@),
{
    let mut copy: Vec<Option<Command>> = Vec::new();
    for i in 0..commands.len()
        invariant
            command_views(copy@) == command_views(commands@).take(i as int),
    {
        let ghost so_far = command_views(copy@);
        let command = match &commands[i] {
            Some(command) => Some(command.clone()),
            None => None,
        };
        copy.push(command);
        assert(command_views(copy@) =~= so_far.push(opt_command(commands@[i as int])));
        assert(command_views(commands@).take(i + 1) =~= command_views(commands@).take(
            i as int,
        ).push(opt_command(commands@[i as int])));
    }
    assert(command_views(commands@).take(commands@.len() as int) =~= command_views(commands@));
    copy
}

impl Clone for Server {
    fn clone(&self) -> (res: Self)
        ensures
            res@ == self@,
    {
        Server {
            nickname: self.nickname.clone(),
            username: text::copy_opt_text(&self.username),
            realname: text::copy_opt_text(&self.realname),
            password: text::copy_opt_text(&self.password),
            nick_password: text::copy_opt_text(&self.nick_password),
            nick_identify_syntax: self.nick_identify_syntax,
            should_ghost: self.should_ghost,
            ghost_sequence: text::copy_texts(&self.ghost_sequence),
            alt_nicks: text::copy_texts(&self.alt_nicks),
            umodes: text::copy_opt_text(&self.umodes),
            on_connect: copy_commands(&self.on_connect),
            channels: text::copy_texts(&self.channels),
            channel_keys: self.channel_keys.copy(),
            monitor: text::copy_texts(&self.monitor),
            sasl: match &self.sasl {
                Some(sasl) => Some(sasl.clone()),
                None => None,
            },
            who_poll_interval: self.who_poll_interval,
            who_retry_interval: self.who_retry_interval,
        }
    }
}

/// What a user has set for the whole program, in the form in which it is passed on.
#[derive(Debug)]
pub struct Config {
    pub text: String,
}

impl Clone for Config {
    fn clone(&self) -> (res: Self)
        ensures
            res == *self,
    {
        Config { text: self.text.clone() }
    }
}

/// What was set is told apart in all that can be set.
pub proof fn law_what_was_set(a: Server, b: Server)
    requires
        a@ == b@,
    ensures
        a.nickname@ == b.nickname@,
        text::opt_text(a.username) == text::opt_text(b.username),
        text::opt_text(a.realname) == text::opt_text(b.realname),
        text::opt_text(a.password) == text::opt_text(b.password),
        text::opt_text(a.nick_password) == text::opt_text(b.nick_password),
        a.nick_identify_syntax == b.nick_identify_syntax,
        a.should_ghost == b.should_ghost,
        text::texts(a.ghost_sequence@) == text::texts(b.ghost_sequence@),
        text::texts(a.alt_nicks@) == text::texts(b.alt_nicks@),
        text::opt_text(a.umodes) == text::opt_text(b.umodes),
        a.on_connect@.len() == b.on_connect@.len(),
        forall|i: int|
            0 <= i < a.on_connect@.len() ==> opt_command(#[trigger] a.on_connect@[i])
                == opt_command(b.on_connect@[i]),
        text::texts(a.channels@) == text::texts(b.channels@),
        a.channel_keys@ == b.channel_keys@,
        text::texts(a.monitor@) == text::texts(b.monitor@),
        a.sasl == b.sasl,
        a.who_poll_interval == b.who_poll_interval,
        a.who_retry_interval == b.who_retry_interval,
{
    assert(command_views(a.on_connect@).len() == command_views(b.on_connect@).len());
    assert forall|i: int| 0 <= i < a.on_connect@.len() implies opt_command(#[trigger] a.on_connect@[i])
        == opt_command(b.on_connect@[i]) by {
        assert(command_views(a.on_connect@)[i] == command_views(b.on_connect@)[i]);
    }
}

} // verus!
