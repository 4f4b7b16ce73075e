//! Messages that a server sends.

use vstd::prelude::*;

use crate::isupport;
use crate::isupport::WhoToken;
use crate::proto::{Command, Numeric, Tag};
use crate::text;
use crate::text::{split_on, texts};
use crate::time::DateTime;
use crate::user::{AccessLevel, Operation, User};

verus! {

/// The text of a topic.
#[derive(Debug)]
pub struct Content {
    pub text: String,
}

impl Clone for Content {
    fn clone(&self) -> (res: Self)
        ensures
            res == *self,
    {
        Content { text: self.text.clone() }
    }
}

/// What one client can ask another in a message.
#[derive(Debug)]
pub enum CtcpCommand {
    Action,
    ClientInfo,
    DCC,
    Ping,
    Source,
    Version,
    Unknown(String),
}

impl Clone for CtcpCommand {
    fn clone(&self) -> (res: Self)
        ensures
            res == *self,
    {
        match self {
            CtcpCommand::Action => CtcpCommand::Action,
            CtcpCommand::ClientInfo => CtcpCommand::ClientInfo,
            CtcpCommand::DCC => CtcpCommand::DCC,
            CtcpCommand::Ping => CtcpCommand::Ping,
            CtcpCommand::Source => CtcpCommand::Source,
            CtcpCommand::Version => CtcpCommand::Version,
            CtcpCommand::Unknown(name) => CtcpCommand::Unknown(name.clone()),
        }
    }
}

/// A question of another client, with its parameters.
#[derive(Debug)]
pub struct CtcpQuery {
    pub command: CtcpCommand,
    pub params: Option<String>,
}

/// A request to take a file.
#[derive(Debug)]
pub struct DccSend {
    pub text: String,
}

impl Clone for DccSend {
    fn clone(&self) -> (res: Self)
        ensures
            res == *self,
    {
        DccSend { text: self.text.clone() }
    }
}

/// A request for a connection between two clients.
#[derive(Debug)]
pub enum DccCommand {
    Send(DccSend),
    Unsupported(String),
}

/// A change of a channel's modes: whether a mode is given or taken, the nickname that it is for,
/// and the access level that it stands for.
#[derive(Debug)]
pub struct ChannelMode {
    pub operation: Option<Operation>,
    pub arg: Option<String>,
    pub level: Option<AccessLevel>,
}

/// What a mode of a user stands for.
#[derive(Debug)]
pub enum UserModeKind {
    /// The nickname is registered.
    Registered,
    Other(String),
}

/// A change of a user's modes: whether a mode is given or taken, what it stands for, and its
/// argument.
#[derive(Debug)]
pub struct UserMode {
    pub operation: Option<Operation>,
    pub kind: UserModeKind,
    pub arg: Option<String>,
}

/// What the parts of a message say that have a syntax of their own.
#[derive(Debug)]
pub struct Parsed {
    /// The user that the message comes from, if it comes from a user.
    pub user: Option<User>,
    /// When the server sent the message.
    pub server_time: DateTime,
    /// The request for a connection that the text makes.
    pub dcc: Option<DccCommand>,
    /// Whether the text has the form of a question of another client.
    pub is_query: bool,
    /// Whether the text tells what its author does.
    pub is_action: bool,
    /// The question that the text asks.
    pub query: Option<CtcpQuery>,
    /// Whether the text, by its author, mentions the nickname of this client.
    pub references_us: bool,
    /// The user that each of the names in the message stands for; `None` where a name is none.
    pub users: Vec<Option<User>>,
    /// The changes of a channel's modes.
    pub channel_modes: Vec<ChannelMode>,
    /// The changes of a user's modes.
    pub user_modes: Vec<UserMode>,
    /// What each argument after the first announces; `None` where it announces nothing.
    pub isupport: Vec<Option<isupport::Operation>>,
    /// The token of the request that the message answers.
    pub who_token: Option<WhoToken>,
}

/// A message that a server sent.
#[derive(Debug)]
pub struct Encoded {
    pub tags: Vec<Tag>,
    pub command: Command,
    pub parsed: Parsed,
}

/// What a message holds.
pub struct EncodedView {
    pub tags: Seq<Tag>,
    pub command: Command,
    pub parsed: Parsed,
}

impl View for Encoded {
    type V = EncodedView;

    open spec fn view(&self) -> EncodedView {
        EncodedView { tags: self.tags@, command: self.command, parsed: self.parsed }
    }
}

/// The names in a message that stand for users.
pub open spec fn names_in(command: Command) -> Seq<Seq<char>> {
    match command {
        Command::Numeric(Numeric::RPL_NAMREPLY, args) => if args@.len() > 3 {
            split_on(args@[3]@, ' ')
        } else {
            Seq::empty()
        },
        Command::Numeric(Numeric::RPL_MONONLINE, args) => if args@.len() > 1 {
            split_on(args@[1]@, ',')
        } else {
            Seq::empty()
        },
        Command::Numeric(Numeric::RPL_UNAWAY, args) => if args@.len() > 0 {
            seq![args@[0]@]
        } else {
            Seq::empty()
        },
        Command::Numeric(Numeric::RPL_NOWAWAY, args) => if args@.len() > 0 {
            seq![args@[0]@]
        } else {
            Seq::empty()
        },
        _ => Seq::empty(),
    }
}

/// The names in a message that stand for users, in the order in which [`Parsed::users`] tells
/// what they stand for.
pub fn listed_names(command: &Command) -> (names: Vec<String>)
    ensures
        texts(names@) == names_in(*command),
{
    let mut names: Vec<String> = Vec::new();
    assert(texts(names@) =~= Seq::<Seq<char>>::empty());
    match command {
        Command::Numeric(Numeric::RPL_NAMREPLY, args) if args.len() > 3 => text::split(
            args[3].as_str(),
            ' ',
        ),
        Command::Numeric(Numeric::RPL_MONONLINE, args) if args.len() > 1 => text::split(
            args[1].as_str(),
            ',',
        ),
        Command::Numeric(Numeric::RPL_UNAWAY | Numeric::RPL_NOWAWAY, args) => {
            if args.len() > 0 {
                names.push(args[0].clone());
                assert(texts(names@) =~= seq![args@[0]@]);
            }
            names
        },
        _ => names,
    }
}

/// The names in a list of users are those between its spaces, the names in word of watched users
/// those between its commas, and word of being away, or back, names one user. Nothing else names
/// users in this way.
pub proof fn law_names_in(command: Command)
    ensures
        names_in(command) == (match command {
            Command::Numeric(numeric, args) => if numeric is RPL_NAMREPLY && args@.len() > 3 {
                split_on(args@[3]@, ' ')
            } else if numeric is RPL_MONONLINE && args@.len() > 1 {
                split_on(args@[1]@, ',')
            } else if (numeric is RPL_UNAWAY || numeric is RPL_NOWAWAY) && args@.len() > 0 {
                seq![args@[0]@]
            } else {
                Seq::empty()
            },
            _ => Seq::empty(),
        }),
{
}

} // verus!
