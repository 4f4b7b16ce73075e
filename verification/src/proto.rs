//! Messages of the protocol, as far as a client looks into them.

use vstd::prelude::*;

use crate::text;
use crate::text::{opt_text, texts};

verus! {

/// A tag of a message.
#[derive(Debug)]
pub struct Tag {
    pub key: String,
    pub value: Option<String>,
}

/// What a tag holds.
pub struct TagView {
    pub key: Seq<char>,
    pub value: Option<Seq<char>>,
}

impl View for Tag {
    type V = TagView;

    open spec fn view(&self) -> TagView {
        TagView { key: self.key@, value: opt_text(self.value) }
    }
}

impl Clone for Tag {
    fn clone(&self) -> (res: Self)
        ensures
            res == *self,
    {
        Tag { key: self.key.clone(), value: text::copy_opt_text(&self.value) }
    }
}

/// What a list of tags holds.
pub open spec fn tag_views(tags: Seq<Tag>) -> Seq<TagView> {
    tags.map_values(|tag: Tag| tag@)
}

/// The numeric replies that a client acts on.
#[derive(Debug, Clone, Copy, PartialEq, Eq, Structural)]
#[allow(non_camel_case_types)]
pub enum Numeric {
    RPL_WELCOME,
    RPL_ISUPPORT,
    RPL_UMODEIS,
    RPL_UNAWAY,
    RPL_NOWAWAY,
    RPL_ENDOFWHO,
    RPL_ENDOFWHOIS,
    RPL_TOPIC,
    RPL_TOPICWHOTIME,
    RPL_WHOREPLY,
    RPL_NAMREPLY,
    RPL_WHOSPCRPL,
    RPL_ENDOFNAMES,
    RPL_ENDOFWHOWAS,
    ERR_NOSUCHNICK,
    ERR_NOSUCHSERVER,
    ERR_WASNOSUCHNICK,
    ERR_NONICKNAMEGIVEN,
    ERR_ERRONEUSNICKNAME,
    ERR_NICKNAMEINUSE,
    ERR_NEEDMOREPARAMS,
    ERR_NOCHANMODES,
    ERR_UMODEUNKNOWNFLAG,
    ERR_USERSDONTMATCH,
    RPL_MONONLINE,
    RPL_MONOFFLINE,
    RPL_ENDOFMONLIST,
    RPL_LOGGEDIN,
    RPL_LOGGEDOUT,
    /// Any other reply, by its number.
    Other(u16),
}

/// The commands of the protocol. `S` is what holds a string and `L` what holds a list of them.
#[derive(Debug)]
pub enum Command<S = String, L = Vec<String>> {
    /// `<reference> *( <parameter> )`
    BATCH(S, L),
    /// `[ <target> ] <subcommand> [ <parameter> ] [ <parameter> ]`
    CAP(Option<S>, S, Option<S>, Option<S>),
    /// `<parameter>`
    AUTHENTICATE(S),
    /// `<password>`
    PASS(S),
    /// `<nickname>`
    NICK(S),
    /// `<username> <realname>`
    USER(S, S),
    /// `[ <reason> ]`
    QUIT(Option<S>),
    /// `<channels> [ <keys, or an account name> ]`
    JOIN(S, Option<S>),
    /// `<channel> [ <reason> ]`
    PART(S, Option<S>),
    /// `<channel> [ <topic> ]`
    TOPIC(S, Option<S>),
    /// `<nickname> <channel>`
    INVITE(S, S),
    /// `<channel> <nickname> [ <comment> ]`
    KICK(S, S, Option<S>),
    /// `<target> [ <modes> ] [ <arguments> ]`
    MODE(S, Option<S>, Option<L>),
    /// `<target> <text>`
    PRIVMSG(S, S),
    /// `<target> <text>`
    NOTICE(S, S),
    /// `<target>`
    TAGMSG(S),
    /// `<mask> [ <fields> ] [ <token> ]`
    WHO(S, Option<S>, Option<S>),
    /// `[ <server> ] <nickname>`
    WHOIS(Option<S>, S),
    /// `<nickname> [ <count> ]`
    WHOWAS(S, Option<S>),
    /// `[ <text> ]`
    AWAY(Option<S>),
    /// `<account name>`
    ACCOUNT(S),
    /// `<username> <hostname>`
    CHGHOST(S, S),
    /// `<subcommand> [ <targets> ]`
    MONITOR(S, Option<S>),
    /// A numeric reply with its arguments.
    Numeric(Numeric, L),
    /// Any other command with its arguments.
    Unknown(S, L),
}

/// What a command holds.
pub type CommandView = Command<Seq<char>, Seq<Seq<char>>>;

/// What an optional list of strings holds.
pub open spec fn opt_texts(list: Option<Vec<String>>) -> Option<Seq<Seq<char>>> {
    match list {
        Some(list) => Some(texts(list@)),
        None => None,
    }
}

impl View for Command {
    type V = CommandView;

    open spec fn view(&self) -> CommandView {
        match *self {
            Command::BATCH(a, b) => Command::BATCH(a@, texts(b@)),
            Command::CAP(a, b, c, d) => Command::CAP(opt_text(a), b@, opt_text(c), opt_text(d)),
            Command::AUTHENTICATE(a) => Command::AUTHENTICATE(a@),
            Command::PASS(a) => Command::PASS(a@),
            Command::NICK(a) => Command::NICK(a@),
            Command::USER(a, b) => Command::USER(a@, b@),
            Command::QUIT(a) => Command::QUIT(opt_text(a)),
            Command::JOIN(a, b) => Command::JOIN(a@, opt_text(b)),
            Command::PART(a, b) => Command::PART(a@, opt_text(b)),
            Command::TOPIC(a, b) => Command::TOPIC(a@, opt_text(b)),
            Command::INVITE(a, b) => Command::INVITE(a@, b@),
            Command::KICK(a, b, c) => Command::KICK(a@, b@, opt_text(c)),
            Command::MODE(a, b, c) => Command::MODE(a@, opt_text(b), opt_texts(c)),
            Command::PRIVMSG(a, b) => Command::PRIVMSG(a@, b@),
            Command::NOTICE(a, b) => Command::NOTICE(a@, b@),
            Command::TAGMSG(a) => Command::TAGMSG(a@),
            Command::WHO(a, b, c) => Command::WHO(a@, opt_text(b), opt_text(c)),
            Command::WHOIS(a, b) => Command::WHOIS(opt_text(a), b@),
            Command::WHOWAS(a, b) => Command::WHOWAS(a@, opt_text(b)),
            Command::AWAY(a) => Command::AWAY(opt_text(a)),
            Command::ACCOUNT(a) => Command::ACCOUNT(a@),
            Command::CHGHOST(a, b) => Command::CHGHOST(a@, b@),
            Command::MONITOR(a, b) => Command::MONITOR(a@, opt_text(b)),
            Command::Numeric(a, b) => Command::Numeric(a, texts(b@)),
            Command::Unknown(a, b) => Command::Unknown(a@, texts(b@)),
        }
    }
}

impl Clone for Command {
    fn clone(&self) -> (res: Self)
        ensures
            res@ == self@,
    {
        match self {
            Command::BATCH(a, b) => Command::BATCH(a.clone(), text::copy_texts(b)),
            Command::CAP(a, b, c, d) => Command::CAP(
                text::copy_opt_text(a),
                b.clone(),
                text::copy_opt_text(c),
                text::copy_opt_text(d),
            ),
            Command::AUTHENTICATE(a) => Command::AUTHENTICATE(a.clone()),
            Command::PASS(a) => Command::PASS(a.clone()),
            Command::NICK(a) => Command::NICK(a.clone()),
            Command::USER(a, b) => Command::USER(a.clone(), b.clone()),
            Command::QUIT(a) => Command::QUIT(text::copy_opt_text(a)),
            Command::JOIN(a, b) => Command::JOIN(a.clone(), text::copy_opt_text(b)),
            Command::PART(a, b) => Command::PART(a.clone(), text::copy_opt_text(b)),
            Command::TOPIC(a, b) => Command::TOPIC(a.clone(), text::copy_opt_text(b)),
            Command::INVITE(a, b) => Command::INVITE(a.clone(), b.clone()),
            Command::KICK(a, b, c) => Command::KICK(a.clone(), b.clone(), text::copy_opt_text(c)),
            Command::MODE(a, b, c) => Command::MODE(
                a.clone(),
                text::copy_opt_text(b),
                match c {
                    Some(c) => Some(text::copy_texts(c)),
                    None => None,
                },
            ),
            Command::PRIVMSG(a, b) => Command::PRIVMSG(a.clone(), b.clone()),
            Command::NOTICE(a, b) => Command::NOTICE(a.clone(), b.clone()),
            Command::TAGMSG(a) => Command::TAGMSG(a.clone()),
            Command::WHO(a, b, c) => Command::WHO(
                a.clone(),
                text::copy_opt_text(b),
                text::copy_opt_text(c),
            ),
            Command::WHOIS(a, b) => Command::WHOIS(text::copy_opt_text(a), b.clone()),
            Command::WHOWAS(a, b) => Command::WHOWAS(a.clone(), text::copy_opt_text(b)),
            Command::AWAY(a) => Command::AWAY(text::copy_opt_text(a)),
            Command::ACCOUNT(a) => Command::ACCOUNT(a.clone()),
            Command::CHGHOST(a, b) => Command::CHGHOST(a.clone(), b.clone()),
            Command::MONITOR(a, b) => Command::MONITOR(a.clone(), text::copy_opt_text(b)),
            Command::Numeric(a, b) => Command::Numeric(*a, text::copy_texts(b)),
            Command::Unknown(a, b) => Command::Unknown(a.clone(), text::copy_texts(b)),
        }
    }
}

/// A message that is sent to a server.
#[derive(Debug)]
pub struct Message {
    pub tags: Vec<Tag>,
    pub command: Command,
}

/// What a message holds.
pub struct MessageView {
    pub tags: Seq<TagView>,
    pub command: CommandView,
}

impl View for Message {
    type V = MessageView;

    open spec fn view(&self) -> MessageView {
        MessageView { tags: tag_views(self.tags@), command: self.command@ }
    }
}

impl MessageView {
    /// A command without tags.
    pub open spec fn plain(command: CommandView) -> MessageView {
        MessageView { tags: Seq::empty(), command }
    }
}

/// What a list of messages holds.
pub open spec fn message_views(messages: Seq<Message>) -> Seq<MessageView> {
    messages.map_values(|message: Message| message@)
}

impl Message {
    /// A command without tags.
    pub fn plain(command: Command) -> (message: Message)
        ensures
            message@ == MessageView::plain(command@),
            message.command == command,
    {
        let message = Message { tags: Vec::new(), command };
        assert(tag_views(message.tags@) =~= Seq::<TagView>::empty());
        message
    }
}

/// The most bytes that a line of the protocol has.
pub const BYTE_LIMIT: u128 = 512;

/// The characters with which the name of a channel starts.
pub open spec fn is_channel_prefix(c: char) -> bool {
    c == '#' || c == '&' || c == '+' || c == '!'
}

/// Whether a target is a channel.
pub open spec fn names_channel(target: Seq<char>) -> bool {
    target.len() > 0 && is_channel_prefix(target[0])
}

/// Whether a target is a channel.
pub fn is_channel(target: &str) -> (res: bool)
    ensures
        res == names_channel(target@),
{
    match text::first_char(target) {
        Some(c) => c == '#' || c == '&' || c == '+' || c == '!',
        None => false,
    }
}

/// Whether a list holds a tag with a key.
pub open spec fn has_tag(tags: Seq<Tag>, key: Seq<char>) -> bool {
    exists|i: int| 0 <= i < tags.len() && (#[trigger] tags[i]).key@ == key
}

/// The place of the first tag with a key.
pub open spec fn tag_place(tags: Seq<Tag>, key: Seq<char>) -> int {
    choose|i: int|
        0 <= i < tags.len() && (#[trigger] tags[i]).key@ == key && forall|j: int|
            0 <= j < i ==> (#[trigger] tags[j]).key@ != key
}

/// The value of the first tag with a key.
pub open spec fn tag_value(tags: Seq<Tag>, key: Seq<char>) -> Option<Seq<char>> {
    if has_tag(tags, key) {
        opt_text(tags[tag_place(tags, key)].value)
    } else {
        None
    }
}

/// The tags without the first one that has a key.
pub open spec fn without_tag(tags: Seq<Tag>, key: Seq<char>) -> Seq<Tag> {
    if has_tag(tags, key) {
        tags.remove(tag_place(tags, key))
    } else {
        tags
    }
}

/// The first tag with a key stands in one place.
pub proof fn lemma_tag_place(tags: Seq<Tag>, key: Seq<char>, i: int)
    requires
        0 <= i < tags.len(),
        tags[i].key@ == key,
        forall|j: int| 0 <= j < i ==> (#[trigger] tags[j]).key@ != key,
    ensures
        has_tag(tags, key),
        tag_place(tags, key) == i,
{
    let k = tag_place(tags, key);
    assert(0 <= k < tags.len() && tags[k].key@ == key);
    assert(!(k < i));
    assert(!(i < k));
}

/// Where there is a tag with a key, its first place is a place of the list.
pub proof fn lemma_has_tag(tags: Seq<Tag>, key: Seq<char>)
    requires
        has_tag(tags, key),
    ensures
        0 <= tag_place(tags, key) < tags.len(),
        tags[tag_place(tags, key)].key@ == key,
        without_tag(tags, key).len() == tags.len() - 1,
{
    let i = choose|i: int| 0 <= i < tags.len() && (#[trigger] tags[i]).key@ == key;
    lemma_first_tag(tags, key, i);
}

proof fn lemma_first_tag(tags: Seq<Tag>, key: Seq<char>, i: int)
    requires
        0 <= i < tags.len(),
        tags[i].key@ == key,
    ensures
        0 <= tag_place(tags, key) < tags.len(),
        tags[tag_place(tags, key)].key@ == key,
    decreases i,
{
    if exists|j: int| 0 <= j < i && (#[trigger] tags[j]).key@ == key {
        let j = choose|j: int| 0 <= j < i && (#[trigger] tags[j]).key@ == key;
        lemma_first_tag(tags, key, j);
    } else {
        lemma_tag_place(tags, key, i);
    }
}

/// Takes the first tag with a key out of a list, and gives back its value.
pub fn remove_tag(key: &str, tags: &mut Vec<Tag>) -> (value: Option<String>)
    ensures
        opt_text(value) == tag_value(old(tags)@, key@),
        final(tags)@ == without_tag(old(tags)@, key@),
{
    let len = tags.len();
    for i in 0..len
        invariant
            tags@ == old(tags)@,
            len == tags@.len(),
            forall|j: int| 0 <= j < i ==> (#[trigger] tags@[j]).key@ != key@,
    {
        if text::same(tags[i].key.as_str(), key) {
            proof {
                lemma_tag_place(tags@, key@, i as int);
            }
            return tags.remove(i).value;
        }
    }
    assert(!has_tag(tags@, key@));
    None
}

/// A target is a channel where it begins with one of the four marks of channels.
pub proof fn law_names_channel(target: Seq<char>)
    ensures
        names_channel(target) <==> target.len() > 0 && seq!['#', '&', '+', '!'].contains(target[0]),
{
    let marks = seq!['#', '&', '+', '!'];
    assert(marks[0] == '#' && marks[1] == '&' && marks[2] == '+' && marks[3] == '!');
}

/// What messages hold tells them apart by their tags and by the parameters of their commands.
pub proof fn law_what_messages_hold(a: Message, b: Message)
    requires
        a@ == b@,
    ensures
        a.tags@.len() == b.tags@.len(),
        forall|i: int|
            0 <= i < a.tags@.len() ==> (#[trigger] a.tags@[i]).key@ == b.tags@[i].key@ && opt_text(
                a.tags@[i].value,
            ) == opt_text(b.tags@[i].value),
        a.command matches Command::JOIN(channels, keys) ==> b.command is JOIN && channels@
            == b.command->JOIN_0@ && opt_text(keys) == opt_text(b.command->JOIN_1),
        a.command matches Command::PRIVMSG(target, words) ==> b.command is PRIVMSG && target@
            == b.command->PRIVMSG_0@ && words@ == b.command->PRIVMSG_1@,
        a.command matches Command::NICK(nick) ==> b.command is NICK && nick@ == b.command->NICK_0@,
        a.command matches Command::MODE(target, modes, _) ==> b.command is MODE && target@
            == b.command->MODE_0@ && opt_text(modes) == opt_text(b.command->MODE_1),
        a.command matches Command::WHO(mask, fields, token) ==> b.command is WHO && mask@
            == b.command->WHO_0@ && opt_text(fields) == opt_text(b.command->WHO_1) && opt_text(token)
            == opt_text(b.command->WHO_2),
        a.command matches Command::CAP(_, sub, caps, _) ==> b.command is CAP && sub@
            == b.command->CAP_1@ && opt_text(caps) == opt_text(b.command->CAP_2),
        a.command matches Command::AUTHENTICATE(param) ==> b.command is AUTHENTICATE && param@
            == b.command->AUTHENTICATE_0@,
        a.command matches Command::MONITOR(sub, targets) ==> b.command is MONITOR && sub@
            == b.command->MONITOR_0@ && opt_text(targets) == opt_text(b.command->MONITOR_1),
        a.command matches Command::QUIT(reason) ==> b.command is QUIT && opt_text(reason)
            == opt_text(b.command->QUIT_0),
{
    assert(tag_views(a.tags@).len() == tag_views(b.tags@).len());
    assert forall|i: int| 0 <= i < a.tags@.len() implies (#[trigger] a.tags@[i]).key@ == b.tags@[i].key@
        && opt_text(a.tags@[i].value) == opt_text(b.tags@[i].value) by {
        assert(tag_views(a.tags@)[i] == tag_views(b.tags@)[i]);
    }
}

} // verus!
