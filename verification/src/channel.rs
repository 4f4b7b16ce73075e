//! The channels that a client is in.

use vstd::prelude::*;

use crate::isupport::WhoToken;
use crate::message::Content;
use crate::string_map;
use crate::string_map::{Duplicate, StringMap};
use crate::text;
use crate::text::{in_order, increasing, texts};
use crate::time::{DateTime, Instant};
use crate::user::{with_change, Change, ChangeView, UserSet, Users};

verus! {

/// How far a request for the state of a channel's users has come.
#[derive(Debug)]
pub enum WhoStatus {
    Requested(Instant, Option<WhoToken>),
    Receiving(Option<WhoToken>),
    Done(Instant),
}

impl Clone for WhoStatus {
    fn clone(&self) -> (res: Self)
        ensures
            res == *self,
    {
        match self {
            WhoStatus::Requested(at, Some(token)) => WhoStatus::Requested(*at, Some(token.clone())),
            WhoStatus::Requested(at, None) => WhoStatus::Requested(*at, None),
            WhoStatus::Receiving(Some(token)) => WhoStatus::Receiving(Some(token.clone())),
            WhoStatus::Receiving(None) => WhoStatus::Receiving(None),
            WhoStatus::Done(at) => WhoStatus::Done(*at),
        }
    }
}

/// The topic of a channel, who set it and when.
#[derive(Debug)]
pub struct Topic {
    pub content: Option<Content>,
    pub who: Option<String>,
    pub time: Option<DateTime>,
}

impl Topic {
    /// No topic.
    pub open spec fn none() -> Topic {
        Topic { content: None, who: None, time: None }
    }

    /// No topic.
    pub fn new() -> (topic: Topic)
        ensures
            topic == Topic::none(),
    {
        Topic { content: None, who: None, time: None }
    }
}

impl Default for Topic {
    fn default() -> (topic: Topic)
        ensures
            topic == Topic::none(),
    {
        Topic::new()
    }
}

impl Clone for Topic {
    fn clone(&self) -> (res: Self)
        ensures
            res == *self,
    {
        Topic {
            content: match &self.content {
                Some(content) => Some(content.clone()),
                None => None,
            },
            who: text::copy_opt_text(&self.who),
            time: self.time,
        }
    }
}

/// A channel that a client is in.
#[derive(Debug)]
pub struct Channel {
    pub users: UserSet,
    pub last_who: Option<WhoStatus>,
    pub topic: Topic,
    /// Whether the list of users that comes with joining has been received.
    pub names_init: bool,
}

/// What is known of a channel.
#[verifier::ext_equal]
pub struct ChannelView {
    pub users: Users,
    pub last_who: Option<WhoStatus>,
    pub topic: Topic,
    pub names_init: bool,
}

impl View for Channel {
    type V = ChannelView;

    open spec fn view(&self) -> ChannelView {
        ChannelView {
            users: self.users@,
            last_who: self.last_who,
            topic: self.topic,
            names_init: self.names_init,
        }
    }
}

impl ChannelView {
    /// A channel of which nothing is known.
    pub open spec fn fresh() -> ChannelView {
        ChannelView {
            users: Users::empty(),
            last_who: None,
            topic: Topic::none(),
            names_init: false,
        }
    }

    /// The channel after something changed of the user with a nickname.
    pub open spec fn with_change(self, nickname: Seq<char>, change: ChangeView) -> ChannelView {
        ChannelView { users: with_change(self.users, nickname, change), ..self }
    }

    /// The channel without the user with a nickname.
    pub open spec fn without(self, nickname: Seq<char>) -> ChannelView {
        ChannelView { users: self.users.remove(nickname), ..self }
    }

    /// The channel after the server told of a user whether it is here or gone.
    pub open spec fn with_away_flags(self, nickname: Seq<char>, flags: Seq<char>) -> ChannelView {
        if flags.len() > 0 && flags[0] == 'G' {
            self.with_change(nickname, Change::Away(true))
        } else if flags.len() > 0 && flags[0] == 'H' {
            self.with_change(nickname, Change::Away(false))
        } else {
            self
        }
    }
}

impl Default for Channel {
    fn default() -> (channel: Channel)
        ensures
            channel@ == ChannelView::fresh(),
    {
        Channel { users: UserSet::new(), last_who: None, topic: Topic::new(), names_init: false }
    }
}

impl Clone for Channel {
    fn clone(&self) -> (res: Self)
        ensures
            res@ == self@,
    {
        Channel {
            users: self.users.copy(),
            last_who: match &self.last_who {
                Some(status) => Some(status.clone()),
                None => None,
            },
            topic: self.topic.clone(),
            names_init: self.names_init,
        }
    }
}

impl Duplicate for Channel {
    fn duplicate(&self) -> (copy: Channel) {
        self.clone()
    }
}

impl Channel {
    /// Records whether a user is here or gone: the first flag is `H` or `G`. Another flag says
    /// nothing.
    pub fn update_user_away(&mut self, user: &str, flags: &str)
        ensures
            final(self)@ == old(self)@.with_away_flags(user@, flags@),
    {
        match text::first_char(flags) {
            Some('G') => self.users.change(user, &Change::Away(true)),
            Some('H') => self.users.change(user, &Change::Away(false)),
            _ => {},
        }
    }

    /// Records which account a user has.
    pub fn update_user_accountname(&mut self, user: &str, accountname: &str)
        ensures
            final(self)@ == old(self)@.with_change(user@, Change::Accountname(accountname@)),
    {
        if let Some(user) = self.users.take(user) {
            let _ = self.users.insert(user.with_accountname(accountname));
        } else {
            assert(self.users@ =~= old(self).users@);
        }
    }
}

/// The channels that a client is in, by name.
pub type Channels = Map<Seq<char>, ChannelView>;

/// The channels after something changed of the user with a nickname.
pub open spec fn everywhere(channels: Channels, nickname: Seq<char>, change: ChangeView) -> Channels {
    channels.map_values(|channel: ChannelView| channel.with_change(nickname, change))
}

/// The channels without the user with a nickname.
pub open spec fn nowhere(channels: Channels, nickname: Seq<char>) -> Channels {
    channels.map_values(|channel: ChannelView| channel.without(nickname))
}

/// The names of the channels that a user is in, in order.
pub open spec fn channels_of(channels: Channels, nickname: Seq<char>) -> Seq<Seq<char>> {
    in_order(channels.dom().filter(|name: Seq<char>| channels[name].users.contains_key(nickname)))
}

/// Records in every channel that something changed of the user with a nickname.
pub fn change_everywhere(channels: &mut StringMap<Channel>, nickname: &str, change: &Change)
    ensures
        final(channels)@ == everywhere(old(channels)@, nickname@, change@),
{
    let len = channels.len();
    let ghost f = |channel: ChannelView| channel.with_change(nickname@, change@);
    for i in 0..len
        invariant
            len == old(channels).names().len(),
            channels.names() == old(channels).names(),
            channels.items().len() == len,
            old(channels).items().len() == len,
            f == (|channel: ChannelView| channel.with_change(nickname@, change@)),
            forall|j: int|
                0 <= j < i ==> (#[trigger] channels.items()[j])@ == f(old(channels).items()[j]@),
            forall|j: int| i <= j < len ==> #[trigger] channels.items()[j] == old(channels).items()[j],
    {
        let channel = channels.value_at_mut(i);
        channel.users.change(nickname, change);
    }
    proof {
        string_map::lemma_each(*old(channels), *channels, f);
    }
}

/// Removes the user with a nickname from every channel.
pub fn remove_everywhere(channels: &mut StringMap<Channel>, nickname: &str)
    ensures
        final(channels)@ == nowhere(old(channels)@, nickname@),
{
    let len = channels.len();
    let ghost f = |channel: ChannelView| channel.without(nickname@);
    for i in 0..len
        invariant
            len == old(channels).names().len(),
            channels.names() == old(channels).names(),
            channels.items().len() == len,
            old(channels).items().len() == len,
            f == (|channel: ChannelView| channel.without(nickname@)),
            forall|j: int|
                0 <= j < i ==> (#[trigger] channels.items()[j])@ == f(old(channels).items()[j]@),
            forall|j: int| i <= j < len ==> #[trigger] channels.items()[j] == old(channels).items()[j],
    {
        let channel = channels.value_at_mut(i);
        let _ = channel.users.remove(nickname);
    }
    proof {
        string_map::lemma_each(*old(channels), *channels, f);
    }
}

/// The names of the channels that a user is in, in order.
pub fn user_channels(channels: &StringMap<Channel>, nickname: &str) -> (names: Vec<String>)
    ensures
        texts(names@) == channels_of(channels@, nickname@),
        channels@.dom().finite(),
{
    let len = channels.len();
    let ghost all = channels.names();
    let mut names: Vec<String> = Vec::new();
    for i in 0..len
        invariant
            len == all.len(),
            all == channels.names(),
            increasing(all),
            increasing(texts(names@)),
            forall|name: Seq<char>| #[trigger]
                texts(names@).contains(name) <==> exists|j: int|
                    0 <= j < i && #[trigger] all[j] == name && channels@[name].users.contains_key(
                        nickname@,
                    ),
            forall|j: int| 0 <= j < i ==> channels@.contains_key(#[trigger] all[j]),
    {
        let ghost so_far = texts(names@);
        let channel = channels.value_at(i);
        if channel.users.contains(nickname) {
            let name = channels.key_at(i);
            names.push(name.clone());
            proof {
                let more = texts(names@);
                assert(more =~= so_far.push(name@));
                assert forall|a: int, b: int| 0 <= a < b < more.len() implies text::before(
                    #[trigger] more[a],
                    #[trigger] more[b],
                ) by {
                    assert(so_far[a] == more[a]);
                    if b < so_far.len() {
                        assert(so_far[b] == more[b]);
                    } else {
                        assert(so_far.contains(so_far[a]));
                        let k = choose|k: int| 0 <= k < i && #[trigger] all[k] == so_far[a];
                        assert(text::before(all[k], all[i as int]));
                    }
                }
                assert forall|other: Seq<char>| #[trigger] more.contains(other) <==> exists|j: int|
                    0 <= j < i + 1 && #[trigger] all[j] == other && channels@[other].users.contains_key(
                        nickname@,
                    ) by {
                    if more.contains(other) {
                        let j = more.index_of(other);
                        if j < so_far.len() {
                            assert(so_far[j] == other);
                            assert(so_far.contains(other));
                        } else {
                            assert(all[i as int] == other);
                        }
                    }
                    if exists|j: int|
                        0 <= j < i + 1 && #[trigger] all[j] == other
                            && channels@[other].users.contains_key(nickname@) {
                        let j = choose|j: int|
                            0 <= j < i + 1 && #[trigger] all[j] == other
                                && channels@[other].users.contains_key(nickname@);
                        if j < i {
                            assert(so_far.contains(other));
                            let k = so_far.index_of(other);
                            assert(more[k] == other);
                        } else {
                            assert(more[so_far.len() as int] == other);
                        }
                    }
                }
            }
        }
    }
    proof {
        let list = texts(names@);
        let chosen = channels@.dom().filter(
            |name: Seq<char>| channels@[name].users.contains_key(nickname@),
        );
        text::lemma_in_order(list);
        assert forall|name: Seq<char>| list.to_set().contains(name) <==> chosen.contains(name) by {
            if chosen.contains(name) {
                assert(channels@.contains_key(name));
                assert(all.contains(name));
                let j = all.index_of(name);
                assert(all[j] == name);
            }
            assert(list.to_set().contains(name) <==> list.contains(name));
        }
        assert(list.to_set() =~= chosen);
    }
    names
}

/// What is known of channels tells them apart in all that they hold.
pub proof fn law_known_of_channels(a: Channel, b: Channel)
    requires
        a@ == b@,
    ensures
        a.users@ == b.users@,
        a.last_who == b.last_who,
        a.topic == b.topic,
        a.names_init == b.names_init,
{
}

} // verus!
