//! What the messages of a server mean for whoever shows them.

use vstd::prelude::*;

use crate::buffer::{Buffer, Server};
use crate::isupport::Parameter;
use crate::message::{DccSend, Encoded, EncodedView};
use crate::sender::Sender;
use crate::string_map::StringMap;
use crate::text::{opt_text, texts};
use crate::time::DateTime;
use crate::user::{user_views, Nick, User, UserView};

verus! {

/// Something to which attention is drawn.
#[derive(Debug)]
pub enum Notification {
    DirectMessage(User),
    Highlight(User, String),
    MonitoredOnline(Vec<User>),
    MonitoredOffline(Vec<Nick>),
}

/// What a notification holds.
pub enum NotificationView {
    DirectMessage(UserView),
    Highlight(UserView, Seq<char>),
    MonitoredOnline(Seq<UserView>),
    MonitoredOffline(Seq<Seq<char>>),
}

/// What a list of nicknames holds.
pub open spec fn nick_views(nicks: Seq<Nick>) -> Seq<Seq<char>> {
    nicks.map_values(|nick: Nick| nick@)
}

impl View for Notification {
    type V = NotificationView;

    open spec fn view(&self) -> NotificationView {
        match *self {
            Notification::DirectMessage(user) => NotificationView::DirectMessage(user@),
            Notification::Highlight(user, channel) => NotificationView::Highlight(user@, channel@),
            Notification::MonitoredOnline(users) => NotificationView::MonitoredOnline(
                user_views(users@),
            ),
            Notification::MonitoredOffline(nicks) => NotificationView::MonitoredOffline(
                nick_views(nicks@),
            ),
        }
    }
}

/// Something that is told in every channel that it concerns.
#[derive(Debug)]
pub enum Broadcast {
    Quit { user: User, comment: Option<String>, channels: Vec<String>, sent_time: DateTime },
    Nickname {
        old_user: User,
        new_nick: Nick,
        ourself: bool,
        channels: Vec<String>,
        sent_time: DateTime,
    },
    Invite { inviter: User, channel: String, user_channels: Vec<String>, sent_time: DateTime },
    ChangeHost {
        old_user: User,
        new_username: String,
        new_hostname: String,
        ourself: bool,
        channels: Vec<String>,
        sent_time: DateTime,
    },
}

/// What a broadcast holds.
pub enum BroadcastView {
    Quit {
        user: UserView,
        comment: Option<Seq<char>>,
        channels: Seq<Seq<char>>,
        sent_time: DateTime,
    },
    Nickname {
        old_user: UserView,
        new_nick: Seq<char>,
        ourself: bool,
        channels: Seq<Seq<char>>,
        sent_time: DateTime,
    },
    Invite {
        inviter: UserView,
        channel: Seq<char>,
        user_channels: Seq<Seq<char>>,
        sent_time: DateTime,
    },
    ChangeHost {
        old_user: UserView,
        new_username: Seq<char>,
        new_hostname: Seq<char>,
        ourself: bool,
        channels: Seq<Seq<char>>,
        sent_time: DateTime,
    },
}

impl View for Broadcast {
    type V = BroadcastView;

    open spec fn view(&self) -> BroadcastView {
        match *self {
            Broadcast::Quit { user, comment, channels, sent_time } => BroadcastView::Quit {
                user: user@,
                comment: opt_text(comment),
                channels: texts(channels@),
                sent_time,
            },
            Broadcast::Nickname { old_user, new_nick, ourself, channels, sent_time } => {
                BroadcastView::Nickname {
                    old_user: old_user@,
                    new_nick: new_nick@,
                    ourself,
                    channels: texts(channels@),
                    sent_time,
                }
            },
            Broadcast::Invite { inviter, channel, user_channels, sent_time } => {
                BroadcastView::Invite {
                    inviter: inviter@,
                    channel: channel@,
                    user_channels: texts(user_channels@),
                    sent_time,
                }
            },
            Broadcast::ChangeHost {
                old_user,
                new_username,
                new_hostname,
                ourself,
                channels,
                sent_time,
            } => BroadcastView::ChangeHost {
                old_user: old_user@,
                new_username: new_username@,
                new_hostname: new_hostname@,
                ourself,
                channels: texts(channels@),
                sent_time,
            },
        }
    }
}

/// A request of another user to take a file.
#[derive(Debug)]
pub struct ReceiveRequest {
    pub from: Nick,
    pub dcc_send: DccSend,
    pub server: Server,
    /// Where the answer is to be put.
    pub sender: Sender,
}

/// What a request to take a file holds.
pub struct ReceiveRequestView {
    pub from: Seq<char>,
    pub dcc_send: DccSend,
    pub server: Server,
    /// The queue in which the answer is to be put.
    pub queue: int,
}

impl View for ReceiveRequest {
    type V = ReceiveRequestView;

    open spec fn view(&self) -> ReceiveRequestView {
        ReceiveRequestView {
            from: self.from@,
            dcc_send: self.dcc_send,
            server: self.server,
            queue: self.sender@.queue,
        }
    }
}

/// What a message means. `T` is the form that messages have.
#[derive(Debug)]
pub enum Event<T = Encoded> {
    /// A message, to be shown where it belongs.
    Single(T),
    /// A message, to be shown among what the server says in a buffer.
    WithTarget(T, Buffer),
    Broadcast(Broadcast),
    Notification(T, Notification),
    FileTransferRequest(ReceiveRequest),
    /// The nickname of this client, from now on.
    NickUpdated(String),
    /// What the server supports, from now on.
    IsupportUpdated(StringMap<Parameter>),
}

/// What an event holds. `T` is what messages hold.
pub enum EventView<T = EncodedView> {
    Single(T),
    WithTarget(T, Buffer),
    Broadcast(BroadcastView),
    Notification(T, NotificationView),
    FileTransferRequest(ReceiveRequestView),
    NickUpdated(Seq<char>),
    IsupportUpdated(Map<Seq<char>, Parameter>),
}

impl<T: View> View for Event<T> {
    type V = EventView<T::V>;

    open spec fn view(&self) -> EventView<T::V> {
        match *self {
            Event::Single(message) => EventView::Single(message@),
            Event::WithTarget(message, buffer) => EventView::WithTarget(message@, buffer),
            Event::Broadcast(broadcast) => EventView::Broadcast(broadcast@),
            Event::Notification(message, notification) => EventView::Notification(
                message@,
                notification@,
            ),
            Event::FileTransferRequest(request) => EventView::FileTransferRequest(request@),
            Event::NickUpdated(nick) => EventView::NickUpdated(nick@),
            Event::IsupportUpdated(isupport) => EventView::IsupportUpdated(isupport@),
        }
    }
}

/// What a list of events holds.
pub open spec fn event_views(events: Seq<Event>) -> Seq<EventView> {
    events.map_values(|event: Event| event@)
}

impl Event {
    /// The message that an event comes with.
    pub fn message(&self) -> (message: Option<&Encoded>)
        ensures
            match *self {
                Event::Single(carried) => message == Some(&carried),
                Event::WithTarget(carried, _) => message == Some(&carried),
                Event::Notification(carried, _) => message == Some(&carried),
                _ => message is None,
            },
    {
        match self {
            Event::Single(message) => Some(message),
            Event::WithTarget(message, _) => Some(message),
            Event::Notification(message, _) => Some(message),
            _ => None,
        }
    }

    /// The event with its message read; `None` where the message that it comes with is not one to
    /// be shown. `received` is what reading the message gave.
    pub fn decode<M>(self, received: Option<M>) -> (event: Option<Event<M>>)
        ensures
            match self {
                Event::Single(_) => match received {
                    Some(message) => event == Some(Event::<M>::Single(message)),
                    None => event is None,
                },
                Event::WithTarget(_, target) => match received {
                    Some(message) => event == Some(Event::<M>::WithTarget(message, target)),
                    None => event is None,
                },
                Event::Notification(_, notification) => match received {
                    Some(message) => event == Some(Event::<M>::Notification(message, notification)),
                    None => event is None,
                },
                Event::Broadcast(broadcast) => event == Some(Event::<M>::Broadcast(broadcast)),
                Event::FileTransferRequest(request) => event == Some(
                    Event::<M>::FileTransferRequest(request),
                ),
                Event::NickUpdated(nick) => event == Some(Event::<M>::NickUpdated(nick)),
                Event::IsupportUpdated(isupport) => event == Some(
                    Event::<M>::IsupportUpdated(isupport),
                ),
            },
    {
        match self {
            Event::Single(_) => match received {
                Some(message) => Some(Event::Single(message)),
                None => None,
            },
            Event::WithTarget(_, target) => match received {
                Some(message) => Some(Event::WithTarget(message, target)),
                None => None,
            },
            Event::Notification(_, notification) => match received {
                Some(message) => Some(Event::Notification(message, notification)),
                None => None,
            },
            Event::Broadcast(broadcast) => Some(Event::Broadcast(broadcast)),
            Event::FileTransferRequest(request) => Some(Event::FileTransferRequest(request)),
            Event::NickUpdated(nick) => Some(Event::NickUpdated(nick)),
            Event::IsupportUpdated(isupport) => Some(Event::IsupportUpdated(isupport)),
        }
    }
}

/// What is told in channels tells apart whom it is about, what it says, where and when.
pub proof fn law_what_broadcasts_hold(a: Broadcast, b: Broadcast)
    requires
        a@ == b@,
    ensures
        a matches Broadcast::Quit { user, comment, channels, sent_time } ==> b is Quit && user@
            == b->Quit_user@ && opt_text(comment) == opt_text(b->Quit_comment) && texts(channels@)
            == texts(b->Quit_channels@) && sent_time == b->Quit_sent_time,
        a matches Broadcast::Nickname { old_user, new_nick, ourself, channels, sent_time } ==> b
            is Nickname && old_user@ == b->Nickname_old_user@ && new_nick@ == b->Nickname_new_nick@
            && ourself == b->Nickname_ourself && texts(channels@) == texts(b->Nickname_channels@)
            && sent_time == b->Nickname_sent_time,
        a matches Broadcast::Invite { inviter, channel, user_channels, sent_time } ==> b is Invite
            && inviter@ == b->Invite_inviter@ && channel@ == b->Invite_channel@ && texts(
            user_channels@,
        ) == texts(b->Invite_user_channels@) && sent_time == b->Invite_sent_time,
        a matches Broadcast::ChangeHost { old_user, new_username, new_hostname, .. } ==> b
            is ChangeHost && old_user@ == b->ChangeHost_old_user@ && new_username@
            == b->ChangeHost_new_username@ && new_hostname@ == b->ChangeHost_new_hostname@,
{
}

/// A request to take a file tells apart whom it comes from, what is offered, the server, and the
/// queue in which the answer is to be put.
pub proof fn law_what_requests_hold(a: ReceiveRequest, b: ReceiveRequest)
    requires
        a@ == b@,
    ensures
        a.from@ == b.from@,
        a.dcc_send == b.dcc_send,
        a.server == b.server,
        a.sender@.queue == b.sender@.queue,
{
}

} // verus!
