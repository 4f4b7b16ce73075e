//! What users say, and who of those that are watched comes and goes.

use vstd::prelude::*;
use vstd::string::StringExecFns;

use super::{outgoing_views, Client, ClientView, OutcomeView, Outgoing, OutgoingView};
use super::{Reply, ReplyView, Step};
use crate::event::{nick_views, Event, EventView, Notification, NotificationView};
use crate::event::{ReceiveRequest, ReceiveRequestView};
use crate::message::{CtcpCommand, CtcpQuery, DccCommand, Parsed};
use crate::text;
use crate::text::{opt_text, split_on, texts};
use crate::user::{user_views, Nick, User, UserView};

verus! {

/// The questions that this client answers.
pub open spec fn client_info() -> Seq<char> {
    "ACTION CLIENTINFO DCC PING SOURCE VERSION"@
}

/// The answer to a question of another client: the parameters, where there is an answer.
pub open spec fn answer(client: ClientView, query: CtcpQuery) -> Option<Option<Seq<char>>> {
    match query.command {
        CtcpCommand::ClientInfo => Some(Some(client_info())),
        CtcpCommand::Ping => Some(opt_text(query.params)),
        CtcpCommand::Source => Some(Some(client.environment.source_website@)),
        CtcpCommand::Version => Some(Some("Halloy "@ + client.environment.version@)),
        _ => None,
    }
}

/// What is sent about a question of another client.
pub open spec fn answers(client: ClientView, query: CtcpQuery, nick: Seq<char>) -> Seq<OutgoingView> {
    match answer(client, query) {
        Some(params) => seq![OutgoingView::Ctcp { command: query.command, target: nick, params }],
        None => Seq::empty(),
    }
}

/// Whether a text asks a question of this client: one of another user, and neither a request for
/// a connection nor what tells what its author does.
pub open spec fn asks_us(client: ClientView, nick: Seq<char>, parsed: Parsed) -> bool {
    nick != client.nick() && parsed.is_query && !parsed.is_action && parsed.query is Some
}

/// Somebody says something to a target. A question is answered only where it was asked, not where
/// it was answered; a message that this client sent itself, and already shows, comes to nothing.
pub open spec fn on_text(
    client: ClientView,
    target: Seq<char>,
    question: bool,
    parsed: Parsed,
    answered: bool,
) -> Step {
    match parsed.user {
        None => Step::shown(client),
        Some(user) => {
            let nick = user@.nickname;
            match parsed.dcc {
                Some(DccCommand::Send(request)) => Step::events(
                    client,
                    seq![
                        EventView::FileTransferRequest(
                            ReceiveRequestView {
                                from: nick,
                                dcc_send: request,
                                server: client.server,
                                queue: client.queue,
                            },
                        ),
                    ],
                ),
                Some(DccCommand::Unsupported(_)) => Step::nothing(client),
                None => if asks_us(client, nick, parsed) {
                    Step {
                        client,
                        reply: ReplyView {
                            sent: if question {
                                answers(client, parsed.query->0, nick)
                            } else {
                                Seq::empty()
                            },
                            outcome: OutcomeView::Nothing,
                        },
                    }
                } else if parsed.references_us && client.highlight_blackout is Receiving {
                    Step::notify(client, NotificationView::Highlight(user@, target))
                } else if nick == client.nick() && answered {
                    Step::nothing(client)
                } else if target == client.nick() {
                    Step::notify(client, NotificationView::DirectMessage(user@))
                } else {
                    Step::shown(client)
                },
            }
        },
    }
}

impl Client {
    /// What is sent about a question of another client.
    fn answer_query(&self, query: &CtcpQuery, nick: &str) -> (sent: Vec<Outgoing>)
        ensures
            outgoing_views(sent@) == answers(self@, *query, nick@),
    {
        let params: Option<Option<String>> = match &query.command {
            CtcpCommand::ClientInfo => Some(
                Some("ACTION CLIENTINFO DCC PING SOURCE VERSION".to_owned()),
            ),
            CtcpCommand::Ping => Some(text::copy_opt_text(&query.params)),
            CtcpCommand::Source => Some(Some(self.environment.source_website.clone())),
            CtcpCommand::Version => Some(
                Some("Halloy ".to_owned().concat(self.environment.version.as_str())),
            ),
            _ => None,
        };
        let mut sent: Vec<Outgoing> = Vec::new();
        if let Some(params) = params {
            sent.push(
                Outgoing::Ctcp {
                    command: query.command.clone(),
                    target: nick.to_owned(),
                    params,
                },
            );
        }
        assert(outgoing_views(sent@) =~= answers(self@, *query, nick@));
        sent
    }

    /// Takes in what somebody says.
    pub(super) fn text(
        &mut self,
        target: &String,
        question: bool,
        parsed: &Parsed,
        answered: bool,
    ) -> (reply: Reply)
        ensures
            (Step { client: final(self)@, reply: reply@ }) == on_text(
                old(self)@,
                target@,
                question,
                *parsed,
                answered,
            ),
    {
        let user = match &parsed.user {
            Some(user) => user,
            None => return Reply::shown(),
        };
        match &parsed.dcc {
            Some(DccCommand::Send(request)) => {
                return Reply::event(
                    Event::FileTransferRequest(
                        ReceiveRequest {
                            from: Nick(user.nickname().to_owned()),
                            dcc_send: request.clone(),
                            server: self.server.clone(),
                            sender: self.sender.clone(),
                        },
                    ),
                );
            },
            Some(DccCommand::Unsupported(_)) => return Reply::nothing(),
            None => {},
        }
        let ours = text::same(user.nickname(), self.nickname());
        if !ours && parsed.is_query && !parsed.is_action {
            if let Some(query) = &parsed.query {
                let mut reply = Reply::nothing();
                if question {
                    reply.sent = self.answer_query(query, user.nickname());
                }
                return reply;
            }
        }
        if parsed.references_us && self.highlight_blackout.allow_highlights() {
            return Reply::notify(Notification::Highlight(user.clone(), target.clone()));
        } else if ours && answered {
            return Reply::nothing();
        }
        if text::same(target.as_str(), self.nickname()) {
            Reply::notify(Notification::DirectMessage(user.clone()))
        } else {
            Reply::shown()
        }
    }
}

// ---------------------------------------------------------------------------
// Users that are watched

/// The users that names stand for; a name that stands for no user is left out.
pub open spec fn users_of(list: Seq<Option<User>>) -> Seq<UserView>
    decreases list.len(),
{
    if list.len() == 0 {
        Seq::empty()
    } else {
        let rest = users_of(list.drop_last());
        match list.last() {
            Some(user) => rest.push(user@),
            None => rest,
        }
    }
}

/// Users that are watched have come.
pub open spec fn on_mononline(client: ClientView, args: Seq<String>, parsed: Parsed) -> Step {
    if args.len() < 2 {
        Step::nothing(client)
    } else {
        Step::notify(client, NotificationView::MonitoredOnline(users_of(parsed.users@)))
    }
}

/// Users that are watched have gone.
pub open spec fn on_monoffline(client: ClientView, args: Seq<String>) -> Step {
    if args.len() < 2 {
        Step::nothing(client)
    } else {
        Step::notify(client, NotificationView::MonitoredOffline(split_on(args[1]@, ',')))
    }
}

/// The users that names stand for.
fn known_users(list: &Vec<Option<User>>) -> (users: Vec<User>)
    ensures
        user_views(users@) == users_of(list@),
{
    let mut users: Vec<User> = Vec::new();
    proof {
        assert(list@.take(0) =~= Seq::<Option<User>>::empty());
        assert(user_views(users@) =~= Seq::<UserView>::empty());
    }
    for i in 0..list.len()
        invariant
            user_views(users@) == users_of(list@.take(i as int)),
    {
        let ghost so_far = user_views(users@);
        proof {
            assert(list@.take(i + 1).drop_last() =~= list@.take(i as int));
        }
        if let Some(user) = &list[i] {
            users.push(user.clone());
            assert(user_views(users@) =~= so_far.push(user@));
        }
    }
    assert(list@.take(list@.len() as int) =~= list@);
    users
}

/// Strings, as nicknames.
fn nicks_of(list: Vec<String>) -> (nicks: Vec<Nick>)
    ensures
        nick_views(nicks@) == texts(list@),
{
    let mut nicks: Vec<Nick> = Vec::new();
    for i in 0..list.len()
        invariant
            nicks@.len() == i,
            forall|j: int| 0 <= j < i ==> (#[trigger] nicks@[j])@ == list@[j]@,
    {
        nicks.push(Nick(list[i].clone()));
    }
    assert(nick_views(nicks@) =~= texts(list@));
    nicks
}

impl Client {
    /// Takes in that users that are watched have come.
    pub(super) fn came_online(&mut self, args: &Vec<String>, parsed: &Parsed) -> (reply: Reply)
        ensures
            (Step { client: final(self)@, reply: reply@ }) == on_mononline(
                old(self)@,
                args@,
                *parsed,
            ),
    {
        if args.len() < 2 {
            return Reply::nothing();
        }
        Reply::notify(Notification::MonitoredOnline(known_users(&parsed.users)))
    }

    /// Takes in that users that are watched have gone.
    pub(super) fn went_offline(&mut self, args: &Vec<String>) -> (reply: Reply)
        ensures
            (Step { client: final(self)@, reply: reply@ }) == on_monoffline(old(self)@, args@),
    {
        if args.len() < 2 {
            return Reply::nothing();
        }
        Reply::notify(
            Notification::MonitoredOffline(nicks_of(text::split(args[1].as_str(), ','))),
        )
    }
}

} // verus!
