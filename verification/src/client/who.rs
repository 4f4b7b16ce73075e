//! Asking for the state of a channel's users.

use vstd::prelude::*;

use super::members::with_channel;
use super::{Client, ClientView, HighlightBlackout, Reply, Step};
use crate::channel::{Channel, ChannelView, WhoStatus};
use crate::isupport::whox;
use crate::message::Parsed;
use crate::proto;
use crate::proto::{names_channel, Command, CommandView, Message, MessageView};
use crate::text;
use crate::time::Instant;
use crate::user::Change;

verus! {

/// The request for the state of a channel's users. Where the server can, it is asked for the
/// fields that are of use, and to answer with a token.
pub open spec fn who_command(client: ClientView, channel: Seq<char>) -> CommandView {
    if client.isupport.contains_key(whox()) {
        Command::WHO(
            channel,
            Some(
                if client.supports_account_notify {
                    "tcnfa"@
                } else {
                    "tcnf"@
                },
            ),
            Some(client.environment.who_poll_token.text@),
        )
    } else {
        Command::WHO(channel, None, None)
    }
}

/// How far a request is that was just sent.
pub open spec fn requested_at(client: ClientView, at: Instant) -> WhoStatus {
    if client.isupport.contains_key(whox()) {
        WhoStatus::Requested(at, Some(client.environment.who_poll_token))
    } else {
        WhoStatus::Requested(at, None)
    }
}

impl Client {
    /// The request for the state of a channel's users.
    pub(super) fn who_request(&self, channel: &String) -> (command: Command)
        ensures
            command@ == who_command(self@, channel@),
    {
        if self.isupport.contains_key("WHOX") {
            let fields = if self.supports_account_notify {
                "tcnfa".to_owned()
            } else {
                "tcnf".to_owned()
            };
            Command::WHO(
                channel.clone(),
                Some(fields),
                Some(self.environment.who_poll_token.text.clone()),
            )
        } else {
            Command::WHO(channel.clone(), None, None)
        }
    }

    /// How far a request is that was just sent.
    pub(super) fn request_status(&self, at: Instant) -> (status: WhoStatus)
        ensures
            status == requested_at(self@, at),
    {
        if self.isupport.contains_key("WHOX") {
            WhoStatus::Requested(at, Some(self.environment.who_poll_token.clone()))
        } else {
            WhoStatus::Requested(at, None)
        }
    }
}

// ---------------------------------------------------------------------------
// Answers

/// The channel after an answer to a request without a token: from the first answer on, answers
/// are being received.
pub open spec fn after_reply(state: ChannelView, nick: Seq<char>, flags: Seq<char>) -> ChannelView {
    let state = state.with_away_flags(nick, flags);
    match state.last_who {
        None | Some(WhoStatus::Requested(_, None)) => ChannelView {
            last_who: Some(WhoStatus::Receiving(None)),
            ..state
        },
        _ => state,
    }
}

/// Whether answers to a request of this client are being received.
pub open spec fn receiving(state: ChannelView) -> bool {
    state.last_who is Some && state.last_who->0 is Receiving
}

/// An answer to a request for the state of users. Answers to a request of this client are not
/// shown.
pub open spec fn on_whoreply(client: ClientView, args: Seq<String>) -> Step {
    if args.len() < 2 {
        Step::nothing(client)
    } else if names_channel(args[1]@) && client.chanmap.contains_key(args[1]@) {
        if args.len() < 7 {
            Step::nothing(client)
        } else {
            let state = after_reply(client.chanmap[args[1]@], args[5]@, args[6]@);
            let after = with_channel(client, args[1]@, state);
            if receiving(state) {
                Step::nothing(after)
            } else {
                Step::shown(after)
            }
        }
    } else {
        Step::shown(client)
    }
}

/// The channel after an answer to a request with a token: from the first answer with the token of
/// the request on, answers are being received.
pub open spec fn after_special_reply(
    client: ClientView,
    state: ChannelView,
    args: Seq<String>,
    parsed: Parsed,
) -> ChannelView {
    let state = state.with_away_flags(args[3]@, args[4]@);
    let state = if client.supports_account_notify && args.len() > 5 {
        state.with_change(args[3]@, Change::Accountname(args[5]@))
    } else {
        state
    };
    match (state.last_who, parsed.who_token) {
        (Some(WhoStatus::Requested(_, Some(request))), Some(token)) => if request.text@
            == token.text@ {
            ChannelView { last_who: Some(WhoStatus::Receiving(Some(request))), ..state }
        } else {
            state
        },
        _ => state,
    }
}

/// An answer to an extended request for the state of users.
pub open spec fn on_whospcrpl(client: ClientView, args: Seq<String>, parsed: Parsed) -> Step {
    if args.len() < 3 {
        Step::nothing(client)
    } else if names_channel(args[2]@) && client.chanmap.contains_key(args[2]@) {
        if args.len() < 5 {
            Step::nothing(client)
        } else {
            let state = after_special_reply(client, client.chanmap[args[2]@], args, parsed);
            let after = with_channel(client, args[2]@, state);
            if receiving(state) {
                Step::nothing(after)
            } else {
                Step::shown(after)
            }
        }
    } else {
        Step::shown(client)
    }
}

/// The answers to a request are complete.
pub open spec fn on_endofwho(client: ClientView, args: Seq<String>, now: Instant) -> Step {
    if args.len() < 2 {
        Step::nothing(client)
    } else if names_channel(args[1]@) && client.chanmap.contains_key(args[1]@) && receiving(
        client.chanmap[args[1]@],
    ) {
        Step::nothing(
            with_channel(
                client,
                args[1]@,
                ChannelView { last_who: Some(WhoStatus::Done(now)), ..client.chanmap[args[1]@] },
            ),
        )
    } else {
        Step::shown(client)
    }
}

impl Channel {
    /// Whether answers to a request of this client are being received.
    fn is_receiving(&self) -> (res: bool)
        ensures
            res == receiving(self@),
    {
        matches!(&self.last_who, Some(WhoStatus::Receiving(_)))
    }

    /// Takes in an answer to a request without a token.
    fn reply_received(&mut self, nick: &str, flags: &str)
        ensures
            final(self)@ == after_reply(old(self)@, nick@, flags@),
    {
        self.update_user_away(nick, flags);
        if matches!(&self.last_who, Some(WhoStatus::Requested(_, None)) | None) {
            self.last_who = Some(WhoStatus::Receiving(None));
        }
    }

    /// Takes in which request an answer is for.
    fn token_received(&mut self, parsed: &Parsed)
        ensures
            final(self)@ == (match (old(self)@.last_who, parsed.who_token) {
                (Some(WhoStatus::Requested(_, Some(request))), Some(token)) => if request.text@
                    == token.text@ {
                    ChannelView {
                        last_who: Some(WhoStatus::Receiving(Some(request))),
                        ..old(self)@
                    }
                } else {
                    old(self)@
                },
                _ => old(self)@,
            }),
    {
        let answered = match (&self.last_who, &parsed.who_token) {
            (Some(WhoStatus::Requested(_, Some(request))), Some(token)) => if text::same(
                request.text.as_str(),
                token.text.as_str(),
            ) {
                Some(request.clone())
            } else {
                None
            },
            _ => None,
        };
        if let Some(request) = answered {
            self.last_who = Some(WhoStatus::Receiving(Some(request)));
        }
    }
}

impl Client {
    /// Takes in an answer to a request for the state of users.
    pub(super) fn who_reply(&mut self, args: &Vec<String>) -> (reply: Reply)
        ensures
            (Step { client: final(self)@, reply: reply@ }) == on_whoreply(old(self)@, args@),
    {
        if args.len() < 2 {
            return Reply::nothing();
        }
        let ghost before = self@.chanmap;
        if proto::is_channel(args[1].as_str()) {
            if let Some(channel) = self.chanmap.get_mut(args[1].as_str()) {
                if args.len() < 7 {
                    assert(before.insert(args@[1]@, before[args@[1]@]) =~= before);
                    return Reply::nothing();
                }
                channel.reply_received(args[5].as_str(), args[6].as_str());
                if channel.is_receiving() {
                    return Reply::nothing();
                }
            }
        }
        Reply::shown()
    }

    /// Takes in an answer to an extended request for the state of users.
    pub(super) fn who_special_reply(&mut self, args: &Vec<String>, parsed: &Parsed) -> (reply: Reply)
        ensures
            (Step { client: final(self)@, reply: reply@ }) == on_whospcrpl(
                old(self)@,
                args@,
                *parsed,
            ),
    {
        if args.len() < 3 {
            return Reply::nothing();
        }
        let ghost before = self@.chanmap;
        if proto::is_channel(args[2].as_str()) {
            if let Some(channel) = self.chanmap.get_mut(args[2].as_str()) {
                if args.len() < 5 {
                    assert(before.insert(args@[2]@, before[args@[2]@]) =~= before);
                    return Reply::nothing();
                }
                channel.update_user_away(args[3].as_str(), args[4].as_str());
                if self.supports_account_notify && args.len() > 5 {
                    channel.update_user_accountname(args[3].as_str(), args[5].as_str());
                }
                channel.token_received(parsed);
                if channel.is_receiving() {
                    return Reply::nothing();
                }
            }
        }
        Reply::shown()
    }

    /// Takes in that the answers to a request are complete.
    pub(super) fn end_of_who(&mut self, args: &Vec<String>, now: Instant) -> (reply: Reply)
        ensures
            (Step { client: final(self)@, reply: reply@ }) == on_endofwho(
                old(self)@,
                args@,
                now,
            ),
    {
        if args.len() < 2 {
            return Reply::nothing();
        }
        if proto::is_channel(args[1].as_str()) {
            let ghost before = self@.chanmap;
            if let Some(channel) = self.chanmap.get_mut(args[1].as_str()) {
                if channel.is_receiving() {
                    channel.last_who = Some(WhoStatus::Done(now));
                    return Reply::nothing();
                }
            }
            assert(self@.chanmap =~= before);
        }
        Reply::shown()
    }
}

// ---------------------------------------------------------------------------
// The passing of time

/// The nanoseconds after the start in which no attention is drawn to messages.
pub const HIGHLIGHT_BLACKOUT_INTERVAL: u128 = 5_000_000_000;

/// Why the state of a channel's users is asked for: because it was long ago that it was told, or
/// because there was no answer.
#[derive(Debug, Clone, Copy, PartialEq, Eq, Structural)]
pub enum WhoReason {
    Poll,
    Retry,
}

/// Why the state of a channel's users is to be asked for at a time. Where the server tells by
/// itself who is away, nothing is asked again that was answered.
pub open spec fn due(client: ClientView, state: ChannelView, now: Instant) -> Option<WhoReason> {
    match state.last_who {
        Some(WhoStatus::Done(last)) => if !client.supports_away_notify && now.since(last)
            >= client.config.who_poll_interval {
            Some(WhoReason::Poll)
        } else {
            None
        },
        Some(WhoStatus::Requested(at, _)) => if now.since(at) >= client.config.who_retry_interval {
            Some(WhoReason::Retry)
        } else {
            None
        },
        _ => None,
    }
}

/// Whether attention is drawn to messages at a time.
pub open spec fn blackout_at(blackout: HighlightBlackout, now: Instant) -> HighlightBlackout {
    match blackout {
        HighlightBlackout::Blackout(start) => if now.since(start) >= HIGHLIGHT_BLACKOUT_INTERVAL {
            HighlightBlackout::Receiving
        } else {
            blackout
        },
        HighlightBlackout::Receiving => blackout,
    }
}

/// A request that is due.
#[derive(Debug)]
pub struct WhoRequest {
    pub channel: String,
    pub message: Message,
    pub reason: WhoReason,
}

/// What a request that is due holds.
pub struct WhoRequestView {
    pub channel: Seq<char>,
    pub message: MessageView,
    pub reason: WhoReason,
}

impl View for WhoRequest {
    type V = WhoRequestView;

    open spec fn view(&self) -> WhoRequestView {
        WhoRequestView {
            channel: self.channel@,
            message: self.message@,
            reason: self.reason,
        }
    }
}

/// The channels, among the first of a list, of which the state of the users is to be asked for.
pub open spec fn due_requests(client: ClientView, names: Seq<Seq<char>>, now: Instant) -> Seq<
    WhoRequestView,
>
    decreases names.len(),
{
    if names.len() == 0 {
        Seq::empty()
    } else {
        let rest = due_requests(client, names.drop_last(), now);
        match due(client, client.chanmap[names.last()], now) {
            Some(reason) => rest.push(
                WhoRequestView {
                    channel: names.last(),
                    message: MessageView::plain(who_command(client, names.last())),
                    reason,
                },
            ),
            None => rest,
        }
    }
}

/// What requests hold.
pub open spec fn request_views(requests: Seq<WhoRequest>) -> Seq<WhoRequestView> {
    requests.map_values(|request: WhoRequest| request@)
}

/// What a client knows once it has asked for the state of a channel's users.
pub open spec fn after_request(client: ClientView, channel: Seq<char>, at: Instant) -> ClientView {
    if client.chanmap.contains_key(channel) {
        with_channel(
            client,
            channel,
            ChannelView { last_who: Some(requested_at(client, at)), ..client.chanmap[channel] },
        )
    } else {
        client
    }
}

impl Client {
    /// Why the state of a channel's users is to be asked for at a time.
    fn why_due(&self, state: &Channel, now: Instant) -> (reason: Option<WhoReason>)
        ensures
            reason == due(self@, state@, now),
    {
        match &state.last_who {
            Some(WhoStatus::Done(last)) => if !self.supports_away_notify && now.duration_since(
                *last,
            ) >= self.server_config.who_poll_interval {
                Some(WhoReason::Poll)
            } else {
                None
            },
            Some(WhoStatus::Requested(at, _)) => if now.duration_since(*at)
                >= self.server_config.who_retry_interval {
                Some(WhoReason::Retry)
            } else {
                None
            },
            _ => None,
        }
    }

    /// Takes in the time: gives back the requests that are due, in the order of their channels.
    /// Each that has been sent is to be recorded with [`Client::who_requested`].
    pub fn tick(&mut self, now: Instant) -> (requests: Vec<WhoRequest>)
        ensures
            final(self)@ == (ClientView {
                highlight_blackout: blackout_at(old(self)@.highlight_blackout, now),
                ..old(self)@
            }),
            request_views(requests@) == due_requests(
                final(self)@,
                text::in_order(old(self)@.chanmap.dom()),
                now,
            ),
            old(self)@.chanmap.dom().finite(),
    {
        if let HighlightBlackout::Blackout(start) = self.highlight_blackout {
            if now.duration_since(start) >= HIGHLIGHT_BLACKOUT_INTERVAL {
                self.highlight_blackout = HighlightBlackout::Receiving;
            }
        }
        let names = self.chanmap.keys();
        let mut requests: Vec<WhoRequest> = Vec::new();
        let ghost all = text::texts(names@);
        proof {
            assert(all.take(0) =~= Seq::<Seq<char>>::empty());
            assert(request_views(requests@) =~= Seq::<WhoRequestView>::empty());
        }
        for i in 0..names.len()
            invariant
                all == text::texts(names@),
                all == self.chanmap.names(),
                request_views(requests@) == due_requests(self@, all.take(i as int), now),
        {
            let ghost so_far = request_views(requests@);
            let state = self.chanmap.value_at(i);
            proof {
                assert(all.take(i + 1).drop_last() =~= all.take(i as int));
                assert(all.take(i + 1).last() == names@[i as int]@);
            }
            if let Some(reason) = self.why_due(state, now) {
                let channel = names[i].clone();
                let message = Message::plain(self.who_request(&names[i]));
                let request = WhoRequest { channel, message, reason };
                let ghost view = request@;
                requests.push(request);
                assert(request_views(requests@) =~= so_far.push(view));
            }
        }
        assert(all.take(all.len() as int) =~= all);
        requests
    }

    /// Records that the state of a channel's users was asked for at a time.
    pub fn who_requested(&mut self, channel: &str, at: Instant)
        ensures
            final(self)@ == after_request(old(self)@, channel@, at),
    {
        let status = self.request_status(at);
        if let Some(channel) = self.chanmap.get_mut(channel) {
            channel.last_who = Some(status);
        }
    }

    /// Reads the clock of this client.
    pub fn now(&self) -> Instant {
        self.clock.now()
    }
}

} // verus!
