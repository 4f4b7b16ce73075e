//! What a client does about the messages with which a session begins.

use vstd::prelude::*;

use super::capability::{asks_anew_for, asks_for, has_some_prefix, has_some_within, kept, on_cap};
use super::capability::{requested, requested_anew, wanted};
use super::dispatch::{on_command, on_numeric};
use super::exchange::{beginning, on_receive, opening, ReceivedView};
use super::member_laws::{nothing, shown};
use super::negotiation_laws::lemma_kept;
use super::plain_laws::{lemma_received, lemma_reply_received, lemma_shown, unmarked};
use super::session::{line_greeting, on_isupport, on_nick_refused, on_welcome};
use super::state_laws::{joining, law_joining_none};
use super::{ClientView, OutgoingView, RegistrationStep};
use crate::config::{IdentifySyntax, ServerView};
use crate::event::EventView;
use crate::grouping::monitors;
use crate::isupport::{Operation, Parameter};
use crate::message::EncodedView;
use crate::proto::{Command, CommandView, MessageView, Numeric};
use crate::text;
use crate::text::{has_prefix, has_within, joined, opt_text, split_on};
use crate::time::Instant;

verus! {

/// A command that is sent without tags.
pub open spec fn sending(command: CommandView) -> OutgoingView {
    OutgoingView::Message(MessageView { tags: Seq::empty(), command })
}

/// Whether a message of the server is about capabilities, by its parts.
pub open spec fn is_cap(
    message: EncodedView,
    sub: Seq<char>,
    a: Option<Seq<char>>,
    b: Option<Seq<char>>,
) -> bool {
    &&& unmarked(message)
    &&& message.command is CAP
    &&& message.command->CAP_1@ == sub
    &&& opt_text(message.command->CAP_2) == a
    &&& opt_text(message.command->CAP_3) == b
}

proof fn lemma_cap_subcommands()
    ensures
        "LS"@ != "ACK"@,
        "LS"@ != "NAK"@,
        "LS"@ != "NEW"@,
        "LS"@ != "DEL"@,
        "ACK"@ != "NAK"@,
        "ACK"@ != "NEW"@,
        "ACK"@ != "DEL"@,
        "NAK"@ != "NEW"@,
        "NAK"@ != "DEL"@,
        "NEW"@ != "DEL"@,
{
    reveal_strlit("LS");
    reveal_strlit("ACK");
    reveal_strlit("NAK");
    reveal_strlit("NEW");
    reveal_strlit("DEL");
    assert("LS"@.len() == 2);
    assert("ACK"@[0] == 'A' && "NAK"@[0] == 'N' && "NEW"@[0] == 'N' && "DEL"@[0] == 'D');
    assert("NAK"@[1] == 'A' && "NEW"@[1] == 'E');
    assert("ACK"@.len() == 3 && "NAK"@.len() == 3 && "NEW"@.len() == 3 && "DEL"@.len() == 3);
}

proof fn lemma_cap_received(
    client: ClientView,
    message: EncodedView,
    sub: Seq<char>,
    a: Option<Seq<char>>,
    b: Option<Seq<char>>,
    now: Instant,
)
    requires
        is_cap(message, sub, a, b),
    ensures
        ({
            let step = on_cap(client, sub, a, b);
            on_receive(client, message, now) == ReceivedView {
                client: step.client,
                sent: step.reply.sent,
                events: super::plain_laws::told_of(step.reply.outcome, message),
            }
        }),
{
    lemma_received(client, message, now);
    reveal(on_command);
}

// ---------------------------------------------------------------------------
// What is asked for

/// Whether a capability is one of those that are asked for where the server lists them.
pub open spec fn is_plainly_wanted(cap: Seq<char>) -> bool {
    ||| cap == "invite-notify"@
    ||| cap == "userhost-in-names"@
    ||| cap == "away-notify"@
    ||| cap == "message-tags"@
    ||| cap == "server-time"@
    ||| cap == "chghost"@
    ||| cap == "extended-monitor"@
    ||| cap == "account-notify"@
    ||| cap == "batch"@
    ||| cap == "labeled-response"@
    ||| cap == "multi-prefix"@
}

proof fn lemma_wanted(cap: Seq<char>)
    ensures
        wanted().contains(cap) <==> is_plainly_wanted(cap) || cap == "extended-join"@ || cap
            == "echo-message"@ || cap == "sasl"@,
        is_plainly_wanted(cap) ==> cap != "extended-join"@ && cap != "echo-message"@ && cap != "sasl"@,
        "extended-join"@ != "echo-message"@,
        "extended-join"@ != "sasl"@,
        "echo-message"@ != "sasl"@,
{
    let list = wanted();
    assert(list[0] == "invite-notify"@);
    assert(list[1] == "userhost-in-names"@);
    assert(list[2] == "away-notify"@);
    assert(list[3] == "message-tags"@);
    assert(list[4] == "server-time"@);
    assert(list[5] == "chghost"@);
    assert(list[6] == "extended-monitor"@);
    assert(list[7] == "account-notify"@);
    assert(list[8] == "extended-join"@);
    assert(list[9] == "batch"@);
    assert(list[10] == "labeled-response"@);
    assert(list[11] == "echo-message"@);
    assert(list[12] == "sasl"@);
    assert(list[13] == "multi-prefix"@);
    reveal_strlit("invite-notify");
    reveal_strlit("userhost-in-names");
    reveal_strlit("away-notify");
    reveal_strlit("message-tags");
    reveal_strlit("server-time");
    reveal_strlit("chghost");
    reveal_strlit("extended-monitor");
    reveal_strlit("account-notify");
    reveal_strlit("extended-join");
    reveal_strlit("batch");
    reveal_strlit("labeled-response");
    reveal_strlit("echo-message");
    reveal_strlit("sasl");
    reveal_strlit("multi-prefix");
    assert("sasl"@.len() == 4 && "batch"@.len() == 5 && "chghost"@.len() == 7);
    assert("invite-notify"@[0] == 'i' && "extended-join"@[0] == 'e' && "echo-message"@[0] == 'e');
    assert("echo-message"@[1] == 'c' && "extended-join"@[1] == 'x' && "extended-monitor"@[1] == 'x');
    assert("extended-monitor"@.len() == 16 && "extended-join"@.len() == 13);
    assert("userhost-in-names"@[0] == 'u' && "away-notify"@[0] == 'a' && "message-tags"@[0] == 'm');
    assert("server-time"@.len() == 11 && "account-notify"@[0] == 'a' && "multi-prefix"@[0] == 'm');
    assert("labeled-response"@[0] == 'l' && "server-time"@[0] == 's');
}

/// What is asked for of what the server lists: what this client can make use of. Joins with
/// accounts are asked for only together with accounts, and echoes only together with labels;
/// authentication is asked for where the server lists it in any form.
pub proof fn law_what_is_asked_for(listed: Seq<Seq<char>>, cap: Seq<char>)
    ensures
        requested(listed).contains(cap) <==> {
            ||| is_plainly_wanted(cap) && listed.contains(cap)
            ||| cap == "extended-join"@ && listed.contains(cap) && listed.contains("account-notify"@)
            ||| cap == "echo-message"@ && listed.contains(cap) && listed.contains("labeled-response"@)
            ||| cap == "sasl"@ && exists|i: int|
                0 <= i < listed.len() && (#[trigger] listed[i]).len() >= 4 && listed[i].take(4)
                    == "sasl"@
        },
{
    lemma_kept(wanted(), |cap: Seq<char>| asks_for(listed, cap), cap);
    lemma_wanted(cap);
    reveal_strlit("sasl");
    assert("sasl"@.len() == 4);
    if cap == "sasl"@ {
        if has_some_prefix(listed, cap) {
            let i = choose|i: int| 0 <= i < listed.len() && has_prefix(#[trigger] listed[i], cap);
            assert(listed[i].take(4) == "sasl"@);
        } else {
            assert forall|i: int| 0 <= i < listed.len() implies !((#[trigger] listed[i]).len() >= 4
                && listed[i].take(4) == "sasl"@) by {
                assert(!has_prefix(listed[i], cap));
            }
        }
    }
}

/// What is asked for of what the server adds during the session: the same, but for authentication;
/// what it listed before counts for what is asked for only together.
pub proof fn law_what_is_asked_for_anew(listed: Seq<Seq<char>>, new: Seq<Seq<char>>, cap: Seq<char>)
    ensures
        requested_anew(listed, new).contains(cap) <==> {
            ||| is_plainly_wanted(cap) && new.contains(cap)
            ||| cap == "extended-join"@ && new.contains(cap) && (listed.contains("account-notify"@)
                || new.contains("account-notify"@))
            ||| cap == "echo-message"@ && new.contains(cap) && (listed.contains("labeled-response"@)
                || new.contains("labeled-response"@))
        },
{
    lemma_kept(wanted(), |cap: Seq<char>| asks_anew_for(listed, new, cap), cap);
    lemma_wanted(cap);
}

/// All that may be asked for, in the order in which it is asked for.
pub open spec fn in_asking_order() -> Seq<Seq<char>> {
    seq![
        "invite-notify"@,
        "userhost-in-names"@,
        "away-notify"@,
        "message-tags"@,
        "server-time"@,
        "chghost"@,
        "extended-monitor"@,
        "account-notify"@,
        "extended-join"@,
        "batch"@,
        "labeled-response"@,
        "echo-message"@,
        "sasl"@,
        "multi-prefix"@,
    ]
}

proof fn lemma_kept_by_filter(
    list: Seq<Seq<char>>,
    keep: spec_fn(Seq<char>) -> bool,
    same: spec_fn(Seq<char>) -> bool,
)
    requires
        forall|i: int| 0 <= i < list.len() ==> keep(#[trigger] list[i]) == same(list[i]),
    ensures
        kept(list, keep) == list.filter(same),
    decreases list.len(),
{
    reveal(Seq::filter);
    if list.len() == 0 {
        assert(kept(list, keep) =~= list.filter(same));
    } else {
        let fewer = list.drop_last();
        assert forall|i: int| 0 <= i < fewer.len() implies keep(#[trigger] fewer[i]) == same(fewer[i]) by {
            assert(fewer[i] == list[i]);
        }
        lemma_kept_by_filter(fewer, keep, same);
        assert(keep(list[list.len() - 1]) == same(list[list.len() - 1]));
    }
}

/// What is asked for is asked for once, and in one order.
pub proof fn law_asked_in_order(listed: Seq<Seq<char>>, new: Seq<Seq<char>>)
    ensures
        requested(listed) == in_asking_order().filter(
            |cap: Seq<char>| requested(listed).contains(cap),
        ),
        requested_anew(listed, new) == in_asking_order().filter(
            |cap: Seq<char>| requested_anew(listed, new).contains(cap),
        ),
{
    let list = wanted();
    assert(list =~= in_asking_order());
    let first = |cap: Seq<char>| asks_for(listed, cap);
    let later = |cap: Seq<char>| asks_anew_for(listed, new, cap);
    assert forall|i: int| 0 <= i < list.len() implies first(#[trigger] list[i]) == requested(
        listed,
    ).contains(list[i]) && later(list[i]) == requested_anew(listed, new).contains(list[i]) by {
        lemma_kept(list, first, list[i]);
        lemma_kept(list, later, list[i]);
        assert(list.contains(list[i]));
    }
    lemma_kept_by_filter(list, first, |cap: Seq<char>| requested(listed).contains(cap));
    lemma_kept_by_filter(list, later, |cap: Seq<char>| requested_anew(listed, new).contains(cap));
}

// ---------------------------------------------------------------------------
// The negotiation

/// A part of the list of what the server supports is remembered; the last part is answered by one
/// request for all that is wanted of the whole list, after which the negotiation has not come to
/// authentication yet, or by its end where nothing is wanted.
pub proof fn law_listing_is_answered(
    client: ClientView,
    message: EncodedView,
    a: Option<Seq<char>>,
    b: Option<Seq<char>>,
    now: Instant,
)
    requires
        is_cap(message, "LS"@, a, b),
    ensures
        a is None ==> on_receive(client, message, now) == nothing(client),
        a is Some && b is Some ==> on_receive(client, message, now) == shown(
            ClientView { listed_caps: client.listed_caps + split_on(b->0, ' '), ..client },
            message,
        ),
        a is Some && b is None ==> {
            let listed = client.listed_caps + split_on(a->0, ' ');
            let asked = requested(listed);
            on_receive(client, message, now) == ReceivedView {
                client: ClientView {
                    listed_caps: listed,
                    registration_step: if asked.len() > 0 {
                        RegistrationStep::Req
                    } else {
                        RegistrationStep::End
                    },
                    ..client
                },
                sent: seq![
                    sending(
                        if asked.len() > 0 {
                            Command::CAP(None, "REQ"@, Some(joined(asked, " "@)), None)
                        } else {
                            Command::CAP(None, "END"@, None, None)
                        },
                    ),
                ],
                events: seq![EventView::Single(message)],
            }
        },
{
    lemma_cap_subcommands();
    lemma_cap_received(client, message, "LS"@, a, b, now);
    lemma_shown(message);
}

/// Whether authentication is named anywhere in a list.
pub open spec fn mention_sasl(caps: Seq<Seq<char>>) -> bool {
    exists|i: int, j: int|
        0 <= i < caps.len() && 0 <= j <= caps[i].len() - 4 && #[trigger] caps[i].subrange(j, j + 4)
            == "sasl"@
}

proof fn lemma_mention_sasl(caps: Seq<Seq<char>>)
    ensures
        has_some_within(caps, "sasl"@) == mention_sasl(caps),
{
    reveal_strlit("sasl");
    assert("sasl"@.len() == 4);
    if has_some_within(caps, "sasl"@) {
        let i = choose|i: int| 0 <= i < caps.len() && has_within(#[trigger] caps[i], "sasl"@);
        let j = choose|j: int|
            0 <= j <= caps[i].len() - "sasl"@.len() && #[trigger] caps[i].subrange(
                j,
                j + "sasl"@.len(),
            ) == "sasl"@;
        assert(caps[i].subrange(j, j + 4) == "sasl"@);
    }
    if mention_sasl(caps) {
        let (i, j) = choose|i: int, j: int|
            0 <= i < caps.len() && 0 <= j <= caps[i].len() - 4 && #[trigger] caps[i].subrange(
                j,
                j + 4,
            ) == "sasl"@;
        assert(caps[i].subrange(j, j + "sasl"@.len()) == "sasl"@);
        assert(has_within(caps[i], "sasl"@));
    }
}

/// What the server grants is supported from then on, and nothing is lost. Where authentication is
/// among it and was set, it begins; otherwise the negotiation ends.
pub proof fn law_grant_is_answered(
    client: ClientView,
    message: EncodedView,
    a: Option<Seq<char>>,
    b: Option<Seq<char>>,
    now: Instant,
)
    requires
        is_cap(message, "ACK"@, a, b),
    ensures
        a is None && b is None ==> on_receive(client, message, now) == nothing(client),
        a is Some || b is Some ==> {
            let caps = split_on(
                if b is Some {
                    b->0
                } else {
                    a->0
                },
                ' ',
            );
            let sasl = client.config.sasl is Some && mention_sasl(caps);
            on_receive(client, message, now) == ReceivedView {
                client: ClientView {
                    supports_labels: client.supports_labels || caps.contains("labeled-response"@),
                    supports_away_notify: client.supports_away_notify || caps.contains(
                        "away-notify"@,
                    ),
                    supports_account_notify: client.supports_account_notify || caps.contains(
                        "account-notify"@,
                    ),
                    supports_extended_join: client.supports_extended_join || caps.contains(
                        "extended-join"@,
                    ),
                    registration_step: if sasl {
                        RegistrationStep::Sasl
                    } else {
                        RegistrationStep::End
                    },
                    ..client
                },
                sent: seq![
                    sending(
                        if sasl {
                            Command::AUTHENTICATE(client.config.sasl->0.command@)
                        } else {
                            Command::CAP(None, "END"@, None, None)
                        },
                    ),
                ],
                events: seq![EventView::Single(message)],
            }
        },
{
    lemma_cap_subcommands();
    lemma_cap_received(client, message, "ACK"@, a, b, now);
    lemma_shown(message);
    if a is Some || b is Some {
        lemma_mention_sasl(
            split_on(
                if b is Some {
                    b->0
                } else {
                    a->0
                },
                ' ',
            ),
        );
    }
}

/// A refusal ends the negotiation, where it has not come to authentication or to its end yet; later
/// it is only shown.
pub proof fn law_refusal_is_answered(
    client: ClientView,
    message: EncodedView,
    a: Option<Seq<char>>,
    b: Option<Seq<char>>,
    now: Instant,
)
    requires
        is_cap(message, "NAK"@, a, b),
    ensures
        a is None && b is None ==> on_receive(client, message, now) == nothing(client),
        (a is Some || b is Some) && (client.registration_step is List
            || client.registration_step is Req) ==> on_receive(client, message, now) == (ReceivedView {
            client: ClientView { registration_step: RegistrationStep::End, ..client },
            sent: seq![sending(Command::CAP(None, "END"@, None, None))],
            events: seq![EventView::Single(message)],
        }),
        (a is Some || b is Some) && (client.registration_step is Sasl
            || client.registration_step is End) ==> on_receive(client, message, now) == shown(
            client,
            message,
        ),
{
    lemma_cap_subcommands();
    lemma_cap_received(client, message, "NAK"@, a, b, now);
    lemma_shown(message);
}

/// From the beginning of a session: where the list of the server is answered by a request, and the
/// server refuses it, the negotiation ends; where the server grants it, either authentication
/// begins, or the negotiation ends. So the session can go on in any case.
pub proof fn law_negotiation_goes_on(
    client: ClientView,
    listing: EncodedView,
    caps: Seq<char>,
    reply: EncodedView,
    sub: Seq<char>,
    answered: Seq<char>,
    now: Instant,
    later: Instant,
)
    requires
        is_cap(listing, "LS"@, Some(caps), None),
        sub == "NAK"@ || sub == "ACK"@,
        is_cap(reply, sub, Some(answered), None),
        requested(client.listed_caps + split_on(caps, ' ')).len() > 0,
    ensures
        ({
            let asked = on_receive(client, listing, now);
            let done = on_receive(asked.client, reply, later);
            let end = seq![sending(Command::CAP(None, "END"@, None, None))];
            &&& asked.sent.len() == 1
            &&& asked.client.registration_step is Req
            &&& sub == "NAK"@ ==> done.sent == end && done.client.registration_step is End
            &&& sub == "ACK"@ ==> {
                ||| done.sent == end && done.client.registration_step is End
                ||| client.config.sasl is Some && done.client.registration_step is Sasl && done.sent
                    == seq![sending(Command::AUTHENTICATE(client.config.sasl->0.command@))]
            }
        }),
{
    law_listing_is_answered(client, listing, Some(caps), None, now);
    let asked = on_receive(client, listing, now).client;
    lemma_cap_subcommands();
    if sub == "NAK"@ {
        law_refusal_is_answered(asked, reply, Some(answered), None, later);
    } else {
        law_grant_is_answered(asked, reply, Some(answered), None, later);
    }
}

/// What the server adds during the session is listed from then on, and what is wanted of it is
/// asked for.
pub proof fn law_addition_is_answered(
    client: ClientView,
    message: EncodedView,
    a: Option<Seq<char>>,
    b: Option<Seq<char>>,
    now: Instant,
)
    requires
        is_cap(message, "NEW"@, a, b),
    ensures
        a is None && b is None ==> on_receive(client, message, now) == nothing(client),
        a is Some || b is Some ==> {
            let new = split_on(
                if b is Some {
                    b->0
                } else {
                    a->0
                },
                ' ',
            );
            let asked = requested_anew(client.listed_caps, new);
            on_receive(client, message, now) == ReceivedView {
                client: ClientView { listed_caps: client.listed_caps + new, ..client },
                sent: if asked.len() > 0 {
                    seq![sending(Command::CAP(None, "REQ"@, Some(joined(asked, " "@)), None))]
                } else {
                    Seq::empty()
                },
                events: seq![EventView::Single(message)],
            }
        },
{
    lemma_cap_subcommands();
    lemma_cap_received(client, message, "NEW"@, a, b, now);
    lemma_shown(message);
}

/// What the server takes back is listed and supported no more; all else stays listed and
/// supported. Nothing is sent.
pub proof fn law_removal_is_taken_in(
    client: ClientView,
    message: EncodedView,
    a: Option<Seq<char>>,
    b: Option<Seq<char>>,
    cap: Seq<char>,
    now: Instant,
)
    requires
        is_cap(message, "DEL"@, a, b),
    ensures
        a is None && b is None ==> on_receive(client, message, now) == nothing(client),
        a is Some || b is Some ==> {
            let gone = split_on(
                if b is Some {
                    b->0
                } else {
                    a->0
                },
                ' ',
            );
            let received = on_receive(client, message, now);
            &&& received == shown(
                ClientView {
                    supports_labels: client.supports_labels && !gone.contains("labeled-response"@),
                    supports_away_notify: client.supports_away_notify && !gone.contains(
                        "away-notify"@,
                    ),
                    supports_account_notify: client.supports_account_notify && !gone.contains(
                        "account-notify"@,
                    ),
                    supports_extended_join: client.supports_extended_join && !gone.contains(
                        "extended-join"@,
                    ),
                    listed_caps: received.client.listed_caps,
                    ..client
                },
                message,
            )
            &&& received.client.listed_caps.contains(cap) <==> client.listed_caps.contains(cap)
                && !gone.contains(cap)
        },
{
    lemma_cap_subcommands();
    lemma_cap_received(client, message, "DEL"@, a, b, now);
    lemma_shown(message);
    if a is Some || b is Some {
        let gone = split_on(
            if b is Some {
                b->0
            } else {
                a->0
            },
            ' ',
        );
        lemma_kept(client.listed_caps, |cap: Seq<char>| !gone.contains(cap), cap);
    }
}

/// Any other word about capabilities is only shown.
pub proof fn law_other_caps_are_shown(
    client: ClientView,
    message: EncodedView,
    sub: Seq<char>,
    a: Option<Seq<char>>,
    b: Option<Seq<char>>,
    now: Instant,
)
    requires
        is_cap(message, sub, a, b),
        sub != "LS"@ && sub != "ACK"@ && sub != "NAK"@ && sub != "NEW"@ && sub != "DEL"@,
    ensures
        on_receive(client, message, now) == shown(client, message),
{
    lemma_cap_received(client, message, sub, a, b, now);
    lemma_shown(message);
}

/// Where the server is ready for it and it was set, the parameter of authentication is sent, and
/// then the end of the negotiation. Anything else about authentication is only shown.
pub proof fn law_authentication(client: ClientView, message: EncodedView, now: Instant)
    requires
        unmarked(message),
        message.command is AUTHENTICATE,
    ensures
        on_receive(client, message, now) == (if message.command->AUTHENTICATE_0@ == "+"@
            && client.config.sasl is Some {
            ReceivedView {
                client: ClientView { registration_step: RegistrationStep::End, ..client },
                sent: seq![
                    sending(Command::AUTHENTICATE(client.config.sasl->0.param@)),
                    sending(Command::CAP(None, "END"@, None, None)),
                ],
                events: seq![EventView::Single(message)],
            }
        } else {
            shown(client, message)
        }),
{
    lemma_received(client, message, now);
    lemma_shown(message);
    reveal(on_command);
}

// ---------------------------------------------------------------------------
// The beginning

/// What is sent first: the question what the server supports, the password where there is one, the
/// nickname, and the user and real name, for each of which the nickname stands in.
pub proof fn law_opening(config: ServerView)
    ensures
        ({
            let messages = opening(config);
            let n = messages.len();
            let plain = |command: CommandView| MessageView { tags: Seq::empty(), command };
            &&& n == if config.password is Some {
                4nat
            } else {
                3nat
            }
            &&& messages[0] == plain(Command::CAP(None, "LS"@, Some("302"@), None))
            &&& config.password is Some ==> messages[1] == plain(
                Command::PASS(config.password->0),
            )
            &&& messages[n - 2] == plain(Command::NICK(config.nickname))
            &&& messages[n - 1] == plain(
                Command::USER(
                    if config.username is Some {
                        config.username->0
                    } else {
                        config.nickname
                    },
                    if config.realname is Some {
                        config.realname->0
                    } else {
                        config.nickname
                    },
                ),
            )
        }),
{
}

/// A client begins with what was set, and knows nothing else: no nickname was given to it, it is in
/// no channel, waits for nothing, and the server is not known to support anything. The negotiation
/// has not come to authentication, and no attention is drawn to mentions yet.
pub proof fn law_beginning(
    server: crate::buffer::Server,
    config: ServerView,
    queue: int,
    environment: super::Environment,
    now: Instant,
)
    ensures
        ({
            let client = beginning(server, config, queue, environment, now);
            &&& client.server == server
            &&& client.config == config
            &&& client.queue == queue
            &&& client.environment == environment
            &&& client.alt_nick is None
            &&& client.resolved_nick is None
            &&& client.chanmap.dom() == Set::<Seq<char>>::empty()
            &&& client.labels.dom() == Set::<Seq<char>>::empty()
            &&& client.batches.dom() == Set::<Seq<char>>::empty()
            &&& client.isupport.dom() == Set::<Seq<char>>::empty()
            &&& client.reroute_responses_to is None
            &&& client.registration_step is List
            &&& client.listed_caps.len() == 0
            &&& client.registration_required_channels.len() == 0
            &&& !client.supports_labels
            &&& !client.supports_away_notify
            &&& !client.supports_account_notify
            &&& !client.supports_extended_join
            &&& client.highlight_blackout is Blackout
            &&& client.highlight_blackout->Blackout_0 == now
        }),
{
    let client = beginning(server, config, queue, environment, now);
    assert(client.chanmap.dom() =~= Set::<Seq<char>>::empty());
    assert(client.labels.dom() =~= Set::<Seq<char>>::empty());
    assert(client.batches.dom() =~= Set::<Seq<char>>::empty());
    assert(client.isupport.dom() =~= Set::<Seq<char>>::empty());
}

// ---------------------------------------------------------------------------
// The welcome

/// Words to the nickname service, with spaces between them.
pub open spec fn to_service(text: Seq<char>) -> OutgoingView {
    sending(Command::PRIVMSG("NickServ"@, text))
}

/// What recovers the nickname that was set: each word that was set for it, with the nickname and
/// the password, where another nickname was given and it is to be recovered.
pub open spec fn recovering(config: ServerView, nick: Seq<char>) -> Seq<OutgoingView> {
    if config.nick_password is Some && config.should_ghost && nick != config.nickname {
        Seq::new(
            config.ghost_sequence.len(),
            |i: int|
                to_service(
                    config.ghost_sequence[i] + " "@ + config.nickname + " "@
                        + config.nick_password->0,
                ),
        )
    } else {
        Seq::empty()
    }
}

/// What identifies this client to the nickname service, where a password was set.
pub open spec fn identifying(config: ServerView, nick: Seq<char>) -> Seq<OutgoingView> {
    match config.nick_password {
        None => Seq::empty(),
        Some(password) => seq![
            to_service(
                match config.nick_identify_syntax {
                    Some(IdentifySyntax::PasswordNick) => "IDENTIFY"@ + " "@ + password + " "@
                        + config.nickname,
                    Some(IdentifySyntax::NickPassword) => "IDENTIFY"@ + " "@ + config.nickname
                        + " "@ + password,
                    None => if nick == config.nickname {
                        "IDENTIFY"@ + " "@ + password
                    } else {
                        "IDENTIFY"@ + " "@ + config.nickname + " "@ + password
                    },
                },
            ),
        ],
    }
}

/// What sets the modes of this client, where they were set.
pub open spec fn setting_modes(config: ServerView, nick: Seq<char>) -> Seq<OutgoingView> {
    match config.umodes {
        None => Seq::empty(),
        Some(modes) => seq![sending(Command::MODE(nick, Some(modes), None))],
    }
}

/// The commands of the lines that were set, without the lines that stand for none.
pub open spec fn running_lines(config: ServerView) -> Seq<OutgoingView> {
    config.on_connect.filter(|line: Option<CommandView>| line is Some).map_values(
        |line: Option<CommandView>| sending(line->0),
    )
}

proof fn lemma_lines(lines: Seq<Option<CommandView>>)
    ensures
        line_greeting(lines) == lines.filter(
            |line: Option<CommandView>| line is Some,
        ).map_values(|line: Option<CommandView>| sending(line->0)),
    decreases lines.len(),
{
    let keep = |line: Option<CommandView>| line is Some;
    let as_sent = |line: Option<CommandView>| sending(line->0);
    reveal(Seq::filter);
    if lines.len() == 0 {
        assert(line_greeting(lines) =~= lines.filter(keep).map_values(as_sent));
    } else {
        lemma_lines(lines.drop_last());
        let rest = lines.drop_last().filter(keep);
        assert(lines.filter(keep) == if keep(lines.last()) {
            rest.push(lines.last())
        } else {
            rest
        });
        assert(line_greeting(lines) =~= lines.filter(keep).map_values(as_sent));
    }
}

proof fn lemma_two_words(a: Seq<char>, b: Seq<char>)
    ensures
        joined(seq![a, b], " "@) == a + " "@ + b,
{
    let words = seq![a, b];
    assert(words.drop_last() =~= seq![a]);
    assert(joined(seq![a], " "@) == a);
}

proof fn lemma_three_words(a: Seq<char>, b: Seq<char>, c: Seq<char>)
    ensures
        joined(seq![a, b, c], " "@) == a + " "@ + b + " "@ + c,
{
    let words = seq![a, b, c];
    assert(words.drop_last() =~= seq![a, b]);
    lemma_two_words(a, b);
}

proof fn lemma_ghosts(client: ClientView, nick: Seq<char>)
    ensures
        super::session::nickserv_greeting(client, nick) == recovering(client.config, nick)
            + identifying(client.config, nick),
{
    let config = client.config;
    if config.nick_password is Some {
        let password = config.nick_password->0;
        lemma_two_words("IDENTIFY"@, password);
        lemma_three_words("IDENTIFY"@, password, config.nickname);
        lemma_three_words("IDENTIFY"@, config.nickname, password);
        if config.should_ghost && nick != config.nickname {
            let ghosts = super::session::ghosts(client, password);
            assert forall|i: int| 0 <= i < ghosts.len() implies ghosts[i] == recovering(config, nick)[i] by {
                lemma_three_words(config.ghost_sequence[i], config.nickname, password);
            }
            assert(ghosts =~= recovering(config, nick));
        }
    }
    assert(super::session::nickserv_greeting(client, nick) =~= recovering(config, nick)
        + identifying(config, nick));
}

/// When the session begins, the nickname is the one that the server gives. A nickname that was lost
/// is recovered, this client identifies itself, its modes are set, the lines that were set are run,
/// and then all channels that were set are joined with their keys; each of this where it was set,
/// whatever else was set.
pub proof fn law_welcome(client: ClientView, message: EncodedView, now: Instant)
    requires
        unmarked(message),
        client.reroute_responses_to is None,
        message.command is Numeric,
        message.command->Numeric_0 is RPL_WELCOME,
        message.command->Numeric_1@.len() > 0,
    ensures
        ({
            let nick = message.command->Numeric_1@[0]@;
            let config = client.config;
            on_receive(client, message, now) == ReceivedView {
                client: ClientView { resolved_nick: Some(nick), ..client },
                sent: recovering(config, nick) + identifying(config, nick) + setting_modes(
                    config,
                    nick,
                ) + running_lines(config) + joining(config.channels, config.channel_keys),
                events: seq![EventView::NickUpdated(nick), EventView::Single(message)],
            }
        }),
{
    let nick = message.command->Numeric_1@[0]@;
    lemma_reply_received(client, message, now);
    assert(on_numeric(
        client,
        message.command->Numeric_0,
        message.command->Numeric_1@,
        message.parsed,
        now,
    ) == on_welcome(client, message.command->Numeric_1@)) by {
        reveal(on_numeric);
    }
    lemma_ghosts(client, nick);
    lemma_lines(client.config.on_connect);
    assert(super::all_sent(
        crate::grouping::joins(client.config.channels, client.config.channel_keys),
    ) =~= joining(client.config.channels, client.config.channel_keys));
    assert(seq![EventView::<EncodedView>::NickUpdated(nick)].push(EventView::Single(message))
        =~= seq![EventView::NickUpdated(nick), EventView::Single(message)]);
}

/// Nothing comes of a welcome that names no nickname.
pub proof fn law_nameless_welcome(client: ClientView, message: EncodedView, now: Instant)
    requires
        unmarked(message),
        client.reroute_responses_to is None,
        message.command is Numeric,
        message.command->Numeric_0 is RPL_WELCOME,
        message.command->Numeric_1@.len() == 0,
    ensures
        on_receive(client, message, now) == nothing(client),
{
    lemma_reply_received(client, message, now);
    reveal(on_numeric);
}

// ---------------------------------------------------------------------------
// Nicknames and channels that are refused

/// Before a nickname is given, a refusal asks for the next of the other nicknames, in the order in
/// which they were set, and for none after the last; afterwards it is only shown.
pub proof fn law_nickname_is_refused(client: ClientView, message: EncodedView, now: Instant)
    requires
        unmarked(message),
        client.reroute_responses_to is None,
        message.command is Numeric,
        message.command->Numeric_0 is ERR_NICKNAMEINUSE || message.command->Numeric_0
            is ERR_ERRONEUSNICKNAME,
        client.config.alt_nicks.len() <= usize::MAX,
    ensures
        ({
            let nicks = client.config.alt_nicks;
            let next = match client.alt_nick {
                Some(i) => i + 1,
                None => 0,
            };
            on_receive(client, message, now) == if client.resolved_nick is Some {
                shown(client, message)
            } else if next < nicks.len() {
                ReceivedView {
                    client: ClientView { alt_nick: Some(next as usize), ..client },
                    sent: seq![sending(Command::NICK(nicks[next]))],
                    events: seq![EventView::Single(message)],
                }
            } else {
                shown(ClientView { alt_nick: None, ..client }, message)
            }
        }),
{
    lemma_reply_received(client, message, now);
    lemma_shown(message);
    assert(on_numeric(
        client,
        message.command->Numeric_0,
        message.command->Numeric_1@,
        message.parsed,
        now,
    ) == on_nick_refused(client)) by {
        reveal(on_numeric);
    }
}

/// A channel that was set, is not joined, and is refused for want of a registered nickname, waits
/// behind those that wait already; of any other channel the refusal is only shown.
pub proof fn law_channel_is_refused(client: ClientView, message: EncodedView, now: Instant)
    requires
        unmarked(message),
        client.reroute_responses_to is None,
        message.command is Numeric,
        message.command->Numeric_0 is ERR_NOCHANMODES,
    ensures
        ({
            let args = message.command->Numeric_1@;
            on_receive(client, message, now) == if args.len() < 2 {
                nothing(client)
            } else {
                shown(
                    ClientView {
                        registration_required_channels: if client.config.channels.contains(
                            args[1]@,
                        ) && !client.chanmap.contains_key(args[1]@) {
                            client.registration_required_channels.push(args[1]@)
                        } else {
                            client.registration_required_channels
                        },
                        ..client
                    },
                    message,
                )
            }
        }),
{
    lemma_reply_received(client, message, now);
    lemma_shown(message);
    reveal(on_numeric);
}

/// Whether a message says that this client is logged in, or that it has an account.
pub open spec fn gives_account(client: ClientView, message: EncodedView) -> bool {
    match message.command {
        Command::Numeric(numeric, _) => numeric is RPL_LOGGEDIN,
        Command::ACCOUNT(account) => account@ != "*"@ && message.parsed.user is Some
            && message.parsed.user->0@.nickname == client.nick(),
        _ => false,
    }
}

/// The channels that wait for the account are joined, with their keys, when the server says that
/// this client is logged in, or that it has an account.
pub proof fn law_waiting_channels_are_joined(client: ClientView, message: EncodedView, now: Instant)
    requires
        unmarked(message),
        client.reroute_responses_to is None,
        gives_account(client, message),
    ensures
        on_receive(client, message, now).sent == joining(
            client.registration_required_channels,
            client.config.channel_keys,
        ),
        on_receive(client, message, now).client.registration_required_channels.len() == 0,
{
    lemma_received(client, message, now);
    law_joining_none(client.config.channel_keys);
    if client.registration_required_channels.len() == 0 {
        assert(client.registration_required_channels =~= Seq::empty());
    }
    reveal(on_command);
    reveal(on_numeric);
}

// ---------------------------------------------------------------------------
// What the server supports

/// Whether a word of an announcement says something that this client knows of.
pub open spec fn announces(word: Option<Operation>) -> bool {
    match word {
        Some(Operation::Add(Parameter::Other(kind, _))) => kind is Some,
        Some(Operation::Add(_)) => true,
        Some(Operation::Remove(kind)) => kind is Some,
        None => false,
    }
}

proof fn lemma_first_announcement(client: ClientView, words: Seq<Option<Operation>>, from: int, k: int)
    requires
        0 <= from <= k <= words.len(),
        forall|i: int| from <= i < k ==> !announces(#[trigger] words[i]),
    ensures
        on_isupport(client, words, from) == on_isupport(client, words, k),
    decreases k - from,
{
    if from < k {
        assert(!announces(words[from]));
        lemma_first_announcement(client, words, from + 1, k);
    }
}

/// Of the words of an announcement, the first counts that says something that this client knows of.
/// What the server supports is known by its kind from then on, or no more, and that is told. Where
/// the server watches users, those that were set are watched.
pub proof fn law_announcement(client: ClientView, message: EncodedView, k: int, now: Instant)
    requires
        unmarked(message),
        client.reroute_responses_to is None,
        message.command is Numeric,
        message.command->Numeric_0 is RPL_ISUPPORT,
        0 <= k <= message.parsed.isupport@.len(),
        forall|i: int| 0 <= i < k ==> !announces(#[trigger] message.parsed.isupport@[i]),
        k < message.parsed.isupport@.len() ==> announces(message.parsed.isupport@[k]),
    ensures
        ({
            let words = message.parsed.isupport@;
            let received = on_receive(client, message, now);
            if k == words.len() {
                received == nothing(client)
            } else {
                let known = match words[k]->0 {
                    Operation::Add(Parameter::MONITOR(limit)) => client.isupport.insert(
                        "MONITOR"@,
                        Parameter::MONITOR(limit),
                    ),
                    Operation::Add(Parameter::WHOX) => client.isupport.insert(
                        "WHOX"@,
                        Parameter::WHOX,
                    ),
                    Operation::Add(Parameter::Other(kind, text)) => client.isupport.insert(
                        kind->0@,
                        Parameter::Other(kind, text),
                    ),
                    Operation::Remove(kind) => client.isupport.remove(kind->0@),
                };
                received == ReceivedView {
                    client: ClientView { isupport: known, ..client },
                    sent: match words[k]->0 {
                        Operation::Add(Parameter::MONITOR(limit)) => monitors(
                            client.config.monitor,
                            limit,
                        ).map_values(|message: MessageView| OutgoingView::Message(message)),
                        _ => Seq::empty(),
                    },
                    events: seq![EventView::IsupportUpdated(known)],
                }
            }
        }),
{
    lemma_reply_received(client, message, now);
    let words = message.parsed.isupport@;
    assert(on_numeric(
        client,
        message.command->Numeric_0,
        message.command->Numeric_1@,
        message.parsed,
        now,
    ) == on_isupport(client, words, 0)) by {
        reveal(on_numeric);
    }
    lemma_first_announcement(client, words, 0, k);
    reveal_with_fuel(on_isupport, 2);
}

} // verus!
