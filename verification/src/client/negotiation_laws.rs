//! What holds of the negotiation with a server, and of the nicknames that are asked for.

use vstd::prelude::*;

use super::capability::{asks_anew_for, asks_for, cap_end, cap_req, kept, on_authenticate, on_cap_ack};
use super::capability::{on_cap_del, on_cap_ls, on_cap_nak, requested, requested_anew, wanted};
use super::session::{next_alt, on_logged_in, on_nick_refused, on_nochanmodes};
use super::session::waiting_joins;
use super::{sends, ClientView, Step};
use crate::text::split_on;

verus! {

/// What is kept of a list is what is in the list and is to be kept.
pub proof fn lemma_kept(list: Seq<Seq<char>>, keep: spec_fn(Seq<char>) -> bool, text: Seq<char>)
    ensures
        kept(list, keep).contains(text) <==> list.contains(text) && keep(text),
    decreases list.len(),
{
    if list.len() > 0 {
        let fewer = list.drop_last();
        let rest = kept(fewer, keep);
        lemma_kept(fewer, keep, text);
        if list.contains(text) && keep(text) {
            let i = list.index_of(text);
            if i < fewer.len() {
                assert(fewer[i] == text);
                let j = rest.index_of(text);
                assert(kept(list, keep)[j] == text);
            } else {
                assert(kept(list, keep).last() == text);
            }
        }
        if kept(list, keep).contains(text) {
            let i = kept(list, keep).index_of(text);
            if i < rest.len() {
                assert(rest[i] == text);
                let j = fewer.index_of(text);
                assert(list[j] == text);
            } else {
                assert(list.last() == text);
            }
        }
    }
}

/// A capability is asked for where this client can make use of it and the server lists it, in the
/// sense in which it asks for it.
pub proof fn law_asks_for_what_it_can_use(listed: Seq<Seq<char>>, cap: Seq<char>)
    ensures
        requested(listed).contains(cap) <==> wanted().contains(cap) && asks_for(listed, cap),
{
    lemma_kept(wanted(), |cap: Seq<char>| asks_for(listed, cap), cap);
}

/// Echoes are asked for only together with labels, since they are told from the messages of others
/// by their label.
pub proof fn law_no_echo_without_labels(listed: Seq<Seq<char>>)
    ensures
        requested(listed).contains("echo-message"@) ==> requested(listed).contains(
            "labeled-response"@,
        ),
{
    law_asks_for_what_it_can_use(listed, "echo-message"@);
    law_asks_for_what_it_can_use(listed, "labeled-response"@);
    assert(wanted()[10] == "labeled-response"@);
    reveal_strlit("labeled-response");
    reveal_strlit("echo-message");
    reveal_strlit("extended-join");
    reveal_strlit("sasl");
    assert("labeled-response"@.len() == 16);
    assert("echo-message"@.len() == 12);
    assert("extended-join"@.len() == 13);
    assert("sasl"@.len() == 4);
}

/// During the session too, echoes are asked for only where labels are asked for or listed already.
pub proof fn law_no_new_echo_without_labels(listed: Seq<Seq<char>>, new: Seq<Seq<char>>)
    ensures
        requested_anew(listed, new).contains("echo-message"@) ==> listed.contains(
            "labeled-response"@,
        ) || requested_anew(listed, new).contains("labeled-response"@),
{
    let keep = |cap: Seq<char>| asks_anew_for(listed, new, cap);
    lemma_kept(wanted(), keep, "echo-message"@);
    lemma_kept(wanted(), keep, "labeled-response"@);
    assert(wanted()[10] == "labeled-response"@);
    reveal_strlit("labeled-response");
    reveal_strlit("echo-message");
    reveal_strlit("extended-join");
    reveal_strlit("sasl");
    assert("labeled-response"@.len() == 16);
    assert("echo-message"@.len() == 12);
    assert("extended-join"@.len() == 13);
    assert("sasl"@.len() == 4);
}

/// The list of what the server supports may come in parts: the last part is answered by all that
/// is asked for of all parts, or by the end of the negotiation where there is nothing to ask for.
pub proof fn law_listing_in_parts(client: ClientView, first: Seq<char>, rest: Seq<char>)
    ensures
        ({
            let part = on_cap_ls(client, Some("*"@), Some(first));
            let whole = on_cap_ls(part.client, Some(rest), None);
            let listed = client.listed_caps + split_on(first, ' ') + split_on(rest, ' ');
            &&& part.reply.sent.len() == 0
            &&& whole.client.listed_caps == listed
            &&& whole.reply.sent == seq![
                if requested(listed).len() > 0 {
                    sends(cap_req(requested(listed)))
                } else {
                    sends(cap_end())
                },
            ]
        }),
{
}

/// What the server takes back is supported and listed no longer.
pub proof fn law_del_takes_back(client: ClientView, caps: Seq<char>)
    ensures
        ({
            let gone = on_cap_del(client, Some(caps), None).client;
            let names = split_on(caps, ' ');
            &&& names.contains("labeled-response"@) ==> !gone.supports_labels
            &&& names.contains("away-notify"@) ==> !gone.supports_away_notify
            &&& names.contains("account-notify"@) ==> !gone.supports_account_notify
            &&& names.contains("extended-join"@) ==> !gone.supports_extended_join
            &&& forall|i: int| 0 <= i < names.len() ==> !gone.listed_caps.contains(#[trigger] names[i])
        }),
{
    let names = split_on(caps, ' ');
    let gone = on_cap_del(client, Some(caps), None).client;
    assert forall|i: int| 0 <= i < names.len() implies !gone.listed_caps.contains(#[trigger] names[i]) by {
        lemma_kept(client.listed_caps, |cap: Seq<char>| !names.contains(cap), names[i]);
        assert(names.contains(names[i]));
    }
}

/// Every answer of the server to what was asked for is followed by authentication or by the end of
/// the negotiation, and authentication by its end.
pub proof fn law_negotiation_ends(client: ClientView, caps: Seq<char>)
    ensures
        ({
            let granted = on_cap_ack(client, Some(caps), None);
            let refused = on_cap_nak(client, Some(caps), None);
            let authenticated = on_authenticate(client, "+"@);
            &&& granted.client.registration_step is End || granted.client.registration_step is Sasl
            &&& granted.client.registration_step is Sasl ==> client.config.sasl is Some
            &&& granted.client.registration_step is End ==> granted.reply.sent == seq![
                sends(cap_end()),
            ]
            &&& client.registration_step.before_sasl() ==> refused.client.registration_step is End
                && refused.reply.sent == seq![sends(cap_end())]
            &&& !client.registration_step.before_sasl() ==> refused.client == client
                && refused.reply.sent.len() == 0
            &&& client.config.sasl is Some ==> authenticated.client.registration_step is End
                && authenticated.reply.sent.last() == sends(cap_end())
        }),
{
}

// ---------------------------------------------------------------------------
// Nicknames

/// The nickname that is asked for after a number of refusals.
pub open spec fn alt_after(refusals: nat, count: nat) -> Option<usize>
    decreases refusals,
{
    if refusals == 0 {
        None
    } else {
        next_alt(alt_after((refusals - 1) as nat, count), count)
    }
}

/// The other nicknames are asked for one after the other, and then none; and then it begins again
/// with the first.
pub proof fn law_alt_nicks_in_turn(refusals: nat, count: nat)
    requires
        count <= usize::MAX,
    ensures
        alt_after(refusals, count) == (if refusals % (count + 1) == 0 {
            None
        } else {
            Some((refusals % (count + 1) - 1) as usize)
        }),
    decreases refusals,
{
    reveal_with_fuel(alt_after, 2);
    let turn = (count + 1) as int;
    if refusals > 0 {
        let before = (refusals - 1) as nat;
        law_alt_nicks_in_turn(before, count);
        let place = before as int % turn;
        if place == count {
            assert((before + 1) as int % turn == 0) by (nonlinear_arith)
                requires
                    turn > 0,
                    before as int % turn == turn - 1,
            ;
        } else {
            assert((before + 1) as int % turn == place + 1) by (nonlinear_arith)
                requires
                    turn > 0,
                    place == before as int % turn,
                    place < turn - 1,
            ;
        }
    } else {
        assert(0int % turn == 0) by (nonlinear_arith)
            requires
                turn > 0,
        ;
    }
}

/// Once the server knows this client by a nickname, a refused nickname is only shown.
pub proof fn law_refusal_in_session_is_shown(client: ClientView)
    requires
        client.resolved_nick is Some,
    ensures
        on_nick_refused(client) == Step::shown(client),
{
}

// ---------------------------------------------------------------------------
// Channels that want a registered nickname

/// A channel that was set to be joined and is refused for want of a registered nickname is joined
/// when this client is logged in, and then waits no more.
pub proof fn law_refused_channel_joined_later(client: ClientView, args: Seq<String>, login: Seq<String>)
    requires
        args.len() >= 2,
        !client.chanmap.contains_key(args[1]@),
        client.config.channels.contains(args[1]@),
    ensures
        ({
            let waiting = on_nochanmodes(client, args).client;
            let logged_in = on_logged_in(waiting, login);
            &&& waiting.registration_required_channels == client.registration_required_channels.push(
                args[1]@,
            )
            &&& logged_in.reply.sent == super::all_sent(
                crate::grouping::joins(
                    client.registration_required_channels.push(args[1]@),
                    client.config.channel_keys,
                ),
            )
            &&& logged_in.client.registration_required_channels.len() == 0
            &&& waiting_joins(logged_in.client).len() == 0
        }),
{
}

/// Where the server tells of accounts otherwise, modes are no sign of a registered nickname: they
/// join nothing.
pub proof fn law_modes_join_nothing_with_accounts(
    client: ClientView,
    target: Seq<char>,
    parsed: crate::message::Parsed,
)
    requires
        client.supports_account_notify,
    ensures
        super::members::on_mode(client, target, parsed).reply.sent.len() == 0,
        super::members::on_mode(client, target, parsed).client.registration_required_channels
            == client.registration_required_channels,
{
}

/// A nickname is recovered only where it was not given and a password for it was set.
pub proof fn law_ghosts_only_for_lost_nick(client: ClientView, nick: Seq<char>)
    requires
        nick == client.config.nickname || !client.config.should_ghost,
    ensures
        super::session::nickserv_greeting(client, nick).len() <= 1,
        client.config.nick_password is None ==> super::session::nickserv_greeting(client, nick).len()
            == 0,
{
}

} // verus!
