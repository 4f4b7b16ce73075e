//! What holds of a client, whatever the server sends.

use vstd::prelude::*;

use super::capability;
use super::dispatch::{batch_of, context_of, label_used, lemma_other_tags, on_command, on_encoded};
use super::dispatch::{on_message, on_numeric, other_tags};
use super::exchange::{after_sending, beginning};
use super::members;
use super::members::{with_modes, with_users};
use super::session;
use super::who;
use super::{ClientView, Context, OutcomeView, Step};
use crate::buffer::Buffer;
use crate::channel::{everywhere, nowhere, ChannelView, Channels};
use crate::event::EventView;
use crate::isupport;
use crate::message::{ChannelMode, EncodedView, Parsed};
use crate::proto::{Command, MessageView, Numeric};
use crate::time::Instant;
use crate::user::{keyed, with_change, with_user, ChangeView, User, UserView, Users};

verus! {

// ---------------------------------------------------------------------------
// What every client keeps

/// Whether each user of each channel is kept under its own nickname.
pub open spec fn all_keyed(channels: Channels) -> bool {
    forall|name: Seq<char>| #[trigger] channels.contains_key(name) ==> keyed(channels[name].users)
}

/// Whether a client is in good order: the other nickname that was asked for last is one of those
/// that were set; each user of each channel is kept under its own nickname; and the channels that
/// wait for the account are channels that were set to be joined.
pub open spec fn orderly(client: ClientView) -> bool {
    &&& client.alt_nick is Some ==> client.alt_nick->0 < client.config.alt_nicks.len()
    &&& all_keyed(client.chanmap)
    &&& forall|i: int|
        0 <= i < client.registration_required_channels.len() ==> client.config.channels.contains(
            #[trigger] client.registration_required_channels[i],
        )
}

/// Whether two states of a client agree in all that a message by itself does not touch: what
/// labels and batches stand for, where answers are shown, what was set, and the queue through which
/// the connection is asked.
pub open spec fn same_frame(a: ClientView, b: ClientView) -> bool {
    &&& a.labels == b.labels
    &&& a.batches == b.batches
    &&& a.reroute_responses_to == b.reroute_responses_to
    &&& a.highlight_blackout == b.highlight_blackout
    &&& a.server == b.server
    &&& a.config == b.config
    &&& a.queue == b.queue
    &&& a.environment == b.environment
}

/// The events that an outcome tells by itself.
pub open spec fn told(outcome: OutcomeView) -> Seq<EventView> {
    match outcome {
        OutcomeView::Events(events) => events,
        OutcomeView::Shown(events) => events,
        _ => Seq::empty(),
    }
}

/// Whether it is told what else those know who only see the events: the nickname, and what the
/// server supports.
pub open spec fn changes_told(client: ClientView, step: Step) -> bool {
    &&& step.client.resolved_nick != client.resolved_nick ==> told(step.reply.outcome).contains(
        EventView::NickUpdated(step.client.nick()),
    )
    &&& step.client.isupport != client.isupport ==> told(step.reply.outcome).contains(
        EventView::IsupportUpdated(step.client.isupport),
    )
}

/// What every step of a client keeps.
pub open spec fn sound(client: ClientView, step: Step) -> bool {
    &&& same_frame(client, step.client)
    &&& changes_told(client, step)
    &&& orderly(client) ==> orderly(step.client)
}

proof fn lemma_with_user_keyed(users: Users, user: UserView)
    requires
        keyed(users),
    ensures
        keyed(with_user(users, user)),
{
}

proof fn lemma_with_change_keyed(users: Users, nick: Seq<char>, change: ChangeView)
    requires
        keyed(users),
    ensures
        keyed(with_change(users, nick, change)),
{
    if users.contains_key(nick) {
        lemma_with_user_keyed(users.remove(nick), users[nick].changed(change));
    }
}

proof fn lemma_everywhere_keyed(channels: Channels, nick: Seq<char>, change: ChangeView)
    requires
        all_keyed(channels),
    ensures
        all_keyed(everywhere(channels, nick, change)),
{
    assert forall|name: Seq<char>| #[trigger]
        everywhere(channels, nick, change).contains_key(name) implies keyed(
        everywhere(channels, nick, change)[name].users,
    ) by {
        assert(channels.contains_key(name));
        lemma_with_change_keyed(channels[name].users, nick, change);
    }
}

proof fn lemma_nowhere_keyed(channels: Channels, nick: Seq<char>)
    requires
        all_keyed(channels),
    ensures
        all_keyed(nowhere(channels, nick)),
{
    assert forall|name: Seq<char>| #[trigger] nowhere(channels, nick).contains_key(name) implies keyed(
        nowhere(channels, nick)[name].users,
    ) by {
        assert(channels.contains_key(name));
    }
}

proof fn lemma_with_modes_keyed(users: Users, modes: Seq<ChannelMode>)
    requires
        keyed(users),
    ensures
        keyed(with_modes(users, modes)),
    decreases modes.len(),
{
    if modes.len() > 0 {
        lemma_with_modes_keyed(users, modes.drop_last());
        let before = with_modes(users, modes.drop_last());
        match (modes.last().operation, modes.last().arg, modes.last().level) {
            (Some(operation), Some(nick), Some(level)) => {
                lemma_with_change_keyed(
                    before,
                    nick@,
                    ChangeView::AccessLevel(operation, level),
                );
            },
            _ => {},
        }
    }
}

proof fn lemma_with_users_keyed(users: Users, list: Seq<Option<User>>)
    requires
        keyed(users),
    ensures
        keyed(with_users(users, list)),
    decreases list.len(),
{
    if list.len() > 0 {
        lemma_with_users_keyed(users, list.drop_last());
    }
}

proof fn lemma_capability_sound(client: ClientView, sub: Seq<char>, a: Option<Seq<char>>, b: Option<Seq<char>>)
    ensures
        sound(client, capability::on_cap(client, sub, a, b)),
{
}

proof fn lemma_account_sound(client: ClientView, accountname: Seq<char>, parsed: Parsed)
    ensures
        sound(client, session::on_account(client, accountname, parsed)),
{
    if parsed.user is Some && orderly(client) {
        lemma_everywhere_keyed(
            client.chanmap,
            parsed.user->0@.nickname,
            ChangeView::Accountname(accountname),
        );
    }
}

proof fn lemma_logged_in_sound(client: ClientView, args: Seq<String>)
    ensures
        sound(client, session::on_logged_in(client, args)),
{
    if args.len() > 0 && orderly(client) {
        lemma_everywhere_keyed(
            client.chanmap,
            client.nick(),
            ChangeView::Accountname(args[0]@),
        );
    }
}

proof fn lemma_logged_out_sound(client: ClientView)
    ensures
        sound(client, session::on_logged_out(client)),
{
    if orderly(client) {
        lemma_everywhere_keyed(client.chanmap, client.nick(), ChangeView::Accountname("*"@));
    }
}

proof fn lemma_welcome_sound(client: ClientView, args: Seq<String>)
    ensures
        sound(client, session::on_welcome(client, args)),
{
    if args.len() > 0 {
        let step = session::on_welcome(client, args);
        assert(told(step.reply.outcome)[0] == EventView::<EncodedView>::NickUpdated(args[0]@));
    }
}

proof fn lemma_nochanmodes_sound(client: ClientView, args: Seq<String>)
    ensures
        sound(client, session::on_nochanmodes(client, args)),
{
}

proof fn lemma_isupport_sound(
    client: ClientView,
    operations: Seq<Option<isupport::Operation>>,
    from: int,
)
    ensures
        sound(client, session::on_isupport(client, operations, from)),
    decreases operations.len() - from,
{
    if 0 <= from < operations.len() {
        lemma_isupport_sound(client, operations, from + 1);
        let step = session::on_isupport(client, operations, from);
        match operations[from] {
            Some(isupport::Operation::Add(parameter)) => {
                if parameter.known_as() is Some {
                    assert(told(step.reply.outcome)[0]
                        == EventView::<EncodedView>::IsupportUpdated(step.client.isupport));
                }
            },
            Some(isupport::Operation::Remove(Some(kind))) => {
                assert(told(step.reply.outcome)[0]
                    == EventView::<EncodedView>::IsupportUpdated(step.client.isupport));
            },
            _ => {},
        }
    }
}

proof fn lemma_nick_sound(client: ClientView, nick: Seq<char>, parsed: Parsed)
    ensures
        sound(client, members::on_nick(client, nick, parsed)),
{
    if parsed.user is Some {
        let old_nick = parsed.user->0@.nickname;
        if orderly(client) {
            lemma_everywhere_keyed(client.chanmap, old_nick, ChangeView::Nickname(nick));
        }
        let step = members::on_nick(client, nick, parsed);
        if client.nick() == old_nick {
            assert(told(step.reply.outcome)[0] == EventView::<EncodedView>::NickUpdated(nick));
        }
    }
}

proof fn lemma_chghost_sound(client: ClientView, username: Seq<char>, hostname: Seq<char>, parsed: Parsed)
    ensures
        sound(client, members::on_chghost(client, username, hostname, parsed)),
{
    if parsed.user is Some && orderly(client) {
        lemma_everywhere_keyed(
            client.chanmap,
            parsed.user->0@.nickname,
            ChangeView::UsernameAndHostname(username, hostname),
        );
    }
}

proof fn lemma_quit_sound(client: ClientView, comment: Option<Seq<char>>, parsed: Parsed)
    ensures
        sound(client, members::on_quit(client, comment, parsed)),
{
    if parsed.user is Some && orderly(client) {
        lemma_nowhere_keyed(client.chanmap, parsed.user->0@.nickname);
    }
}

proof fn lemma_leaving_keyed(client: ClientView, channel: Seq<char>, nick: Seq<char>)
    requires
        all_keyed(client.chanmap),
    ensures
        all_keyed(members::after_leaving(client, channel, nick).chanmap),
{
}

proof fn lemma_part_sound(client: ClientView, channel: Seq<char>, parsed: Parsed)
    ensures
        sound(client, members::on_part(client, channel, parsed)),
{
    if parsed.user is Some && orderly(client) {
        lemma_leaving_keyed(client, channel, parsed.user->0@.nickname);
    }
}

proof fn lemma_kick_sound(client: ClientView, channel: Seq<char>, victim: Seq<char>)
    ensures
        sound(client, members::on_kick(client, channel, victim)),
{
    if orderly(client) {
        lemma_leaving_keyed(client, channel, victim);
    }
}

proof fn lemma_join_sound(
    client: ClientView,
    channel: Seq<char>,
    accountname: Option<Seq<char>>,
    parsed: Parsed,
    now: Instant,
)
    ensures
        sound(client, members::on_join(client, channel, accountname, parsed, now)),
{
}

proof fn lemma_away_sound(client: ClientView, away: bool, parsed: Parsed)
    ensures
        sound(client, members::on_away(client, away, parsed)),
{
    if parsed.user is Some && orderly(client) {
        lemma_everywhere_keyed(
            client.chanmap,
            parsed.user->0@.nickname,
            ChangeView::Away(away),
        );
    }
}

proof fn lemma_own_away_sound(client: ClientView, away: bool, args: Seq<String>, parsed: Parsed)
    ensures
        sound(client, members::on_own_away(client, away, args, parsed)),
{
    if orderly(client) {
        lemma_everywhere_keyed(client.chanmap, client.nick(), ChangeView::Away(away));
    }
}

proof fn lemma_mode_sound(client: ClientView, target: Seq<char>, parsed: Parsed)
    ensures
        sound(client, members::on_mode(client, target, parsed)),
{
    if orderly(client) && client.chanmap.contains_key(target) {
        lemma_with_modes_keyed(client.chanmap[target].users, parsed.channel_modes@);
    }
}

proof fn lemma_namreply_sound(client: ClientView, args: Seq<String>, parsed: Parsed)
    ensures
        sound(client, members::on_namreply(client, args, parsed)),
{
    if args.len() > 3 && orderly(client) && client.chanmap.contains_key(args[2]@) {
        lemma_with_users_keyed(client.chanmap[args[2]@].users, parsed.users@);
    }
}

proof fn lemma_away_flags_keyed(state: ChannelView, nick: Seq<char>, flags: Seq<char>)
    requires
        keyed(state.users),
    ensures
        keyed(state.with_away_flags(nick, flags).users),
{
    lemma_with_change_keyed(state.users, nick, ChangeView::Away(true));
    lemma_with_change_keyed(state.users, nick, ChangeView::Away(false));
}

proof fn lemma_whoreply_sound(client: ClientView, args: Seq<String>)
    ensures
        sound(client, who::on_whoreply(client, args)),
{
    if args.len() >= 7 && orderly(client) && client.chanmap.contains_key(args[1]@) {
        lemma_away_flags_keyed(client.chanmap[args[1]@], args[5]@, args[6]@);
    }
}

proof fn lemma_whospcrpl_sound(client: ClientView, args: Seq<String>, parsed: Parsed)
    ensures
        sound(client, who::on_whospcrpl(client, args, parsed)),
{
    if args.len() >= 5 && orderly(client) && client.chanmap.contains_key(args[2]@) {
        let state = client.chanmap[args[2]@];
        lemma_away_flags_keyed(state, args[3]@, args[4]@);
        if args.len() > 5 {
            lemma_with_change_keyed(
                state.with_away_flags(args[3]@, args[4]@).users,
                args[3]@,
                ChangeView::Accountname(args[5]@),
            );
        }
    }
}

proof fn lemma_numeric_sound(
    client: ClientView,
    numeric: Numeric,
    args: Seq<String>,
    parsed: Parsed,
    now: Instant,
)
    ensures
        sound(client, on_numeric(client, numeric, args, parsed, now)),
{
    reveal(on_numeric);
    match numeric {
        Numeric::RPL_LOGGEDIN => lemma_logged_in_sound(client, args),
        Numeric::RPL_LOGGEDOUT => lemma_logged_out_sound(client),
        Numeric::RPL_WELCOME => lemma_welcome_sound(client, args),
        Numeric::RPL_WHOREPLY => lemma_whoreply_sound(client, args),
        Numeric::RPL_WHOSPCRPL => lemma_whospcrpl_sound(client, args, parsed),
        Numeric::RPL_UNAWAY => lemma_own_away_sound(client, false, args, parsed),
        Numeric::RPL_NOWAWAY => lemma_own_away_sound(client, true, args, parsed),
        Numeric::RPL_NAMREPLY => lemma_namreply_sound(client, args, parsed),
        Numeric::ERR_NOCHANMODES => lemma_nochanmodes_sound(client, args),
        Numeric::RPL_ISUPPORT => lemma_isupport_sound(client, parsed.isupport@, 0),
        _ => {},
    }
}

/// A message by itself leaves labels, batches and the place of answers alone; where it changes the
/// nickname or what the server supports, it is told; and it keeps a client in good order.
pub proof fn law_command_sound(
    client: ClientView,
    command: Command,
    parsed: Parsed,
    answered: bool,
    now: Instant,
)
    ensures
        sound(client, on_command(client, command, parsed, answered, now)),
{
    reveal(on_command);
    match command {
        Command::CAP(_, sub, a, b) => lemma_capability_sound(
            client,
            sub@,
            crate::text::opt_text(a),
            crate::text::opt_text(b),
        ),
        Command::Numeric(numeric, args) => lemma_numeric_sound(
            client,
            numeric,
            args@,
            parsed,
            now,
        ),
        Command::NICK(nick) => lemma_nick_sound(client, nick@, parsed),
        Command::QUIT(comment) => lemma_quit_sound(
            client,
            crate::text::opt_text(comment),
            parsed,
        ),
        Command::PART(channel, _) => lemma_part_sound(client, channel@, parsed),
        Command::JOIN(channel, accountname) => lemma_join_sound(
            client,
            channel@,
            crate::text::opt_text(accountname),
            parsed,
            now,
        ),
        Command::KICK(channel, victim, _) => lemma_kick_sound(client, channel@, victim@),
        Command::AWAY(reason) => lemma_away_sound(client, reason is Some, parsed),
        Command::MODE(target, Some(_), Some(_)) => lemma_mode_sound(client, target@, parsed),
        Command::ACCOUNT(accountname) => lemma_account_sound(client, accountname@, parsed),
        Command::CHGHOST(username, hostname) => lemma_chghost_sound(
            client,
            username@,
            hostname@,
            parsed,
        ),
        _ => {},
    }
}

proof fn lemma_message_orderly(
    client: ClientView,
    message: EncodedView,
    context: Option<Context>,
    now: Instant,
)
    requires
        orderly(client),
    ensures
        orderly(on_message(client, message, context, now).client),
        on_message(client, message, context, now).client.config == client.config,
        on_message(client, message, context, now).client.queue == client.queue,
{
    law_command_sound(client, message.command, message.parsed, context is Some, now);
}

/// Whatever the server sends, a client stays in good order, what was set stays set, and the
/// connection is asked through the same queue.
pub proof fn law_stays_orderly(
    client: ClientView,
    message: EncodedView,
    parent: Option<Context>,
    now: Instant,
)
    requires
        orderly(client),
    ensures
        orderly(on_encoded(client, message, parent, now).client),
        on_encoded(client, message, parent, now).client.config == client.config,
        on_encoded(client, message, parent, now).client.queue == client.queue,
    decreases message.tags.len(),
{
    let context = context_of(client, message.tags, parent);
    let used = label_used(client, message.tags, parent);
    let bare = EncodedView { tags: other_tags(message.tags), ..message };
    if !(message.command is BATCH) {
        if batch_of(message.tags) is Some {
            lemma_other_tags(message.tags);
            law_stays_orderly(used, bare, context, now);
        } else {
            lemma_message_orderly(used, bare, context, now);
        }
    }
}

/// A client begins in good order.
pub proof fn law_begins_orderly(
    server: crate::buffer::Server,
    config: crate::config::ServerView,
    queue: int,
    environment: super::Environment,
    now: Instant,
)
    ensures
        orderly(beginning(server, config, queue, environment, now)),
{
}

/// Sending a message keeps a client in good order.
pub proof fn law_sending_keeps_order(
    client: ClientView,
    message: MessageView,
    buffer: Option<Buffer>,
    label: Seq<char>,
)
    requires
        orderly(client),
    ensures
        orderly(after_sending(client, message, buffer, label)),
{
}

/// Asking for the state of a channel's users keeps a client in good order.
pub proof fn law_asking_keeps_order(client: ClientView, channel: Seq<char>, at: Instant)
    requires
        orderly(client),
    ensures
        orderly(who::after_request(client, channel, at)),
{
}

} // verus!
