//! Negotiating with the server what both sides support.

use vstd::prelude::*;

use super::{one_command, outgoing_views, push_command, sends, Client, ClientView};
use super::{Outgoing, RegistrationStep, Reply, Step};
use crate::proto::{Command, CommandView};
use crate::text;
use crate::text::{has_prefix, has_within, joined, opt_text, split_on, texts};

verus! {

/// What this client can make use of, in the order in which it asks for it.
pub open spec fn wanted() -> Seq<Seq<char>> {
    seq![
        "invite-notify"@,
        "userhost-in-names"@,
        "away-notify"@,
        "message-tags"@,
        "server-time"@,
        "chghost"@,
        "extended-monitor"@,
        "account-notify"@,
        "extended-join"@,
        "batch"@,
        "labeled-response"@,
        "echo-message"@,
        "sasl"@,
        "multi-prefix"@,
    ]
}

/// The members of a list that are kept.
pub open spec fn kept(list: Seq<Seq<char>>, keep: spec_fn(Seq<char>) -> bool) -> Seq<Seq<char>>
    decreases list.len(),
{
    if list.len() == 0 {
        Seq::empty()
    } else {
        let rest = kept(list.drop_last(), keep);
        if keep(list.last()) {
            rest.push(list.last())
        } else {
            rest
        }
    }
}

/// Whether a list holds something that starts with a prefix.
pub open spec fn has_some_prefix(list: Seq<Seq<char>>, prefix: Seq<char>) -> bool {
    exists|i: int| 0 <= i < list.len() && has_prefix(#[trigger] list[i], prefix)
}

/// Whether a list holds something that holds a part.
pub open spec fn has_some_within(list: Seq<Seq<char>>, part: Seq<char>) -> bool {
    exists|i: int| 0 <= i < list.len() && has_within(#[trigger] list[i], part)
}

/// Whether this client asks for a capability that it can make use of, of those that the server
/// lists. Echoes are asked for only where answers are labeled, since they are told from the
/// messages of others by their label; and joins with account names only where accounts are told.
pub open spec fn asks_for(listed: Seq<Seq<char>>, cap: Seq<char>) -> bool {
    if cap == "extended-join"@ {
        listed.contains(cap) && listed.contains("account-notify"@)
    } else if cap == "echo-message"@ {
        listed.contains(cap) && listed.contains("labeled-response"@)
    } else if cap == "sasl"@ {
        has_some_prefix(listed, cap)
    } else {
        listed.contains(cap)
    }
}

/// Whether this client asks for a capability that it can make use of, of those that the server
/// has begun to support during the session.
pub open spec fn asks_anew_for(listed: Seq<Seq<char>>, new: Seq<Seq<char>>, cap: Seq<char>) -> bool {
    if cap == "extended-join"@ {
        new.contains(cap) && (listed.contains("account-notify"@) || new.contains("account-notify"@))
    } else if cap == "echo-message"@ {
        new.contains(cap) && (listed.contains("labeled-response"@) || new.contains(
            "labeled-response"@,
        ))
    } else if cap == "sasl"@ {
        false
    } else {
        new.contains(cap)
    }
}

/// What this client asks for.
pub open spec fn requested(listed: Seq<Seq<char>>) -> Seq<Seq<char>> {
    kept(wanted(), |cap: Seq<char>| asks_for(listed, cap))
}

/// What this client asks for during the session.
pub open spec fn requested_anew(listed: Seq<Seq<char>>, new: Seq<Seq<char>>) -> Seq<Seq<char>> {
    kept(wanted(), |cap: Seq<char>| asks_anew_for(listed, new, cap))
}

/// Asking for capabilities.
pub open spec fn cap_req(caps: Seq<Seq<char>>) -> CommandView {
    Command::CAP(None, "REQ"@, Some(joined(caps, " "@)), None)
}

/// The end of the negotiation.
pub open spec fn cap_end() -> CommandView {
    Command::CAP(None, "END"@, None, None)
}

/// The parameter that holds the capabilities: the last one.
pub open spec fn cap_list(a: Option<Seq<char>>, b: Option<Seq<char>>) -> Option<Seq<char>> {
    if b is None {
        a
    } else {
        b
    }
}

/// The server lists what it supports, in one or more messages. All but the last have an asterisk
/// before the list.
pub open spec fn on_cap_ls(client: ClientView, a: Option<Seq<char>>, b: Option<Seq<char>>) -> Step {
    match a {
        None => Step::nothing(client),
        Some(first) => {
            let caps = match b {
                Some(caps) => caps,
                None => first,
            };
            let listed = client.listed_caps + split_on(caps, ' ');
            let client = ClientView { listed_caps: listed, ..client };
            if b is Some {
                Step::shown(client)
            } else if requested(listed).len() > 0 {
                Step::shown_sending(
                    ClientView { registration_step: RegistrationStep::Req, ..client },
                    seq![sends(cap_req(requested(listed)))],
                )
            } else {
                Step::shown_sending(
                    ClientView { registration_step: RegistrationStep::End, ..client },
                    seq![sends(cap_end())],
                )
            }
        },
    }
}

/// The server grants what was asked for.
pub open spec fn on_cap_ack(client: ClientView, a: Option<Seq<char>>, b: Option<Seq<char>>) -> Step {
    match cap_list(a, b) {
        None => Step::nothing(client),
        Some(caps) => {
            let caps = split_on(caps, ' ');
            let client = ClientView {
                supports_labels: client.supports_labels || caps.contains("labeled-response"@),
                supports_away_notify: client.supports_away_notify || caps.contains("away-notify"@),
                supports_account_notify: client.supports_account_notify || caps.contains(
                    "account-notify"@,
                ),
                supports_extended_join: client.supports_extended_join || caps.contains(
                    "extended-join"@,
                ),
                ..client
            };
            if client.config.sasl is Some && has_some_within(caps, "sasl"@) {
                Step::shown_sending(
                    ClientView { registration_step: RegistrationStep::Sasl, ..client },
                    seq![sends(Command::AUTHENTICATE(client.config.sasl->0.command@))],
                )
            } else {
                Step::shown_sending(
                    ClientView { registration_step: RegistrationStep::End, ..client },
                    seq![sends(cap_end())],
                )
            }
        },
    }
}

/// The server refuses what was asked for.
pub open spec fn on_cap_nak(client: ClientView, a: Option<Seq<char>>, b: Option<Seq<char>>) -> Step {
    if cap_list(a, b) is None {
        Step::nothing(client)
    } else if client.registration_step.before_sasl() {
        Step::shown_sending(
            ClientView { registration_step: RegistrationStep::End, ..client },
            seq![sends(cap_end())],
        )
    } else {
        Step::shown(client)
    }
}

/// The server supports more than before.
pub open spec fn on_cap_new(client: ClientView, a: Option<Seq<char>>, b: Option<Seq<char>>) -> Step {
    match cap_list(a, b) {
        None => Step::nothing(client),
        Some(caps) => {
            let new = split_on(caps, ' ');
            let asked = requested_anew(client.listed_caps, new);
            let client = ClientView { listed_caps: client.listed_caps + new, ..client };
            if asked.len() > 0 {
                Step::shown_sending(client, seq![sends(cap_req(asked))])
            } else {
                Step::shown(client)
            }
        },
    }
}

/// The server supports less than before.
pub open spec fn on_cap_del(client: ClientView, a: Option<Seq<char>>, b: Option<Seq<char>>) -> Step {
    match cap_list(a, b) {
        None => Step::nothing(client),
        Some(caps) => {
            let gone = split_on(caps, ' ');
            Step::shown(
                ClientView {
                    supports_labels: client.supports_labels && !gone.contains(
                        "labeled-response"@,
                    ),
                    supports_away_notify: client.supports_away_notify && !gone.contains(
                        "away-notify"@,
                    ),
                    supports_account_notify: client.supports_account_notify && !gone.contains(
                        "account-notify"@,
                    ),
                    supports_extended_join: client.supports_extended_join && !gone.contains(
                        "extended-join"@,
                    ),
                    listed_caps: kept(client.listed_caps, |cap: Seq<char>| !gone.contains(cap)),
                    ..client
                },
            )
        },
    }
}

/// The server speaks of capabilities. What is not about them is shown.
pub open spec fn on_cap(
    client: ClientView,
    sub: Seq<char>,
    a: Option<Seq<char>>,
    b: Option<Seq<char>>,
) -> Step {
    if sub == "LS"@ {
        on_cap_ls(client, a, b)
    } else if sub == "ACK"@ {
        on_cap_ack(client, a, b)
    } else if sub == "NAK"@ {
        on_cap_nak(client, a, b)
    } else if sub == "NEW"@ {
        on_cap_new(client, a, b)
    } else if sub == "DEL"@ {
        on_cap_del(client, a, b)
    } else {
        Step::shown(client)
    }
}

/// The server is ready for the parameter of authentication. Any other parameter of it is shown.
pub open spec fn on_authenticate(client: ClientView, param: Seq<char>) -> Step {
    if param == "+"@ && client.config.sasl is Some {
        Step::shown_sending(
            ClientView { registration_step: RegistrationStep::End, ..client },
            seq![
                sends(Command::AUTHENTICATE(client.config.sasl->0.param@)),
                sends(cap_end()),
            ],
        )
    } else {
        Step::shown(client)
    }
}

/// What this client can make use of.
fn wanted_caps() -> (caps: Vec<String>)
    ensures
        texts(caps@) == wanted(),
{
    let mut caps: Vec<String> = Vec::new();
    caps.push("invite-notify".to_owned());
    caps.push("userhost-in-names".to_owned());
    caps.push("away-notify".to_owned());
    caps.push("message-tags".to_owned());
    caps.push("server-time".to_owned());
    caps.push("chghost".to_owned());
    caps.push("extended-monitor".to_owned());
    caps.push("account-notify".to_owned());
    caps.push("extended-join".to_owned());
    caps.push("batch".to_owned());
    caps.push("labeled-response".to_owned());
    caps.push("echo-message".to_owned());
    caps.push("sasl".to_owned());
    caps.push("multi-prefix".to_owned());
    assert(texts(caps@) =~= wanted());
    caps
}

/// Whether a list holds something that starts with a prefix.
fn any_starts_with(list: &Vec<String>, prefix: &str) -> (res: bool)
    ensures
        res == has_some_prefix(texts(list@), prefix@),
{
    for i in 0..list.len()
        invariant
            forall|j: int| 0 <= j < i ==> !has_prefix(#[trigger] texts(list@)[j], prefix@),
    {
        if text::starts_with(list[i].as_str(), prefix) {
            assert(has_prefix(texts(list@)[i as int], prefix@));
            return true;
        }
    }
    false
}

/// Whether a list holds something that holds a part.
fn any_contains(list: &Vec<String>, part: &str) -> (res: bool)
    ensures
        res == has_some_within(texts(list@), part@),
{
    for i in 0..list.len()
        invariant
            forall|j: int| 0 <= j < i ==> !has_within(#[trigger] texts(list@)[j], part@),
    {
        if text::contains(list[i].as_str(), part) {
            assert(has_within(texts(list@)[i as int], part@));
            return true;
        }
    }
    false
}

/// Whether this client asks for a capability.
fn is_asked_for(listed: &Vec<String>, cap: &str) -> (res: bool)
    ensures
        res == asks_for(texts(listed@), cap@),
{
    if text::same(cap, "extended-join") {
        text::list_contains(listed, cap) && text::list_contains(listed, "account-notify")
    } else if text::same(cap, "echo-message") {
        text::list_contains(listed, cap) && text::list_contains(listed, "labeled-response")
    } else if text::same(cap, "sasl") {
        any_starts_with(listed, cap)
    } else {
        text::list_contains(listed, cap)
    }
}

/// Whether this client asks for a capability during the session.
fn is_asked_anew_for(listed: &Vec<String>, new: &Vec<String>, cap: &str) -> (res: bool)
    ensures
        res == asks_anew_for(texts(listed@), texts(new@), cap@),
{
    if text::same(cap, "extended-join") {
        text::list_contains(new, cap) && (text::list_contains(listed, "account-notify")
            || text::list_contains(new, "account-notify"))
    } else if text::same(cap, "echo-message") {
        text::list_contains(new, cap) && (text::list_contains(listed, "labeled-response")
            || text::list_contains(new, "labeled-response"))
    } else if text::same(cap, "sasl") {
        false
    } else {
        text::list_contains(new, cap)
    }
}

/// What this client asks for, of what the server lists.
pub fn request(listed: &Vec<String>) -> (caps: Vec<String>)
    ensures
        texts(caps@) == requested(texts(listed@)),
{
    let wanted_list = wanted_caps();
    let mut caps: Vec<String> = Vec::new();
    let ghost keep = |cap: Seq<char>| asks_for(texts(listed@), cap);
    proof {
        assert(texts(wanted_list@).take(0) =~= Seq::<Seq<char>>::empty());
        assert(texts(caps@) =~= Seq::<Seq<char>>::empty());
    }
    for i in 0..wanted_list.len()
        invariant
            keep == (|cap: Seq<char>| asks_for(texts(listed@), cap)),
            texts(caps@) == kept(texts(wanted_list@).take(i as int), keep),
    {
        let ghost so_far = texts(caps@);
        proof {
            let all = texts(wanted_list@);
            assert(all.take(i + 1).drop_last() =~= all.take(i as int));
            assert(all.take(i + 1).last() == wanted_list@[i as int]@);
        }
        if is_asked_for(listed, wanted_list[i].as_str()) {
            caps.push(wanted_list[i].clone());
            assert(texts(caps@) =~= so_far.push(wanted_list@[i as int]@));
        }
    }
    assert(texts(wanted_list@).take(wanted_list@.len() as int) =~= texts(wanted_list@));
    caps
}

/// What this client asks for during the session, of what the server newly supports.
pub fn request_anew(listed: &Vec<String>, new: &Vec<String>) -> (caps: Vec<String>)
    ensures
        texts(caps@) == requested_anew(texts(listed@), texts(new@)),
{
    let wanted_list = wanted_caps();
    let mut caps: Vec<String> = Vec::new();
    let ghost keep = |cap: Seq<char>| asks_anew_for(texts(listed@), texts(new@), cap);
    proof {
        assert(texts(wanted_list@).take(0) =~= Seq::<Seq<char>>::empty());
        assert(texts(caps@) =~= Seq::<Seq<char>>::empty());
    }
    for i in 0..wanted_list.len()
        invariant
            keep == (|cap: Seq<char>| asks_anew_for(texts(listed@), texts(new@), cap)),
            texts(caps@) == kept(texts(wanted_list@).take(i as int), keep),
    {
        let ghost so_far = texts(caps@);
        proof {
            let all = texts(wanted_list@);
            assert(all.take(i + 1).drop_last() =~= all.take(i as int));
            assert(all.take(i + 1).last() == wanted_list@[i as int]@);
        }
        if is_asked_anew_for(listed, new, wanted_list[i].as_str()) {
            caps.push(wanted_list[i].clone());
            assert(texts(caps@) =~= so_far.push(wanted_list@[i as int]@));
        }
    }
    assert(texts(wanted_list@).take(wanted_list@.len() as int) =~= texts(wanted_list@));
    caps
}

/// Asking for capabilities.
fn req_command(caps: &Vec<String>) -> (command: Command)
    ensures
        command@ == cap_req(texts(caps@)),
{
    Command::CAP(None, "REQ".to_owned(), Some(text::join(caps, " ")), None)
}

/// The end of the negotiation.
fn end_command() -> (command: Command)
    ensures
        command@ == cap_end(),
{
    Command::CAP(None, "END".to_owned(), None, None)
}

/// The parameter that holds the capabilities.
fn last_of<'a>(a: &'a Option<String>, b: &'a Option<String>) -> (caps: Option<&'a String>)
    ensures
        match caps {
            Some(caps) => cap_list(opt_text(*a), opt_text(*b)) == Some(caps@),
            None => cap_list(opt_text(*a), opt_text(*b)) is None,
        },
{
    match b {
        Some(caps) => Some(caps),
        None => match a {
            Some(caps) => Some(caps),
            None => None,
        },
    }
}

/// Appends strings to a list.
fn append_texts(list: &mut Vec<String>, more: Vec<String>)
    ensures
        texts(final(list)@) == texts(old(list)@) + texts(more@),
{
    let mut more = more;
    let ghost whole = more@;
    list.append(&mut more);
    assert(texts(list@) =~= texts(old(list)@) + texts(whole));
}

/// The strings of a list that are not in another.
fn without(list: &Vec<String>, gone: &Vec<String>) -> (left: Vec<String>)
    ensures
        texts(left@) == kept(texts(list@), |text: Seq<char>| !texts(gone@).contains(text)),
{
    let mut left: Vec<String> = Vec::new();
    let ghost all = texts(list@);
    let ghost keep = |text: Seq<char>| !texts(gone@).contains(text);
    proof {
        assert(all.take(0) =~= Seq::<Seq<char>>::empty());
        assert(texts(left@) =~= Seq::<Seq<char>>::empty());
    }
    for i in 0..list.len()
        invariant
            all == texts(list@),
            keep == (|text: Seq<char>| !texts(gone@).contains(text)),
            texts(left@) == kept(all.take(i as int), keep),
    {
        let ghost so_far = texts(left@);
        proof {
            assert(all.take(i + 1).drop_last() =~= all.take(i as int));
            assert(all.take(i + 1).last() == list@[i as int]@);
        }
        if !text::list_contains(gone, list[i].as_str()) {
            left.push(list[i].clone());
            assert(texts(left@) =~= so_far.push(list@[i as int]@));
        }
    }
    assert(all.take(all.len() as int) =~= all);
    left
}

impl Client {
    /// Takes in what the server supports.
    fn cap_ls(&mut self, a: &Option<String>, b: &Option<String>) -> (reply: Reply)
        ensures
            (Step { client: final(self)@, reply: reply@ }) == on_cap_ls(
                old(self)@,
                opt_text(*a),
                opt_text(*b),
            ),
    {
        match (a, b) {
            (Some(caps), None) => {
                append_texts(&mut self.listed_caps, text::split(caps.as_str(), ' '));
                let asked = request(&self.listed_caps);
                if asked.len() > 0 {
                    self.registration_step = RegistrationStep::Req;
                    Reply::shown_sending(one_command(req_command(&asked)))
                } else {
                    self.registration_step = RegistrationStep::End;
                    Reply::shown_sending(one_command(end_command()))
                }
            },
            (Some(_), Some(caps)) => {
                append_texts(&mut self.listed_caps, text::split(caps.as_str(), ' '));
                Reply::shown()
            },
            _ => Reply::nothing(),
        }
    }

    /// Takes in what the server grants.
    fn cap_ack(&mut self, a: &Option<String>, b: &Option<String>) -> (reply: Reply)
        ensures
            (Step { client: final(self)@, reply: reply@ }) == on_cap_ack(
                old(self)@,
                opt_text(*a),
                opt_text(*b),
            ),
    {
        let caps = match last_of(a, b) {
            Some(caps) => text::split(caps.as_str(), ' '),
            None => return Reply::nothing(),
        };
        if text::list_contains(&caps, "labeled-response") {
            self.supports_labels = true;
        }
        if text::list_contains(&caps, "away-notify") {
            self.supports_away_notify = true;
        }
        if text::list_contains(&caps, "account-notify") {
            self.supports_account_notify = true;
        }
        if text::list_contains(&caps, "extended-join") {
            self.supports_extended_join = true;
        }
        let supports_sasl = any_contains(&caps, "sasl");
        match &self.server_config.sasl {
            Some(sasl) if supports_sasl => {
                let sent = one_command(Command::AUTHENTICATE(sasl.command.clone()));
                self.registration_step = RegistrationStep::Sasl;
                Reply::shown_sending(sent)
            },
            _ => {
                self.registration_step = RegistrationStep::End;
                Reply::shown_sending(one_command(end_command()))
            },
        }
    }

    /// Takes in that the server refuses.
    fn cap_nak(&mut self, a: &Option<String>, b: &Option<String>) -> (reply: Reply)
        ensures
            (Step { client: final(self)@, reply: reply@ }) == on_cap_nak(
                old(self)@,
                opt_text(*a),
                opt_text(*b),
            ),
    {
        if last_of(a, b).is_none() {
            return Reply::nothing();
        }
        if self.registration_step.is_before_sasl() {
            self.registration_step = RegistrationStep::End;
            Reply::shown_sending(one_command(end_command()))
        } else {
            Reply::shown()
        }
    }

    /// Takes in what the server newly supports.
    fn cap_new(&mut self, a: &Option<String>, b: &Option<String>) -> (reply: Reply)
        ensures
            (Step { client: final(self)@, reply: reply@ }) == on_cap_new(
                old(self)@,
                opt_text(*a),
                opt_text(*b),
            ),
    {
        let new = match last_of(a, b) {
            Some(caps) => text::split(caps.as_str(), ' '),
            None => return Reply::nothing(),
        };
        let asked = request_anew(&self.listed_caps, &new);
        append_texts(&mut self.listed_caps, new);
        if asked.len() > 0 {
            Reply::shown_sending(one_command(req_command(&asked)))
        } else {
            Reply::shown()
        }
    }

    /// Takes in what the server no longer supports.
    fn cap_del(&mut self, a: &Option<String>, b: &Option<String>) -> (reply: Reply)
        ensures
            (Step { client: final(self)@, reply: reply@ }) == on_cap_del(
                old(self)@,
                opt_text(*a),
                opt_text(*b),
            ),
    {
        let gone = match last_of(a, b) {
            Some(caps) => text::split(caps.as_str(), ' '),
            None => return Reply::nothing(),
        };
        if text::list_contains(&gone, "labeled-response") {
            self.supports_labels = false;
        }
        if text::list_contains(&gone, "away-notify") {
            self.supports_away_notify = false;
        }
        if text::list_contains(&gone, "account-notify") {
            self.supports_account_notify = false;
        }
        if text::list_contains(&gone, "extended-join") {
            self.supports_extended_join = false;
        }
        self.listed_caps = without(&self.listed_caps, &gone);
        Reply::shown()
    }

    /// Takes in what the server says of capabilities.
    pub(crate) fn cap(&mut self, sub: &str, a: &Option<String>, b: &Option<String>) -> (reply: Reply)
        ensures
            (Step { client: final(self)@, reply: reply@ }) == on_cap(
                old(self)@,
                sub@,
                opt_text(*a),
                opt_text(*b),
            ),
    {
        if text::same(sub, "LS") {
            self.cap_ls(a, b)
        } else if text::same(sub, "ACK") {
            self.cap_ack(a, b)
        } else if text::same(sub, "NAK") {
            self.cap_nak(a, b)
        } else if text::same(sub, "NEW") {
            self.cap_new(a, b)
        } else if text::same(sub, "DEL") {
            self.cap_del(a, b)
        } else {
            Reply::shown()
        }
    }

    /// Goes on with authentication.
    pub(crate) fn authenticate(&mut self, param: &str) -> (reply: Reply)
        ensures
            (Step { client: final(self)@, reply: reply@ }) == on_authenticate(old(self)@, param@),
    {
        if !text::same(param, "+") {
            return Reply::shown();
        }
        match &self.server_config.sasl {
            Some(sasl) => {
                let mut sent: Vec<Outgoing> = one_command(
                    Command::AUTHENTICATE(sasl.param.clone()),
                );
                self.registration_step = RegistrationStep::End;
                push_command(&mut sent, end_command());
                assert(outgoing_views(sent@) =~= seq![
                    sends(Command::AUTHENTICATE(self@.config.sasl->0.param@)),
                    sends(cap_end()),
                ]);
                Reply::shown_sending(sent)
            },
            None => Reply::shown(),
        }
    }
}

} // verus!
