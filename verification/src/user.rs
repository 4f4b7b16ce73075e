//! Users, and the set of users that a channel has.

use vstd::prelude::*;

use crate::order;
use crate::string_map::{Duplicate, StringMap};
use crate::text;
use crate::text::{before, opt_text};

verus! {

/// A nickname.
#[derive(Debug)]
pub struct Nick(pub String);

impl View for Nick {
    type V = Seq<char>;

    open spec fn view(&self) -> Seq<char> {
        self.0@
    }
}

impl Clone for Nick {
    fn clone(&self) -> (res: Self)
        ensures
            res == *self,
    {
        Nick(self.0.clone())
    }
}

/// What a user may do in a channel.
#[derive(Debug, Clone, Copy, PartialEq, Eq, Structural)]
pub enum AccessLevel {
    Voice,
    HalfOp,
    Oper,
    Admin,
    Owner,
}

/// Whether a mode is given or taken away.
#[derive(Debug, Clone, Copy, PartialEq, Eq, Structural)]
pub enum Operation {
    Add,
    Remove,
}

/// A user, as far as the server has told.
#[derive(Debug)]
pub struct User {
    pub nickname: String,
    pub username: Option<String>,
    pub hostname: Option<String>,
    pub accountname: Option<String>,
    pub access_levels: Vec<AccessLevel>,
    pub away: bool,
}

/// What is known of a user.
pub struct UserView {
    pub nickname: Seq<char>,
    pub username: Option<Seq<char>>,
    pub hostname: Option<Seq<char>>,
    pub accountname: Option<Seq<char>>,
    pub access_levels: Set<AccessLevel>,
    pub away: bool,
}

impl View for User {
    type V = UserView;

    open spec fn view(&self) -> UserView {
        UserView {
            nickname: self.nickname@,
            username: opt_text(self.username),
            hostname: opt_text(self.hostname),
            accountname: opt_text(self.accountname),
            access_levels: self.access_levels@.to_set(),
            away: self.away,
        }
    }
}

/// Something that a server tells of a user. `S` is what holds a string.
#[derive(Debug)]
pub enum Change<S = String> {
    Nickname(S),
    Accountname(S),
    Away(bool),
    UsernameAndHostname(S, S),
    AccessLevel(Operation, AccessLevel),
}

/// What a change holds.
pub type ChangeView = Change<Seq<char>>;

impl View for Change {
    type V = ChangeView;

    open spec fn view(&self) -> ChangeView {
        match *self {
            Change::Nickname(nickname) => Change::Nickname(nickname@),
            Change::Accountname(accountname) => Change::Accountname(accountname@),
            Change::Away(away) => Change::Away(away),
            Change::UsernameAndHostname(username, hostname) => Change::UsernameAndHostname(
                username@,
                hostname@,
            ),
            Change::AccessLevel(operation, level) => Change::AccessLevel(operation, level),
        }
    }
}

impl UserView {
    /// A user of whom only the nickname is known.
    pub open spec fn named(nickname: Seq<char>) -> UserView {
        UserView {
            nickname,
            username: None,
            hostname: None,
            accountname: None,
            access_levels: Set::empty(),
            away: false,
        }
    }

    /// The user after a change.
    pub open spec fn changed(self, change: ChangeView) -> UserView {
        match change {
            Change::Nickname(nickname) => UserView { nickname, ..self },
            Change::Accountname(accountname) => UserView { accountname: Some(accountname), ..self },
            Change::Away(away) => UserView { away, ..self },
            Change::UsernameAndHostname(username, hostname) => UserView {
                username: Some(username),
                hostname: Some(hostname),
                ..self
            },
            Change::AccessLevel(Operation::Add, level) => UserView {
                access_levels: self.access_levels.insert(level),
                ..self
            },
            Change::AccessLevel(Operation::Remove, level) => UserView {
                access_levels: self.access_levels.remove(level),
                ..self
            },
        }
    }

    /// How high the user stands in the channel.
    pub open spec fn rank(self) -> int {
        if self.access_levels.contains(AccessLevel::Owner) {
            5
        } else if self.access_levels.contains(AccessLevel::Admin) {
            4
        } else if self.access_levels.contains(AccessLevel::Oper) {
            3
        } else if self.access_levels.contains(AccessLevel::HalfOp) {
            2
        } else if self.access_levels.contains(AccessLevel::Voice) {
            1
        } else {
            0
        }
    }
}

/// The order in which the users of a channel are listed: by rank, the highest first, and by
/// nickname among those of one rank.
pub open spec fn listed_before(a: UserView, b: UserView) -> bool {
    a.rank() > b.rank() || a.rank() == b.rank() && before(a.nickname, b.nickname)
}

/// The order in which users are listed, as a relation.
pub open spec fn user_order() -> spec_fn(UserView, UserView) -> bool {
    |a: UserView, b: UserView| listed_before(a, b)
}

/// The order in which users are listed is strict.
pub proof fn lemma_user_order()
    ensures
        order::strict(user_order()),
{
    let lt = user_order();
    assert forall|a: UserView| !#[trigger] lt(a, a) by {
        text::lemma_before_irreflexive(a.nickname);
    }
    assert forall|a: UserView, b: UserView, c: UserView| #[trigger] lt(a, b) && #[trigger] lt(b, c) implies lt(
        a,
        c,
    ) by {
        if a.rank() == b.rank() && b.rank() == c.rank() {
            text::lemma_before_transitive(a.nickname, b.nickname, c.nickname);
        }
    }
}

impl Clone for User {
    fn clone(&self) -> (res: Self)
        ensures
            res@ == self@,
    {
        let mut access_levels: Vec<AccessLevel> = Vec::new();
        for i in 0..self.access_levels.len()
            invariant
                access_levels@ == self.access_levels@.take(i as int),
        {
            access_levels.push(self.access_levels[i]);
            assert(self.access_levels@.take(i + 1) =~= self.access_levels@.take(i as int).push(
                self.access_levels@[i as int],
            ));
        }
        assert(access_levels@ =~= self.access_levels@);
        User {
            nickname: self.nickname.clone(),
            username: text::copy_opt_text(&self.username),
            hostname: text::copy_opt_text(&self.hostname),
            accountname: text::copy_opt_text(&self.accountname),
            access_levels,
            away: self.away,
        }
    }
}

impl Duplicate for User {
    fn duplicate(&self) -> (copy: User) {
        self.clone()
    }
}

impl User {
    /// A user of whom only the nickname is known.
    pub fn named(nickname: String) -> (user: User)
        ensures
            user@ == UserView::named(nickname@),
    {
        let user = User {
            nickname,
            username: None,
            hostname: None,
            accountname: None,
            access_levels: Vec::new(),
            away: false,
        };
        assert(user@.access_levels =~= Set::<AccessLevel>::empty());
        user
    }

    /// The nickname.
    pub fn nickname(&self) -> (nickname: &str)
        ensures
            nickname@ == self@.nickname,
    {
        self.nickname.as_str()
    }

    /// The username, if it is known.
    pub fn username(&self) -> (username: Option<&String>)
        ensures
            match username {
                Some(username) => self@.username == Some(username@),
                None => self@.username is None,
            },
    {
        self.username.as_ref()
    }

    /// The user under a new nickname.
    pub fn with_nickname(self, nickname: String) -> (user: User)
        ensures
            user@ == (UserView { nickname: nickname@, ..self@ }),
    {
        User { nickname, ..self }
    }

    /// The user with an account name.
    pub fn with_accountname(self, accountname: &str) -> (user: User)
        ensures
            user@ == (UserView { accountname: Some(accountname@), ..self@ }),
    {
        User { accountname: Some(accountname.to_owned()), ..self }
    }

    /// The user with a username and a hostname.
    pub fn with_username_and_hostname(self, username: String, hostname: String) -> (user: User)
        ensures
            user@ == (UserView { username: Some(username@), hostname: Some(hostname@), ..self@ }),
    {
        User { username: Some(username), hostname: Some(hostname), ..self }
    }

    /// Records whether the user is away.
    pub fn update_away(&mut self, away: bool)
        ensures
            final(self)@ == (UserView { away, ..old(self)@ }),
    {
        self.away = away;
    }

    /// Whether the user has an access level.
    pub fn has_access_level(&self, level: AccessLevel) -> (res: bool)
        ensures
            res == self@.access_levels.contains(level),
    {
        for i in 0..self.access_levels.len()
            invariant
                forall|j: int| 0 <= j < i ==> self.access_levels@[j] != level,
        {
            if self.access_levels[i] == level {
                assert(self.access_levels@.contains(level));
                return true;
            }
        }
        false
    }

    /// Gives the user an access level, or takes it away.
    pub fn update_access_level(&mut self, operation: Operation, level: AccessLevel)
        ensures
            final(self)@ == old(self)@.changed(ChangeView::AccessLevel(operation, level)),
    {
        match operation {
            Operation::Add => {
                let ghost levels = self.access_levels@;
                self.access_levels.push(level);
                assert(self.access_levels@.to_set() =~= levels.to_set().insert(level)) by {
                    assert(self.access_levels@[levels.len() as int] == level);
                    assert forall|other: AccessLevel| levels.contains(other) implies self.access_levels@.contains(
                        other,
                    ) by {
                        let i = levels.index_of(other);
                        assert(self.access_levels@[i] == other);
                    }
                }
            },
            Operation::Remove => {
                let ghost levels = self.access_levels@;
                let mut kept: Vec<AccessLevel> = Vec::new();
                for i in 0..self.access_levels.len()
                    invariant
                        self.access_levels@ == levels,
                        forall|j: int|
                            0 <= j < kept@.len() ==> #[trigger] kept@[j] != level && levels.contains(
                                kept@[j],
                            ),
                        forall|j: int|
                            0 <= j < i && #[trigger] levels[j] != level ==> kept@.contains(levels[j]),
                {
                    let ghost so_far = kept@;
                    if self.access_levels[i] != level {
                        kept.push(self.access_levels[i]);
                        assert(kept@[so_far.len() as int] == levels[i as int]);
                        assert forall|j: int| 0 <= j < i && #[trigger] levels[j] != level implies kept@.contains(
                            levels[j],
                        ) by {
                            let k = so_far.index_of(levels[j]);
                            assert(kept@[k] == levels[j]);
                        }
                    }
                }
                assert(kept@.to_set() =~= levels.to_set().remove(level));
                self.access_levels = kept;
            },
        }
    }

    /// The user after a change.
    pub fn changed(self, change: &Change) -> (user: User)
        ensures
            user@ == self@.changed(change@),
    {
        match change {
            Change::Nickname(nickname) => self.with_nickname(nickname.clone()),
            Change::Accountname(accountname) => self.with_accountname(accountname.as_str()),
            Change::Away(away) => {
                let mut user = self;
                user.update_away(*away);
                user
            },
            Change::UsernameAndHostname(username, hostname) => self.with_username_and_hostname(
                username.clone(),
                hostname.clone(),
            ),
            Change::AccessLevel(operation, level) => {
                let mut user = self;
                user.update_access_level(*operation, *level);
                user
            },
        }
    }

    /// How high the user stands in the channel.
    pub fn rank(&self) -> (rank: u8)
        ensures
            rank == self@.rank(),
    {
        if self.has_access_level(AccessLevel::Owner) {
            5
        } else if self.has_access_level(AccessLevel::Admin) {
            4
        } else if self.has_access_level(AccessLevel::Oper) {
            3
        } else if self.has_access_level(AccessLevel::HalfOp) {
            2
        } else if self.has_access_level(AccessLevel::Voice) {
            1
        } else {
            0
        }
    }

    /// Whether the user is listed before another.
    pub fn is_listed_before(&self, other: &User) -> (res: bool)
        ensures
            res == listed_before(self@, other@),
    {
        let rank = self.rank();
        let other_rank = other.rank();
        rank > other_rank || rank == other_rank && text::is_before(
            self.nickname.as_str(),
            other.nickname.as_str(),
        )
    }
}

/// The users of a channel: each nickname occurs once.
pub type Users = Map<Seq<char>, UserView>;

/// The set with a user added; a user with the same nickname that is there already stays.
pub open spec fn with_user(users: Users, user: UserView) -> Users {
    if users.contains_key(user.nickname) {
        users
    } else {
        users.insert(user.nickname, user)
    }
}

/// The set after something changed of the user with a nickname.
pub open spec fn with_change(users: Users, nickname: Seq<char>, change: ChangeView) -> Users {
    if users.contains_key(nickname) {
        with_user(users.remove(nickname), users[nickname].changed(change))
    } else {
        users
    }
}

/// The users in the order in which they are listed.
pub open spec fn listed(users: Users) -> Seq<UserView> {
    order::listing(users.values(), user_order())
}

/// What a list of users holds.
pub open spec fn user_views(list: Seq<User>) -> Seq<UserView> {
    list.map_values(|user: User| user@)
}

/// Puts a user in its place in a list of others that are in order.
fn insert_in_order(list: &mut Vec<User>, user: User)
    requires
        order::ordered(user_views(old(list)@), user_order()),
        forall|i: int| 0 <= i < old(list)@.len() ==> (#[trigger] old(list)@[i])@.nickname != user@.nickname,
    ensures
        order::ordered(user_views(final(list)@), user_order()),
        user_views(final(list)@).to_set() == user_views(old(list)@).to_set().insert(user@),
{
    let ghost views = user_views(list@);
    let mut i: usize = 0;
    while i < list.len() && list[i].is_listed_before(&user)
        invariant
            i <= list@.len(),
            forall|j: int| 0 <= j < i ==> listed_before((#[trigger] list@[j])@, user@),
        decreases list@.len() - i,
    {
        i = i + 1;
    }
    proof {
        let lt = user_order();
        assert forall|j: int| i <= j < views.len() implies listed_before(user@, #[trigger] views[j]) by {
            let next = views[i as int];
            assert(next == list@[i as int]@);
            text::lemma_before_total(next.nickname, user@.nickname);
            assert(listed_before(user@, next));
            if j > i {
                lemma_user_order();
                assert(lt(next, views[j]));
                assert(lt(user@, next));
                assert(lt(user@, views[j]));
            }
        }
        let more = views.insert(i as int, user@);
        assert forall|a: int, b: int| 0 <= a < b < more.len() implies lt(
            #[trigger] more[a],
            #[trigger] more[b],
        ) by {
            if a < i && b < i {
                assert(lt(views[a], views[b]));
            } else if a < i && b == i {
                assert(views[a] == list@[a]@);
            } else if a < i && b > i {
                assert(lt(views[a], views[b - 1]));
            } else if a == i {
                assert(listed_before(user@, views[b - 1]));
            } else {
                assert(lt(views[a - 1], views[b - 1]));
            }
        }
        assert forall|other: UserView| views.contains(other) implies more.contains(other) by {
            let j = views.index_of(other);
            assert(more[if j < i { j } else { j + 1 }] == other);
        }
        assert(more[i as int] == user@);
        assert forall|other: UserView| more.contains(other) implies other == user@ || views.contains(
            other,
        ) by {
            let j = more.index_of(other);
            if j != i {
                assert(views[if j < i { j } else { j - 1 }] == other);
            }
        }
        assert(more.to_set() =~= views.to_set().insert(user@));
    }
    list.insert(i, user);
    assert(user_views(list@) =~= views.insert(i as int, user@));
}

/// A set of users; two users with the same nickname are the same member of it.
#[derive(Debug)]
pub struct UserSet {
    by_nickname: StringMap<User>,
}

impl View for UserSet {
    type V = Users;

    closed spec fn view(&self) -> Users {
        self.by_nickname@
    }
}

impl UserSet {
    #[verifier::type_invariant]
    spec fn keyed_by_nickname(self) -> bool {
        forall|nickname: Seq<char>| #[trigger]
            self.by_nickname@.contains_key(nickname) ==> self.by_nickname@[nickname].nickname
                == nickname
    }

    /// An empty set.
    pub fn new() -> (users: UserSet)
        ensures
            users@ == Users::empty(),
    {
        UserSet { by_nickname: StringMap::new() }
    }

    /// The number of users.
    pub fn len(&self) -> (len: usize)
        ensures
            len == self@.len(),
            self@.dom().finite(),
            keyed(self@),
    {
        proof {
            use_type_invariant(self);
        }
        self.by_nickname.len()
    }

    /// Whether a user with a nickname is in the set.
    pub fn contains(&self, nickname: &str) -> (res: bool)
        ensures
            res == self@.contains_key(nickname@),
    {
        self.by_nickname.contains_key(nickname)
    }

    /// The user with a nickname.
    pub fn get(&self, nickname: &str) -> (res: Option<&User>)
        ensures
            match res {
                Some(user) => {
                    &&& self@.contains_key(nickname@)
                    &&& user@ == self@[nickname@]
                    &&& user@.nickname == nickname@
                },
                None => !self@.contains_key(nickname@),
            },
    {
        proof {
            use_type_invariant(self);
        }
        self.by_nickname.get(nickname)
    }

    /// Takes the user with a nickname out of the set.
    pub fn take(&mut self, nickname: &str) -> (res: Option<User>)
        ensures
            final(self)@ == old(self)@.remove(nickname@),
            match res {
                Some(user) => {
                    &&& old(self)@.contains_key(nickname@)
                    &&& user@ == old(self)@[nickname@]
                    &&& user@.nickname == nickname@
                },
                None => !old(self)@.contains_key(nickname@),
            },
    {
        proof {
            use_type_invariant(&*self);
        }
        let mut taken = UserSet { by_nickname: StringMap::new() };
        std::mem::swap(self, &mut taken);
        let UserSet { mut by_nickname } = taken;
        let user = by_nickname.remove(nickname);
        *self = UserSet { by_nickname };
        user
    }

    /// Removes the user with a nickname; whether there was one.
    pub fn remove(&mut self, nickname: &str) -> (res: bool)
        ensures
            final(self)@ == old(self)@.remove(nickname@),
            res == old(self)@.contains_key(nickname@),
    {
        match self.take(nickname) {
            Some(_) => true,
            None => false,
        }
    }

    /// Adds a user, unless one with the same nickname is there; whether it was added.
    pub fn insert(&mut self, user: User) -> (res: bool)
        ensures
            final(self)@ == with_user(old(self)@, user@),
            res == !old(self)@.contains_key(user@.nickname),
    {
        proof {
            use_type_invariant(&*self);
        }
        if self.by_nickname.contains_key(user.nickname.as_str()) {
            return false;
        }
        let mut taken = UserSet { by_nickname: StringMap::new() };
        std::mem::swap(self, &mut taken);
        let UserSet { mut by_nickname } = taken;
        let nickname = user.nickname.clone();
        let _ = by_nickname.insert(nickname, user);
        *self = UserSet { by_nickname };
        true
    }

    /// Records that something changed of the user with a nickname.
    pub fn change(&mut self, nickname: &str, change: &Change)
        ensures
            final(self)@ == with_change(old(self)@, nickname@, change@),
    {
        if let Some(user) = self.take(nickname) {
            let _ = self.insert(user.changed(change));
        } else {
            assert(self@ =~= old(self)@);
        }
    }

    /// The users in the order in which they are listed.
    pub fn sorted(&self) -> (list: Vec<User>)
        ensures
            user_views(list@) == listed(self@),
            self@.dom().finite(),
            keyed(self@),
    {
        proof {
            use_type_invariant(self);
        }
        let mut list: Vec<User> = Vec::new();
        let len = self.by_nickname.len();
        let ghost users = self@;
        let ghost names = self.by_nickname.names();
        proof {
            assert(user_views(list@).to_set() =~= Set::<UserView>::empty());
        }
        for i in 0..len
            invariant
                len == names.len(),
                names == self.by_nickname.names(),
                users == self.by_nickname@,
                crate::text::increasing(names),
                forall|name: Seq<char>| #[trigger]
                    users.contains_key(name) ==> users[name].nickname == name,
                order::ordered(user_views(list@), user_order()),
                forall|user: UserView| #[trigger]
                    user_views(list@).to_set().contains(user) <==> exists|j: int|
                        0 <= j < i && user == users[#[trigger] names[j]],
        {
            let user = self.by_nickname.value_at(i);
            let ghost so_far = user_views(list@);
            proof {
                assert(users.contains_key(names[i as int]));
                assert forall|k: int| 0 <= k < list@.len() implies (#[trigger] list@[k])@.nickname
                    != user@.nickname by {
                    assert(so_far[k] == list@[k]@);
                    assert(so_far.to_set().contains(so_far[k]));
                    let j = choose|j: int| 0 <= j < i && so_far[k] == users[#[trigger] names[j]];
                    let _ = self.by_nickname.names()[j];
                    text::lemma_before_irreflexive(names[j]);
                    assert(before(names[j], names[i as int]));
                    assert(crate::string_map::paired(names, self.by_nickname.items()).contains_key(names[j]));
                    assert(users.contains_key(names[j]));
                }
            }
            insert_in_order(&mut list, user.clone());
            proof {
                assert forall|other: UserView| #[trigger]
                    user_views(list@).to_set().contains(other) <==> exists|j: int|
                        0 <= j < i + 1 && other == users[#[trigger] names[j]] by {
                    if so_far.to_set().contains(other) {
                        let j = choose|j: int| 0 <= j < i && other == users[#[trigger] names[j]];
                        assert(0 <= j < i + 1 && other == users[names[j]]);
                    }
                    if other == user@ {
                        assert(other == users[names[i as int]]);
                    }
                }
            }
        }
        proof {
            lemma_user_order();
            order::lemma_listing(user_views(list@), user_order());
            assert(user_views(list@).to_set() =~= users.values()) by {
                assert forall|user: UserView| user_views(list@).to_set().contains(user) <==> users.values().contains(user) by {
                    if user_views(list@).to_set().contains(user) {
                        let j = choose|j: int| 0 <= j < len && user == users[#[trigger] names[j]];
                        assert(names.contains(names[j]));
                        assert(users.contains_key(names[j]));
                    }
                    if users.values().contains(user) {
                        let name = choose|name: Seq<char>| users.contains_key(name) && users[name] == user;
                        let j = names.index_of(name);
                        assert(names.contains(name));
                        assert(user == users[names[j]]);
                    }
                }
            }
        }
        list
    }

    /// A copy of the set.
    pub fn copy(&self) -> (copy: UserSet)
        ensures
            copy@ == self@,
    {
        proof {
            use_type_invariant(self);
        }
        UserSet { by_nickname: self.by_nickname.copy() }
    }
}

// ---------------------------------------------------------------------------
// What holds of users

/// Whether each user is kept under its own nickname.
pub open spec fn keyed(users: Users) -> bool {
    forall|nick: Seq<char>| #[trigger] users.contains_key(nick) ==> users[nick].nickname == nick
}

/// The list of a channel's users shows all of them and no others, those of a higher rank first and
/// those of one rank by nickname.
pub proof fn law_listed_shows_all(users: Users)
    requires
        keyed(users),
        users.dom().finite(),
    ensures
        order::ordered(listed(users), user_order()),
        listed(users).to_set() == users.values(),
{
    lemma_user_order();
    let lt = user_order();
    let set = users.values();
    assert(set =~= users.dom().map(|nick: Seq<char>| users[nick]));
    users.dom().lemma_map_finite(|nick: Seq<char>| users[nick]);
    assert forall|a: UserView, b: UserView| #[trigger]
        set.contains(a) && #[trigger] set.contains(b) && a != b implies lt(a, b) || lt(b, a) by {
        let x = choose|x: Seq<char>| users.contains_key(x) && users[x] == a;
        let y = choose|y: Seq<char>| users.contains_key(y) && users[y] == b;
        assert(users[x].nickname == x && users[y].nickname == y);
        text::lemma_before_total(x, y);
    }
    order::law_listing_holds_all(set, lt);
}

/// A user of whom only the nickname is known: nothing else is known of it.
pub proof fn law_named(nickname: Seq<char>)
    ensures
        ({
            let user = UserView::named(nickname);
            &&& user.nickname == nickname
            &&& user.username is None
            &&& user.hostname is None
            &&& user.accountname is None
            &&& user.access_levels == Set::<AccessLevel>::empty()
            &&& !user.away
        }),
{
}

/// Users are listed by the highest level that they have: owners first, then administrators,
/// operators, those with half of their powers, those with a voice, and the others. Among those with
/// the same highest level the nickname decides. `levels` are the levels from the highest down, and
/// `k` is the place of the highest level that the first user has.
pub proof fn law_listed_by_rank(a: UserView, b: UserView, k: int)
    requires
        0 <= k <= 5,
        ({
            let levels = seq![
                AccessLevel::Owner,
                AccessLevel::Admin,
                AccessLevel::Oper,
                AccessLevel::HalfOp,
                AccessLevel::Voice,
            ];
            &&& k < 5 ==> a.access_levels.contains(levels[k])
            &&& forall|i: int| 0 <= i < k ==> !a.access_levels.contains(#[trigger] levels[i])
        }),
    ensures
        ({
            let levels = seq![
                AccessLevel::Owner,
                AccessLevel::Admin,
                AccessLevel::Oper,
                AccessLevel::HalfOp,
                AccessLevel::Voice,
            ];
            let none_higher = forall|i: int|
                0 <= i < k ==> !b.access_levels.contains(#[trigger] levels[i]);
            let same = none_higher && (k == 5 || b.access_levels.contains(levels[k]));
            &&& same ==> (listed_before(a, b) <==> before(a.nickname, b.nickname))
            &&& none_higher && !same ==> listed_before(a, b) && !listed_before(b, a)
            &&& !none_higher ==> listed_before(b, a) && !listed_before(a, b)
        }),
{
    let levels = seq![
        AccessLevel::Owner,
        AccessLevel::Admin,
        AccessLevel::Oper,
        AccessLevel::HalfOp,
        AccessLevel::Voice,
    ];
    assert(levels[0] == AccessLevel::Owner);
    assert(levels[1] == AccessLevel::Admin);
    assert(levels[2] == AccessLevel::Oper);
    assert(levels[3] == AccessLevel::HalfOp);
    assert(levels[4] == AccessLevel::Voice);
}

/// What is known of users tells them apart in all that they hold, but for how often and in which
/// order levels were given.
pub proof fn law_known_of_users(a: User, b: User)
    requires
        a@ == b@,
    ensures
        a.nickname@ == b.nickname@,
        opt_text(a.username) == opt_text(b.username),
        opt_text(a.hostname) == opt_text(b.hostname),
        opt_text(a.accountname) == opt_text(b.accountname),
        a.away == b.away,
        forall|level: AccessLevel| #[trigger]
            a.access_levels@.contains(level) <==> b.access_levels@.contains(level),
{
    assert forall|level: AccessLevel| #[trigger]
        a.access_levels@.contains(level) <==> b.access_levels@.contains(level) by {
        assert(a.access_levels@.to_set().contains(level) == b.access_levels@.to_set().contains(level));
    }
}

} // verus!
