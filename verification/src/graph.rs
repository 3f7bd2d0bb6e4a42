//! The graph store: user records, typed directed connections, and the
//! mutation and query operations that keep the store consistent.

use vstd::prelude::*;
use crate::errors::AppError;
use crate::errors::AppResult;

verus! {

/// The closed set of labels a connection (or a recommendation) can carry.
#[derive(Debug, Clone, Copy, PartialEq, Eq, Structural)]
pub enum ConnectionType {
    Mentor,
    Collaborator,
    Follower,
    ProjectBuddy,
}

/// A directed, typed edge from its owning user to `to_username`. The target
/// is a logical reference (a lookup key), never an ownership edge. Immutable
/// once created.
#[derive(Debug, Clone)]
pub struct Connection {
    pub to_username: String,
    pub kind: ConnectionType,
    pub since: String,
    pub tags: Vec<String>,
}

/// The mathematical value of a `Connection`.
#[verifier::ext_equal]
pub struct ConnectionView {
    pub to_username: Seq<char>,
    pub kind: ConnectionType,
    pub since: Seq<char>,
    pub tags: Seq<Seq<char>>,
}

impl View for Connection {
    type V = ConnectionView;

    open spec fn view(&self) -> ConnectionView {
        ConnectionView {
            to_username: self.to_username@,
            kind: self.kind,
            since: self.since@,
            tags: self.tags.deep_view(),
        }
    }
}

impl DeepView for Connection {
    type V = ConnectionView;

    open spec fn deep_view(&self) -> ConnectionView {
        self.view()
    }
}

/// A registered profile: a unique username, an optional bio, an ordered
/// interest list (duplicates permitted), and the append-only list of
/// outgoing connections.
#[derive(Debug, Clone)]
pub struct User {
    pub username: String,
    pub bio: Option<String>,
    pub interests: Vec<String>,
    pub connections: Vec<Connection>,
}

/// The mathematical value of a `User`.
#[verifier::ext_equal]
pub struct UserView {
    pub username: Seq<char>,
    pub bio: Option<Seq<char>>,
    pub interests: Seq<Seq<char>>,
    pub connections: Seq<ConnectionView>,
}

impl View for User {
    type V = UserView;

    open spec fn view(&self) -> UserView {
        UserView {
            username: self.username@,
            bio: self.bio.deep_view(),
            interests: self.interests.deep_view(),
            connections: self.connections.deep_view(),
        }
    }
}

impl DeepView for User {
    type V = UserView;

    open spec fn deep_view(&self) -> UserView {
        self.view()
    }
}

impl UserView {
    /// This user with one more outgoing connection appended.
    pub open spec fn with_connection(self, c: ConnectionView) -> UserView {
        UserView { connections: self.connections.push(c), ..self }
    }

    /// Whether this user has an outgoing connection to `name`.
    pub open spec fn connected_to(self, name: Seq<char>) -> bool {
        exists|j: int|
            0 <= j < self.connections.len() && self.connections[j].to_username == name
    }
}

/// String equality by character sequence.
pub fn str_eq(a: &str, b: &str) -> (r: bool)
    ensures
        r == (a@ == b@),
{
    let sa: String = a.to_owned();
    let sb: String = b.to_owned();
    sa.eq(&sb)
}

/// Whether some entry of `v` equals `s`, by character sequence.
pub fn contains_string(v: &Vec<String>, s: &str) -> (r: bool)
    ensures
        r == v.deep_view().contains(s@),
{
    let n: usize = v.len();
    for i in 0..n
        invariant
            n == v.len(),
            forall|j: int| 0 <= j < i ==> v.deep_view()[j] != s@,
    {
        if str_eq(v[i].as_str(), s) {
            proof {
                assert(v.deep_view()[i as int] == s@);
            }
            return true;
        }
    }
    proof {
        assert(forall|j: int| 0 <= j < v.deep_view().len() ==> v.deep_view()[j] != s@);
    }
    false
}

/// The interests common to `a` and `b`, in order of first occurrence in
/// `a`, each listed once: the sequence the intersection is reported as.
pub open spec fn shared_interests(a: Seq<Seq<char>>, b: Seq<Seq<char>>) -> Seq<Seq<char>>
    decreases a.len(),
{
    if a.len() == 0 {
        Seq::<Seq<char>>::empty()
    } else {
        let rest = shared_interests(a.drop_last(), b);
        if b.contains(a.last()) && !rest.contains(a.last()) {
            rest.push(a.last())
        } else {
            rest
        }
    }
}

/// The shared-interest sequence holds exactly the interests present in both
/// lists, each exactly once.
pub proof fn lemma_shared_interests(a: Seq<Seq<char>>, b: Seq<Seq<char>>)
    ensures
        forall|t: Seq<char>|
            #[trigger] shared_interests(a, b).contains(t) <==> a.contains(t) && b.contains(t),
        shared_interests(a, b).no_duplicates(),
    decreases a.len(),
{
    if a.len() == 0 {
    } else {
        lemma_shared_interests(a.drop_last(), b);
        let rest = shared_interests(a.drop_last(), b);
        let whole = shared_interests(a, b);
        assert forall|t: Seq<char>| #[trigger] whole.contains(t) implies a.contains(t)
            && b.contains(t) by {
            if rest.contains(t) {
                assert(a.drop_last().contains(t));
                let k = choose|k: int| 0 <= k < a.drop_last().len() && a.drop_last()[k] == t;
                assert(a[k] == t);
            } else {
                assert(t == a.last());
                assert(a[a.len() - 1] == t);
            }
        }
        assert forall|t: Seq<char>| a.contains(t) && b.contains(t) implies #[trigger] whole
            .contains(t) by {
            let k = choose|k: int| 0 <= k < a.len() && a[k] == t;
            if k < a.len() - 1 {
                assert(a.drop_last()[k] == t);
                assert(rest.contains(t));
                if b.contains(a.last()) && !rest.contains(a.last()) {
                    let m = choose|m: int| 0 <= m < rest.len() && rest[m] == t;
                    assert(rest.push(a.last())[m] == t);
                } else {
                }
            } else {
                assert(t == a.last());
                if rest.contains(t) {
                    if b.contains(a.last()) && !rest.contains(a.last()) {
                        let m = choose|m: int| 0 <= m < rest.len() && rest[m] == t;
                        assert(rest.push(a.last())[m] == t);
                    } else {
                    }
                } else {
                    assert(whole == rest.push(a.last()));
                    assert(whole[whole.len() - 1] == t);
                }
            }
        }
        if b.contains(a.last()) && !rest.contains(a.last()) {
            assert forall|i: int, j: int|
                0 <= i < whole.len() && 0 <= j < whole.len() && i != j implies whole[i]
                != whole[j] by {
                if i < rest.len() && j < rest.len() {
                } else if i < rest.len() {
                    assert(whole[i] == rest[i]);
                    assert(rest.contains(rest[i]));
                } else if j < rest.len() {
                    assert(whole[j] == rest[j]);
                    assert(rest.contains(rest[j]));
                }
            }
        }
    }
}

impl User {
    /// A fresh profile with no connections yet.
    pub fn new(username: String, bio: Option<String>, interests: Vec<String>) -> (r: Self)
        ensures
            r@ == (UserView {
                username: username@,
                bio: bio.deep_view(),
                interests: interests.deep_view(),
                connections: Seq::<ConnectionView>::empty(),
            }),
    {
        let r = Self { username, bio, interests, connections: Vec::new() };
        proof {
            assert(r@ =~= (UserView {
                username: r.username@,
                bio: r.bio.deep_view(),
                interests: r.interests.deep_view(),
                connections: Seq::<ConnectionView>::empty(),
            }));
        }
        r
    }

    /// Append one outgoing connection; everything else is untouched.
    pub fn add_connection(&mut self, connection: Connection)
        ensures
            final(self)@ == old(self)@.with_connection(connection@),
    {
        self.connections.push(connection);
        proof {
            assert(self@ =~= old(self)@.with_connection(connection@));
        }
    }

    /// The interests this user shares with `other`: exactly the interests
    /// on both lists, each reported once, in order of first occurrence here.
    pub fn has_similar_interests(&self, other: &User) -> (r: Vec<String>)
        ensures
            r.deep_view() == shared_interests(self@.interests, other@.interests),
    {
        let mut r: Vec<String> = Vec::new();
        let n: usize = self.interests.len();
        proof {
            assert(self@.interests.take(0) =~= Seq::<Seq<char>>::empty());
        }
        for i in 0..n
            invariant
                n == self.interests.len(),
                r.deep_view() == shared_interests(
                    self@.interests.take(i as int),
                    other@.interests,
                ),
        {
            let s = &self.interests[i];
            let ghost r0 = r.deep_view();
            if contains_string(&other.interests, s.as_str()) && !contains_string(&r, s.as_str()) {
                r.push(s.clone());
                proof {
                    assert(r.deep_view() =~= r0.push(self@.interests[i as int]));
                }
            }
            proof {
                let a = self@.interests;
                assert(a.take(i + 1).drop_last() =~= a.take(i as int));
                assert(a.take(i + 1).last() == a[i as int]);
            }
        }
        proof {
            assert(self@.interests.take(n as int) =~= self@.interests);
        }
        r
    }
}

/// The users of `g`, in store order, whose interest list contains
/// `interest` by exact match.
pub open spec fn users_with_interest(g: Seq<UserView>, interest: Seq<char>) -> Seq<UserView>
    decreases g.len(),
{
    if g.len() == 0 {
        Seq::<UserView>::empty()
    } else {
        let rest = users_with_interest(g.drop_last(), interest);
        if g.last().interests.contains(interest) {
            rest.push(g.last())
        } else {
            rest
        }
    }
}

/// The interest query selects exactly the users whose interest list
/// contains the interest.
pub proof fn lemma_users_with_interest(g: Seq<UserView>, interest: Seq<char>)
    ensures
        forall|u: UserView|
            #[trigger] users_with_interest(g, interest).contains(u) <==> g.contains(u)
                && u.interests.contains(interest),
    decreases g.len(),
{
    if g.len() == 0 {
    } else {
        lemma_users_with_interest(g.drop_last(), interest);
        let rest = users_with_interest(g.drop_last(), interest);
        let whole = users_with_interest(g, interest);
        assert forall|u: UserView| #[trigger] whole.contains(u) implies g.contains(u)
            && u.interests.contains(interest) by {
            if rest.contains(u) {
                assert(g.drop_last().contains(u));
                let k = choose|k: int| 0 <= k < g.drop_last().len() && g.drop_last()[k] == u;
                assert(g[k] == u);
            } else {
                assert(u == g.last());
                assert(g[g.len() - 1] == u);
            }
        }
        assert forall|u: UserView| g.contains(u) && u.interests.contains(interest) implies #[trigger] whole
            .contains(u) by {
            let k = choose|k: int| 0 <= k < g.len() && g[k] == u;
            if k < g.len() - 1 {
                assert(g.drop_last()[k] == u);
                assert(rest.contains(u));
                if g.last().interests.contains(interest) {
                    let m = choose|m: int| 0 <= m < rest.len() && rest[m] == u;
                    assert(rest.push(g.last())[m] == u);
                }
            } else {
                assert(u == g.last());
                assert(whole == rest.push(g.last()));
                assert(whole[whole.len() - 1] == u);
            }
        }
    }
}

/// The aggregate root: every user of the community, keyed by username.
/// Usernames are unique whenever `wf()` holds, which every operation
/// requires and preserves.
#[derive(Debug)]
pub struct CommunityGraph {
    pub members: Vec<User>,
}

impl View for CommunityGraph {
    type V = Seq<UserView>;

    open spec fn view(&self) -> Seq<UserView> {
        self.members.deep_view()
    }
}

impl Default for CommunityGraph {
    /// The same empty store `new` builds.
    fn default() -> (r: Self)
        ensures
            r@ == Seq::<UserView>::empty(),
            r.wf(),
    {
        CommunityGraph::new()
    }
}

impl CommunityGraph {
    /// Usernames are unique across the store.
    pub open spec fn wf(self) -> bool {
        forall|i: int, j: int|
            0 <= i < self@.len() && 0 <= j < self@.len() && i != j
                ==> self@[i].username != self@[j].username
    }

    /// Whether some user carries the given name.
    pub open spec fn contains_name(self, name: Seq<char>) -> bool {
        exists|i: int| 0 <= i < self@.len() && self@[i].username == name
    }

    /// The position of the user named `name` (meaningful when present).
    pub open spec fn index_of(self, name: Seq<char>) -> int {
        choose|i: int| 0 <= i < self@.len() && self@[i].username == name
    }

    /// The record of the user named `name` (meaningful when present).
    pub open spec fn user_named(self, name: Seq<char>) -> UserView {
        self@[self.index_of(name)]
    }

    /// In a well-formed store, `index_of` is the one position whose user
    /// carries the name.
    pub proof fn lemma_index_of(self, name: Seq<char>)
        requires
            self.wf(),
            self.contains_name(name),
        ensures
            0 <= self.index_of(name) < self@.len(),
            self@[self.index_of(name)].username == name,
            self.user_named(name).username == name,
            forall|j: int|
                0 <= j < self@.len() && self@[j].username == name ==> j == self.index_of(name),
    {
    }

    /// An empty store.
    pub fn new() -> (r: Self)
        ensures
            r@ == Seq::<UserView>::empty(),
            r.wf(),
    {
        let r = Self { members: Vec::new() };
        proof {
            assert(r@ =~= Seq::<UserView>::empty());
        }
        r
    }

    /// The position of the user named `name`, if any.
    pub(crate) fn find_index(&self, name: &str) -> (r: Option<usize>)
        ensures
            r matches Some(i) ==> i < self@.len() && self@[i as int].username == name@,
            r is None ==> !self.contains_name(name@),
    {
        let n: usize = self.members.len();
        for i in 0..n
            invariant
                n == self@.len(),
                forall|j: int| 0 <= j < i ==> self@[j].username != name@,
        {
            if str_eq(self.members[i].username.as_str(), name) {
                return Some(i);
            }
        }
        None
    }

    /// Whether a user with the given name is present.
    pub fn contains_username(&self, name: &str) -> (r: bool)
        ensures
            r == self.contains_name(name@),
    {
        self.find_index(name).is_some()
    }

    /// Insert a fully-constructed user under its (fresh) username; reject a
    /// username that is already taken, leaving the store untouched.
    pub fn add_user(&mut self, user: User) -> (r: AppResult<()>)
        requires
            old(self).wf(),
        ensures
            final(self).wf(),
            !old(self).contains_name(user@.username) ==> {
                &&& r is Ok
                &&& final(self)@ == old(self)@.push(user@)
            },
            old(self).contains_name(user@.username) ==> {
                &&& final(self)@ == old(self)@
                &&& r matches Err(AppError::UserAlreadyExists(n)) && n@ == user@.username
            },
    {
        if self.contains_username(user.username.as_str()) {
            return Err(AppError::UserAlreadyExists(user.username));
        }
        self.members.push(user);
        proof {
            assert(forall|i: int|
                0 <= i < old(self)@.len() ==> old(self)@[i].username != user@.username);
            assert(self@ =~= old(self)@.push(user@));
        }
        Ok(())
    }

    /// Look a user up by name, handing back a read-only view of the record.
    pub fn get_user(&self, username: &str) -> (r: AppResult<&User>)
        requires
            self.wf(),
        ensures
            self.contains_name(username@) ==> (r matches Ok(u) && u@ == self.user_named(
                username@,
            )),
            !self.contains_name(username@) ==> (r matches Err(AppError::UserNotFound(n))
                && n@ == username@),
    {
        match self.find_index(username) {
            Some(i) => {
                proof {
                    self.lemma_index_of(username@);
                }
                Ok(&self.members[i])
            },
            None => Err(AppError::UserNotFound(username.to_owned())),
        }
    }

    /// Connect `from` to `to`: both must exist; a single connection record
    /// is appended to `from`'s list, and nothing else changes. `to` is only
    /// validated, never mutated — no reverse edge is created.
    pub fn connect_users(
        &mut self,
        from: &str,
        to: &str,
        kind: ConnectionType,
        tags: Vec<String>,
        since: String,
    ) -> (r: AppResult<()>)
        requires
            old(self).wf(),
        ensures
            final(self).wf(),
            !old(self).contains_name(from@) ==> {
                &&& final(self)@ == old(self)@
                &&& r matches Err(AppError::UserNotFound(n)) && n@ == from@
            },
            old(self).contains_name(from@) && !old(self).contains_name(to@) ==> {
                &&& final(self)@ == old(self)@
                &&& r matches Err(AppError::UserNotFound(n)) && n@ == to@
            },
            old(self).contains_name(from@) && old(self).contains_name(to@) ==> {
                &&& r is Ok
                &&& final(self)@ == old(self)@.update(
                    old(self).index_of(from@),
                    old(self).user_named(from@).with_connection(ConnectionView {
                        to_username: to@,
                        kind: kind,
                        since: since@,
                        tags: tags.deep_view(),
                    }),
                )
            },
    {
        if !self.contains_username(from) {
            return Err(AppError::UserNotFound(from.to_owned()));
        }
        if !self.contains_username(to) {
            return Err(AppError::UserNotFound(to.to_owned()));
        }
        let connection = Connection { to_username: to.to_owned(), kind, since, tags };
        match self.find_index(from) {
            Some(i) => {
                proof {
                    old(self).lemma_index_of(from@);
                }
                self.members[i].add_connection(connection);
                proof {
                    assert(self@ =~= old(self)@.update(
                        old(self).index_of(from@),
                        old(self).user_named(from@).with_connection(connection@),
                    ));
                }
                Ok(())
            },
            None => Err(
                AppError::ConnectionFailed("failed to resolve connection source".to_owned()),
            ),
        }
    }

    /// Adding a user under a fresh username leaves a well-formed store in
    /// which that username resolves to exactly the record that was stored,
    /// while every username present before still resolves to the record it
    /// had. Replayed over a sequence of additions with distinct usernames,
    /// each stored record is therefore retrievable, exactly as given.
    pub proof fn lemma_added_user_found(self, g2: CommunityGraph, u: UserView)
        requires
            self.wf(),
            !self.contains_name(u.username),
            g2@ == self@.push(u),
        ensures
            g2.wf(),
            g2.contains_name(u.username),
            g2.user_named(u.username) == u,
            forall|n: Seq<char>| #[trigger] self.contains_name(n) ==> g2.contains_name(n),
            forall|n: Seq<char>|
                #[trigger] self.contains_name(n) ==> g2.user_named(n) == self.user_named(n),
    {
        let len = self@.len() as int;
        assert(forall|i: int| 0 <= i < len ==> self@[i].username != u.username);
        assert(g2@[len].username == u.username);
        assert(g2.contains_name(u.username));
        g2.lemma_index_of(u.username);
        assert forall|n: Seq<char>| #[trigger] self.contains_name(n) implies g2.contains_name(n)
            && g2.user_named(n) == self.user_named(n) by {
            self.lemma_index_of(n);
            let i = self.index_of(n);
            assert(g2@[i].username == n);
            assert(g2.contains_name(n));
            g2.lemma_index_of(n);
            assert(g2.index_of(n) == i);
        }
    }

    /// After a successful connection out of `from`, `from`'s record has
    /// exactly one more connection, equal to the one given, and nothing
    /// else about it changed; every other user's record — the target's
    /// included — is exactly what it was.
    pub proof fn lemma_connect_effect(self, g2: CommunityGraph, from: Seq<char>, c: ConnectionView)
        requires
            self.wf(),
            self.contains_name(from),
            g2@ == self@.update(self.index_of(from), self.user_named(from).with_connection(c)),
        ensures
            g2.wf(),
            g2.contains_name(from),
            g2.user_named(from).connections == self.user_named(from).connections.push(c),
            g2.user_named(from).username == self.user_named(from).username,
            g2.user_named(from).bio == self.user_named(from).bio,
            g2.user_named(from).interests == self.user_named(from).interests,
            forall|n: Seq<char>| self.contains_name(n) <==> g2.contains_name(n),
            forall|n: Seq<char>|
                #[trigger] self.contains_name(n) && n != from ==> g2.user_named(n)
                    == self.user_named(n),
    {
        self.lemma_index_of(from);
        let i = self.index_of(from);
        assert(forall|j: int| 0 <= j < g2@.len() ==> g2@[j].username == self@[j].username);
        assert(g2.wf());
        assert forall|n: Seq<char>| self.contains_name(n) implies g2.contains_name(n) by {
            let j = choose|j: int| 0 <= j < self@.len() && self@[j].username == n;
            assert(g2@[j].username == n);
        }
        assert forall|n: Seq<char>| g2.contains_name(n) implies self.contains_name(n) by {
            let j = choose|j: int| 0 <= j < g2@.len() && g2@[j].username == n;
            assert(self@[j].username == n);
        }
        assert forall|n: Seq<char>| #[trigger] self.contains_name(n) implies g2.user_named(n)
            == if n == from {
            self.user_named(from).with_connection(c)
        } else {
            self.user_named(n)
        } by {
            self.lemma_index_of(n);
            let j = self.index_of(n);
            assert(g2@[j].username == n);
            g2.lemma_index_of(n);
            assert(g2.index_of(n) == j);
            if n == from {
                assert(j == i);
            } else {
                assert(j != i);
            }
        }
    }

    /// Every user whose interest list contains `interest` by exact,
    /// case-sensitive string match, in store order. An empty result is
    /// a valid answer, not an error.
    pub fn find_users_by_interest(&self, interest: &str) -> (r: Vec<&User>)
        ensures
            r.deep_view() == users_with_interest(self@, interest@),
    {
        let mut r: Vec<&User> = Vec::new();
        let n: usize = self.members.len();
        proof {
            assert(self@.take(0) =~= Seq::<UserView>::empty());
        }
        for i in 0..n
            invariant
                n == self@.len(),
                r.deep_view() == users_with_interest(self@.take(i as int), interest@),
        {
            let ghost r0 = r.deep_view();
            if contains_string(&self.members[i].interests, interest) {
                r.push(&self.members[i]);
                proof {
                    assert(r.deep_view() =~= r0.push(self@[i as int]));
                }
            }
            proof {
                assert(self@.take(i + 1).drop_last() =~= self@.take(i as int));
                assert(self@.take(i + 1).last() == self@[i as int]);
            }
        }
        proof {
            assert(self@.take(n as int) =~= self@);
        }
        r
    }
}

} // verus!
