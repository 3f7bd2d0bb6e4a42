//! The recommendation engine: ranked candidate connections for a user,
//! scored by shared interests and labelled by a connectivity heuristic.

use vstd::prelude::*;
use crate::errors::AppError;
use crate::errors::AppResult;
use crate::graph::CommunityGraph;
use crate::graph::ConnectionType;
use crate::graph::User;
use crate::graph::UserView;
use crate::graph::shared_interests;
use crate::graph::str_eq;

verus! {

/// A computed (never stored) suggestion: a candidate username, the
/// interests shared with the subject, and a suggested connection type.
#[derive(Debug, Clone)]
pub struct RecommendedConnection {
    pub username: String,
    pub shared_interests: Vec<String>,
    pub connection_type: ConnectionType,
}

/// The mathematical value of a `RecommendedConnection`.
#[verifier::ext_equal]
pub struct RecommendedConnectionView {
    pub username: Seq<char>,
    pub shared_interests: Seq<Seq<char>>,
    pub connection_type: ConnectionType,
}

impl View for RecommendedConnection {
    type V = RecommendedConnectionView;

    open spec fn view(&self) -> RecommendedConnectionView {
        RecommendedConnectionView {
            username: self.username@,
            shared_interests: self.shared_interests.deep_view(),
            connection_type: self.connection_type,
        }
    }
}

impl DeepView for RecommendedConnection {
    type V = RecommendedConnectionView;

    open spec fn deep_view(&self) -> RecommendedConnectionView {
        self.view()
    }
}

/// How many distinct interests `u` and `c` share.
pub open spec fn shared_interest_count(u: UserView, c: UserView) -> nat {
    shared_interests(u.interests, c.interests).len()
}

/// The heuristic label for recommending `c` to `u`, evaluated in this
/// exact order: more than three shared interests makes a project buddy;
/// otherwise a candidate with more than twice the subject's outgoing
/// connections is a mentor; otherwise a subject with more than twice the
/// candidate's is a follower; otherwise they are collaborators.
pub open spec fn suggested_type(u: UserView, c: UserView) -> ConnectionType {
    if shared_interest_count(u, c) > 3 {
        ConnectionType::ProjectBuddy
    } else if c.connections.len() > 2 * u.connections.len() {
        ConnectionType::Mentor
    } else if u.connections.len() > 2 * c.connections.len() {
        ConnectionType::Follower
    } else {
        ConnectionType::Collaborator
    }
}

/// The suggested label for connecting `user` to `other`, from shared
/// interests and the two current outgoing-connection counts.
pub fn recommend_connection_type(user: &User, other: &User) -> (r: ConnectionType)
    ensures
        r == suggested_type(user@, other@),
{
    let shared = user.has_similar_interests(other);
    if shared.len() > 3 {
        ConnectionType::ProjectBuddy
    } else if (other.connections.len() as u128) > 2 * (user.connections.len() as u128) {
        ConnectionType::Mentor
    } else if (user.connections.len() as u128) > 2 * (other.connections.len() as u128) {
        ConnectionType::Follower
    } else {
        ConnectionType::Collaborator
    }
}

/// Whether `c` should be recommended to `subj`: someone else, not already
/// a target of one of `subj`'s outgoing connections, sharing at least one
/// interest.
pub open spec fn qualifies(subj: UserView, c: UserView) -> bool {
    &&& c.username != subj.username
    &&& !subj.connected_to(c.username)
    &&& shared_interest_count(subj, c) > 0
}

/// Whether `rec` is the recommendation record for candidate `c`, as seen
/// by subject `subj`.
pub open spec fn rec_for(subj: UserView, c: UserView, rec: RecommendedConnectionView) -> bool {
    &&& rec.username == c.username
    &&& rec.shared_interests == shared_interests(subj.interests, c.interests)
    &&& rec.connection_type == suggested_type(subj, c)
}

/// `rec` is the record of some qualifying candidate among the first `m`
/// users of `g`.
pub open spec fn rec_witnessed(
    g: Seq<UserView>,
    subj: UserView,
    rec: RecommendedConnectionView,
    m: int,
) -> bool {
    exists|j: int| 0 <= j < m && qualifies(subj, g[j]) && rec_for(subj, g[j], rec)
}

/// A record witnessed among the first `m` users is witnessed among any
/// longer prefix too.
proof fn lemma_witness_widen(
    g: Seq<UserView>,
    subj: UserView,
    rec: RecommendedConnectionView,
    m1: int,
    m2: int,
)
    requires
        rec_witnessed(g, subj, rec, m1),
        m1 <= m2,
    ensures
        rec_witnessed(g, subj, rec, m2),
{
    let j = choose|j: int| 0 <= j < m1 && qualifies(subj, g[j]) && rec_for(subj, g[j], rec);
    assert(0 <= j < m2 && qualifies(subj, g[j]) && rec_for(subj, g[j], rec));
}

/// Every entry of `out` is the record of some qualifying candidate among
/// the first `m` users of `g`.
pub open spec fn sound_upto(
    g: Seq<UserView>,
    subj: UserView,
    out: Seq<RecommendedConnectionView>,
    m: int,
) -> bool {
    forall|k: int| 0 <= k < out.len() ==> rec_witnessed(g, subj, #[trigger] out[k], m)
}

/// Every qualifying candidate among the first `m` users of `g` is named
/// by some entry of `out`.
pub open spec fn complete_upto(
    g: Seq<UserView>,
    subj: UserView,
    out: Seq<RecommendedConnectionView>,
    m: int,
) -> bool {
    forall|j: int|
        0 <= j < m && qualifies(subj, #[trigger] g[j]) ==> exists|k: int|
            0 <= k < out.len() && out[k].username == g[j].username
}

/// Entries come in non-increasing order of shared-interest count.
pub open spec fn sorted_by_shared(out: Seq<RecommendedConnectionView>) -> bool {
    forall|k1: int, k2: int|
        0 <= k1 < k2 < out.len() ==> out[k1].shared_interests.len()
            >= out[k2].shared_interests.len()
}

/// No two entries name the same candidate.
pub open spec fn distinct_usernames(out: Seq<RecommendedConnectionView>) -> bool {
    forall|k1: int, k2: int|
        0 <= k1 < out.len() && 0 <= k2 < out.len() && k1 != k2 ==> out[k1].username
            != out[k2].username
}

/// What `recommend_connections` promises of its output: exactly the
/// qualifying candidates, each once, correctly scored and labelled, in
/// non-increasing order of shared-interest count.
pub open spec fn valid_recommendations(
    g: Seq<UserView>,
    subj: UserView,
    out: Seq<RecommendedConnectionView>,
) -> bool {
    &&& sound_upto(g, subj, out, g.len() as int)
    &&& complete_upto(g, subj, out, g.len() as int)
    &&& sorted_by_shared(out)
    &&& distinct_usernames(out)
}

/// A valid recommendation list never names the subject, nor anyone the
/// subject already has an outgoing connection to.
pub proof fn lemma_recommendations_exclude(
    g: Seq<UserView>,
    subj: UserView,
    out: Seq<RecommendedConnectionView>,
    k: int,
)
    requires
        valid_recommendations(g, subj, out),
        0 <= k < out.len(),
    ensures
        out[k].username != subj.username,
        !subj.connected_to(out[k].username),
{
    assert(rec_witnessed(g, subj, out[k], g.len() as int));
    let j = choose|j: int|
        0 <= j < g.len() && qualifies(subj, g[j]) && rec_for(subj, g[j], out[k]);
    assert(out[k].username == g[j].username);
}

/// Passing over a candidate that does not qualify keeps the list sound
/// and complete one position further.
proof fn lemma_upto_skip(
    g: Seq<UserView>,
    subj: UserView,
    out: Seq<RecommendedConnectionView>,
    m: int,
)
    requires
        0 <= m < g.len(),
        !qualifies(subj, g[m]),
        sound_upto(g, subj, out, m),
        complete_upto(g, subj, out, m),
    ensures
        sound_upto(g, subj, out, m + 1),
        complete_upto(g, subj, out, m + 1),
{
    assert forall|k: int| 0 <= k < out.len() implies rec_witnessed(
        g,
        subj,
        #[trigger] out[k],
        m + 1,
    ) by {
        lemma_witness_widen(g, subj, out[k], m, m + 1);
    }
}

/// Whether `u` has an outgoing connection to `name`.
fn is_connected_to(u: &User, name: &str) -> (r: bool)
    ensures
        r == u@.connected_to(name@),
{
    let n: usize = u.connections.len();
    for j in 0..n
        invariant
            n == u.connections.len(),
            forall|k: int| 0 <= k < j ==> u@.connections[k].to_username != name@,
    {
        if str_eq(u.connections[j].to_username.as_str(), name) {
            proof {
                assert(u@.connections[j as int].to_username == name@);
            }
            return true;
        }
    }
    false
}

impl CommunityGraph {
    /// Rank every unconnected other user who shares an interest with the
    /// subject, highest shared-interest count first, each labelled with a
    /// suggested connection type.
    pub fn recommend_connections(&self, username: &str) -> (r: AppResult<
        Vec<RecommendedConnection>,
    >)
        requires
            self.wf(),
        ensures
            self.contains_name(username@) ==> (r matches Ok(v) && valid_recommendations(
                self@,
                self.user_named(username@),
                v.deep_view(),
            )),
            !self.contains_name(username@) ==> (r matches Err(AppError::UserNotFound(n))
                && n@ == username@),
    {
        let subj_idx: usize = match self.find_index(username) {
            Some(i) => i,
            None => {
                return Err(AppError::UserNotFound(username.to_owned()));
            },
        };
        proof {
            self.lemma_index_of(username@);
        }
        let ghost subj = self.user_named(username@);
        let mut recs: Vec<RecommendedConnection> = Vec::new();
        let n: usize = self.members.len();
        for i in 0..n
            invariant
                n == self@.len(),
                self.wf(),
                subj_idx < n,
                self@[subj_idx as int] == subj,
                subj.username == username@,
                sound_upto(self@, subj, recs.deep_view(), i as int),
                complete_upto(self@, subj, recs.deep_view(), i as int),
                sorted_by_shared(recs.deep_view()),
                distinct_usernames(recs.deep_view()),
        {
            let candidate = &self.members[i];
            let subject = &self.members[subj_idx];
            if str_eq(candidate.username.as_str(), username) {
                proof {
                    assert(!qualifies(subj, self@[i as int]));
                    lemma_upto_skip(self@, subj, recs.deep_view(), i as int);
                }
            } else if is_connected_to(subject, candidate.username.as_str()) {
                proof {
                    assert(!qualifies(subj, self@[i as int]));
                    lemma_upto_skip(self@, subj, recs.deep_view(), i as int);
                }
            } else {
                let shared = subject.has_similar_interests(candidate);
                if shared.len() == 0 {
                    proof {
                        assert(!qualifies(subj, self@[i as int]));
                        lemma_upto_skip(self@, subj, recs.deep_view(), i as int);
                    }
                } else {
                    let count: usize = shared.len();
                    let kind = recommend_connection_type(subject, candidate);
                    let rec = RecommendedConnection {
                        username: candidate.username.clone(),
                        shared_interests: shared,
                        connection_type: kind,
                    };
                    proof {
                        assert(qualifies(subj, self@[i as int]));
                        assert(rec_for(subj, self@[i as int], rec@));
                    }
                    let mut pos: usize = 0;
                    while pos < recs.len() && recs[pos].shared_interests.len() >= count
                        invariant
                            pos <= recs.len(),
                            forall|k: int|
                                0 <= k < pos ==> recs.deep_view()[k].shared_interests.len()
                                    >= count,
                        decreases recs.len() - pos,
                    {
                        pos = pos + 1;
                    }
                    let ghost r0 = recs.deep_view();
                    recs.insert(pos, rec);
                    proof {
                        assert(recs.deep_view() =~= r0.insert(pos as int, rec@));
                        lemma_insert_sound_complete(self@, subj, r0, rec@, pos as int, i as int);
                        lemma_insert_sorted(r0, rec@, pos as int);
                        lemma_insert_distinct(self@, subj, r0, rec@, pos as int, i as int);
                    }
                }
            }
        }
        Ok(recs)
    }
}

/// Inserting the record of the qualifying candidate `g[i]` keeps the list
/// sound and complete one position further.
proof fn lemma_insert_sound_complete(
    g: Seq<UserView>,
    subj: UserView,
    r0: Seq<RecommendedConnectionView>,
    rec: RecommendedConnectionView,
    pos: int,
    i: int,
)
    requires
        0 <= pos <= r0.len(),
        0 <= i < g.len(),
        qualifies(subj, g[i]),
        rec_for(subj, g[i], rec),
        sound_upto(g, subj, r0, i),
        complete_upto(g, subj, r0, i),
    ensures
        sound_upto(g, subj, r0.insert(pos, rec), i + 1),
        complete_upto(g, subj, r0.insert(pos, rec), i + 1),
{
    let r1 = r0.insert(pos, rec);
    r0.insert_ensures(pos, rec);
    assert forall|k: int| 0 <= k < r1.len() implies rec_witnessed(
        g,
        subj,
        #[trigger] r1[k],
        i + 1,
    ) by {
        if k == pos {
            assert(r1[k] == rec);
            assert(0 <= i < i + 1 && qualifies(subj, g[i]) && rec_for(subj, g[i], r1[k]));
        } else if k < pos {
            assert(r1[k] == r0[k]);
            lemma_witness_widen(g, subj, r0[k], i, i + 1);
        } else {
            assert(r1[k] == r0[k - 1]);
            lemma_witness_widen(g, subj, r0[k - 1], i, i + 1);
        }
    }
    assert forall|j: int| 0 <= j < i + 1 && qualifies(subj, #[trigger] g[j]) implies exists|k: int|
        0 <= k < r1.len() && r1[k].username == g[j].username by {
        if j == i {
            assert(r1[pos].username == g[i].username);
        } else {
            let k = choose|k: int| 0 <= k < r0.len() && r0[k].username == g[j].username;
            if k < pos {
                assert(r1[k].username == g[j].username);
            } else {
                assert(r1[k + 1].username == g[j].username);
            }
        }
    }
}

/// Inserting a record whose count fits between its neighbours keeps the
/// list sorted by non-increasing shared-interest count.
proof fn lemma_insert_sorted(
    r0: Seq<RecommendedConnectionView>,
    rec: RecommendedConnectionView,
    pos: int,
)
    requires
        0 <= pos <= r0.len(),
        sorted_by_shared(r0),
        forall|k: int| 0 <= k < pos ==> r0[k].shared_interests.len() >= rec.shared_interests.len(),
        pos < r0.len() ==> r0[pos].shared_interests.len() < rec.shared_interests.len(),
    ensures
        sorted_by_shared(r0.insert(pos, rec)),
{
    let r1 = r0.insert(pos, rec);
    r0.insert_ensures(pos, rec);
    assert forall|k1: int, k2: int| 0 <= k1 < k2 < r1.len() implies r1[k1].shared_interests.len()
        >= r1[k2].shared_interests.len() by {
        if k1 == pos {
            assert(r1[k2] == r0[k2 - 1]);
            assert(pos <= k2 - 1 < r0.len());
            assert(r0[k2 - 1].shared_interests.len() <= r0[pos].shared_interests.len());
        } else if k2 == pos {
            assert(r1[k1] == r0[k1]);
        } else if k1 < pos && k2 > pos {
            assert(r1[k1] == r0[k1]);
            assert(r1[k2] == r0[k2 - 1]);
            assert(pos <= k2 - 1 < r0.len());
        } else if k2 < pos {
            assert(r1[k1] == r0[k1]);
            assert(r1[k2] == r0[k2]);
        } else {
            assert(r1[k1] == r0[k1 - 1]);
            assert(r1[k2] == r0[k2 - 1]);
        }
    }
}

/// Inserting the record of a candidate no entry names yet keeps the
/// entries' usernames pairwise distinct.
proof fn lemma_insert_distinct(
    g: Seq<UserView>,
    subj: UserView,
    r0: Seq<RecommendedConnectionView>,
    rec: RecommendedConnectionView,
    pos: int,
    i: int,
)
    requires
        0 <= pos <= r0.len(),
        0 <= i < g.len(),
        forall|j1: int, j2: int|
            0 <= j1 < g.len() && 0 <= j2 < g.len() && j1 != j2 ==> g[j1].username
                != g[j2].username,
        rec.username == g[i].username,
        sound_upto(g, subj, r0, i),
        distinct_usernames(r0),
    ensures
        distinct_usernames(r0.insert(pos, rec)),
{
    let r1 = r0.insert(pos, rec);
    r0.insert_ensures(pos, rec);
    assert forall|k: int| 0 <= k < r0.len() implies r0[k].username != rec.username by {
        let j = choose|j: int| 0 <= j < i && qualifies(subj, g[j]) && rec_for(subj, g[j], r0[k]);
        assert(r0[k].username == g[j].username);
        assert(g[j].username != g[i].username);
    }
    assert forall|k1: int, k2: int|
        0 <= k1 < r1.len() && 0 <= k2 < r1.len() && k1 != k2 implies r1[k1].username
        != r1[k2].username by {
        if k1 == pos {
            if k2 < pos {
                assert(r1[k2] == r0[k2]);
            } else {
                assert(r1[k2] == r0[k2 - 1]);
            }
        } else if k2 == pos {
            if k1 < pos {
                assert(r1[k1] == r0[k1]);
            } else {
                assert(r1[k1] == r0[k1 - 1]);
            }
        } else {
            let m1: int = if k1 < pos { k1 } else { k1 - 1 };
            let m2: int = if k2 < pos { k2 } else { k2 - 1 };
            assert(r1[k1] == r0[m1]);
            assert(r1[k2] == r0[m2]);
            assert(m1 != m2);
        }
    }
}

} // verus!

