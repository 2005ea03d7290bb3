//! Live connections and user sessions, and the tables that hold them.

use vstd::prelude::*;

use crate::config::MsgConfig;
use crate::message::RateLimiter;

verus! {

/// Process-unique handle of a live socket.
#[derive(Debug, Clone, Copy, PartialEq, Eq, Structural, Hash)]
pub struct InternalId(pub u64);

impl InternalId {
    pub fn new(id: u64) -> (r: InternalId)
        ensures
            r.0 == id,
    {
        InternalId(id)
    }
}

/// An authenticated identity.
#[derive(Debug)]
pub struct User {
    pub name: String,
    pub uuid: u128,
    /// Should this user allow private messages?
    pub allow_messages: bool,
}

impl User {
    pub fn duplicate(&self) -> (r: User)
        ensures
            r == *self,
    {
        User { name: self.name.clone(), uuid: self.uuid, allow_messages: self.allow_messages }
    }
}

/// The state of one live connection.
#[derive(Debug)]
pub struct SessionState {
    /// The nonce of a pending Mojang handshake.
    pub session_hash: Option<String>,
    /// The user logged in on this connection.
    pub user: Option<User>,
}

impl SessionState {
    pub fn is_logged_in(&self) -> (r: bool)
        ensures
            r == self.user is Some,
    {
        self.user.is_some()
    }
}

/// A live connection and its state.
#[derive(Debug)]
pub struct Connection {
    pub id: InternalId,
    pub state: SessionState,
}

/// The connections on which one user is logged in.
pub struct UserSession {
    pub name: String,
    pub rate_limiter: RateLimiter,
    pub connections: Vec<InternalId>,
}

/// Index of the connection with `id` in `cs`, or -1.
pub open spec fn conn_index(cs: Seq<Connection>, id: InternalId) -> int
    decreases cs.len(),
{
    if cs.len() == 0 {
        -1
    } else if cs.last().id == id {
        cs.len() - 1
    } else {
        conn_index(cs.drop_last(), id)
    }
}

/// Index of the user session named `name` in `us`, or -1.
pub open spec fn user_index(us: Seq<UserSession>, name: Seq<char>) -> int
    decreases us.len(),
{
    if us.len() == 0 {
        -1
    } else if us.last().name@ == name {
        us.len() - 1
    } else {
        user_index(us.drop_last(), name)
    }
}

/// The ids of `cs` are strictly increasing.
pub open spec fn ids_increasing(cs: Seq<Connection>) -> bool {
    forall|i: int, j: int| 0 <= i < j < cs.len() ==> cs[i].id.0 < cs[j].id.0
}

/// No two user sessions of `us` share a name.
pub open spec fn names_unique(us: Seq<UserSession>) -> bool {
    forall|a: int, b: int| 0 <= a < b < us.len() ==> us[a].name@ != us[b].name@
}

pub(crate) proof fn lemma_conn_index(cs: Seq<Connection>, id: InternalId)
    ensures
        -1 <= conn_index(cs, id) < cs.len(),
        conn_index(cs, id) >= 0 ==> cs[conn_index(cs, id)].id == id,
        forall|i: int| 0 <= i < cs.len() && cs[i].id == id ==> i <= conn_index(cs, id),
    decreases cs.len(),
{
    if cs.len() > 0 {
        lemma_conn_index(cs.drop_last(), id);
        assert(forall|i: int| 0 <= i < cs.len() - 1 ==> cs.drop_last()[i] == cs[i]);
    }
}

/// With increasing ids, the connection that holds `id` is the one found.
pub(crate) proof fn lemma_conn_at(cs: Seq<Connection>, id: InternalId, i: int)
    requires
        ids_increasing(cs),
        0 <= i < cs.len(),
        cs[i].id == id,
    ensures
        conn_index(cs, id) == i,
{
    lemma_conn_index(cs, id);
}

pub(crate) proof fn lemma_conn_absent(cs: Seq<Connection>, id: InternalId)
    requires
        forall|i: int| 0 <= i < cs.len() ==> cs[i].id != id,
    ensures
        conn_index(cs, id) == -1,
{
    lemma_conn_index(cs, id);
}

pub(crate) proof fn lemma_user_index(us: Seq<UserSession>, name: Seq<char>)
    ensures
        -1 <= user_index(us, name) < us.len(),
        user_index(us, name) >= 0 ==> us[user_index(us, name)].name@ == name,
        forall|k: int| 0 <= k < us.len() && us[k].name@ == name ==> k <= user_index(us, name),
    decreases us.len(),
{
    if us.len() > 0 {
        lemma_user_index(us.drop_last(), name);
        assert(forall|k: int| 0 <= k < us.len() - 1 ==> us.drop_last()[k] == us[k]);
    }
}

pub(crate) proof fn lemma_user_at(us: Seq<UserSession>, name: Seq<char>, k: int)
    requires
        names_unique(us),
        0 <= k < us.len(),
        us[k].name@ == name,
    ensures
        user_index(us, name) == k,
{
    lemma_user_index(us, name);
}

pub(crate) proof fn lemma_user_absent(us: Seq<UserSession>, name: Seq<char>)
    requires
        forall|k: int| 0 <= k < us.len() ==> us[k].name@ != name,
    ensures
        user_index(us, name) == -1,
{
    lemma_user_index(us, name);
}

/// Removing the connection at `i` keeps the order of ids, and every other
/// connection is found where it now stands.
pub(crate) proof fn lemma_remove_conn(cs: Seq<Connection>, i: int)
    requires
        ids_increasing(cs),
        0 <= i < cs.len(),
    ensures
        ids_increasing(cs.remove(i)),
        conn_index(cs.remove(i), cs[i].id) == -1,
        forall|x: InternalId|
            x != cs[i].id && conn_index(cs, x) >= 0 ==> #[trigger] conn_index(cs.remove(i), x) == (
            if conn_index(cs, x) < i {
                conn_index(cs, x)
            } else {
                conn_index(cs, x) - 1
            }),
        forall|x: InternalId| conn_index(cs, x) < 0 ==> #[trigger] conn_index(cs.remove(i), x) == -1,
{
    let r = cs.remove(i);
    assert forall|a: int, b: int| 0 <= a < b < r.len() implies r[a].id.0 < r[b].id.0 by {
        if a >= i {
            assert(r[a] == cs[a + 1] && r[b] == cs[b + 1]);
        } else if b >= i {
            assert(r[a] == cs[a] && r[b] == cs[b + 1]);
        }
    }
    assert forall|j: int| 0 <= j < r.len() implies r[j].id != cs[i].id by {
        if j < i {
            assert(r[j] == cs[j]);
        } else {
            assert(r[j] == cs[j + 1]);
        }
    }
    lemma_conn_absent(r, cs[i].id);
    assert forall|x: InternalId|
        x != cs[i].id && conn_index(cs, x) >= 0 implies #[trigger] conn_index(r, x) == (if conn_index(
        cs,
        x,
    ) < i {
        conn_index(cs, x)
    } else {
        conn_index(cs, x) - 1
    }) by {
        lemma_conn_index(cs, x);
        let j = conn_index(cs, x);
        if j < i {
            assert(r[j] == cs[j]);
            lemma_conn_at(r, x, j);
        } else {
            assert(r[j - 1] == cs[j]);
            lemma_conn_at(r, x, j - 1);
        }
    }
    assert forall|x: InternalId| conn_index(cs, x) < 0 implies #[trigger] conn_index(r, x) == -1 by {
        lemma_conn_index(cs, x);
        assert forall|j: int| 0 <= j < r.len() implies r[j].id != x by {
            if j < i {
                assert(r[j] == cs[j]);
            } else {
                assert(r[j] == cs[j + 1]);
            }
        }
        lemma_conn_absent(r, x);
    }
}

/// Replacing the connection at `i` by one with the same id finds every
/// connection where it stood.
pub(crate) proof fn lemma_update_conn(cs: Seq<Connection>, i: int, c: Connection)
    requires
        ids_increasing(cs),
        0 <= i < cs.len(),
        c.id == cs[i].id,
    ensures
        ids_increasing(cs.update(i, c)),
        forall|x: InternalId| #[trigger] conn_index(cs.update(i, c), x) == conn_index(cs, x),
{
    let r = cs.update(i, c);
    assert forall|x: InternalId| #[trigger] conn_index(r, x) == conn_index(cs, x) by {
        lemma_conn_index(cs, x);
        let j = conn_index(cs, x);
        if j >= 0 {
            lemma_conn_at(r, x, j);
        } else {
            lemma_conn_absent(r, x);
        }
    }
}

/// Appending a connection with an id above all others.
pub(crate) proof fn lemma_push_conn(cs: Seq<Connection>, c: Connection)
    requires
        ids_increasing(cs),
        forall|i: int| 0 <= i < cs.len() ==> cs[i].id.0 < c.id.0,
    ensures
        ids_increasing(cs.push(c)),
        conn_index(cs.push(c), c.id) == cs.len(),
        forall|x: InternalId| x != c.id ==> #[trigger] conn_index(cs.push(c), x) == conn_index(cs, x),
{
    assert(cs.push(c).drop_last() =~= cs);
}

/// Removing the user session at `k`.
pub(crate) proof fn lemma_remove_user(us: Seq<UserSession>, k: int)
    requires
        names_unique(us),
        0 <= k < us.len(),
    ensures
        names_unique(us.remove(k)),
        user_index(us.remove(k), us[k].name@) == -1,
        forall|n: Seq<char>|
            n != us[k].name@ && user_index(us, n) >= 0 ==> #[trigger] user_index(us.remove(k), n) == (
            if user_index(us, n) < k {
                user_index(us, n)
            } else {
                user_index(us, n) - 1
            }),
        forall|n: Seq<char>| user_index(us, n) < 0 ==> #[trigger] user_index(us.remove(k), n) == -1,
{
    let r = us.remove(k);
    assert forall|a: int, b: int| 0 <= a < b < r.len() implies r[a].name@ != r[b].name@ by {
        if a >= k {
            assert(r[a] == us[a + 1] && r[b] == us[b + 1]);
        } else if b >= k {
            assert(r[a] == us[a] && r[b] == us[b + 1]);
        }
    }
    assert forall|j: int| 0 <= j < r.len() implies r[j].name@ != us[k].name@ by {
        if j < k {
            assert(r[j] == us[j]);
        } else {
            assert(r[j] == us[j + 1]);
        }
    }
    lemma_user_absent(r, us[k].name@);
    assert forall|n: Seq<char>|
        n != us[k].name@ && user_index(us, n) >= 0 implies #[trigger] user_index(r, n) == (if user_index(
        us,
        n,
    ) < k {
        user_index(us, n)
    } else {
        user_index(us, n) - 1
    }) by {
        lemma_user_index(us, n);
        let j = user_index(us, n);
        if j < k {
            assert(r[j] == us[j]);
            lemma_user_at(r, n, j);
        } else {
            assert(r[j - 1] == us[j]);
            lemma_user_at(r, n, j - 1);
        }
    }
    assert forall|n: Seq<char>| user_index(us, n) < 0 implies #[trigger] user_index(r, n) == -1 by {
        lemma_user_index(us, n);
        assert forall|j: int| 0 <= j < r.len() implies r[j].name@ != n by {
            if j < k {
                assert(r[j] == us[j]);
            } else {
                assert(r[j] == us[j + 1]);
            }
        }
        lemma_user_absent(r, n);
    }
}

/// Replacing the user session at `k` by one with the same name.
pub(crate) proof fn lemma_update_user(us: Seq<UserSession>, k: int, u: UserSession)
    requires
        names_unique(us),
        0 <= k < us.len(),
        u.name@ == us[k].name@,
    ensures
        names_unique(us.update(k, u)),
        forall|n: Seq<char>| #[trigger] user_index(us.update(k, u), n) == user_index(us, n),
{
    let r = us.update(k, u);
    assert forall|n: Seq<char>| #[trigger] user_index(r, n) == user_index(us, n) by {
        lemma_user_index(us, n);
        let j = user_index(us, n);
        if j >= 0 {
            lemma_user_at(r, n, j);
        } else {
            lemma_user_absent(r, n);
        }
    }
}

/// Appending a user session with a new name.
pub(crate) proof fn lemma_push_user(us: Seq<UserSession>, u: UserSession)
    requires
        names_unique(us),
        user_index(us, u.name@) == -1,
    ensures
        names_unique(us.push(u)),
        user_index(us.push(u), u.name@) == us.len(),
        forall|n: Seq<char>| n != u.name@ ==> #[trigger] user_index(us.push(u), n) == user_index(us, n),
{
    lemma_user_index(us, u.name@);
    assert(us.push(u).drop_last() =~= us);
    assert forall|a: int, b: int| 0 <= a < b < us.push(u).len() implies us.push(u)[a].name@ != us.push(
        u,
    )[b].name@ by {
        if b == us.len() {
            if us[a].name@ == u.name@ {
                lemma_user_at(us, u.name@, a);
            }
        }
    }
}

pub(crate) proof fn lemma_remove_no_dup(ids: Seq<InternalId>, j: int)
    requires
        ids.no_duplicates(),
        0 <= j < ids.len(),
    ensures
        ids.remove(j).no_duplicates(),
        !ids.remove(j).contains(ids[j]),
        ids.remove_value(ids[j]) == ids.remove(j),
        forall|x: InternalId| x != ids[j] && ids.contains(x) ==> ids.remove(j).contains(x),
{
    let r = ids.remove(j);
    assert forall|a: int, b: int| 0 <= a < b < r.len() implies r[a] != r[b] by {
        let a0 = if a < j { a } else { a + 1 };
        let b0 = if b < j { b } else { b + 1 };
        assert(r[a] == ids[a0] && r[b] == ids[b0]);
    }
    assert forall|a: int| 0 <= a < r.len() implies r[a] != ids[j] by {
        let a0 = if a < j { a } else { a + 1 };
        assert(r[a] == ids[a0]);
    }
    ids.index_of_first_ensures(ids[j]);
    assert forall|x: InternalId| x != ids[j] && ids.contains(x) implies r.contains(x) by {
        let p = choose|p: int| 0 <= p < ids.len() && ids[p] == x;
        if p < j {
            assert(r[p] == x);
        } else {
            assert(r[p - 1] == x);
        }
    }
}

/// The user sessions after connection `cs[i]` of user session `us[k]`,
/// found at `j` in its list, left it.
pub open spec fn sessions_after_leave(us: Seq<UserSession>, k: int, j: int, after: Seq<UserSession>) -> bool {
    let o = us[k];
    if o.connections@.len() == 1 {
        after == us.remove(k)
    } else {
        &&& after.len() == us.len()
        &&& forall|kk: int| 0 <= kk < us.len() && kk != k ==> after[kk] == us[kk]
        &&& after[k].name == o.name
        &&& after[k].rate_limiter == o.rate_limiter
        &&& after[k].connections@ == o.connections@.remove(j)
    }
}

/// The user sessions after connection `id` joined the session named
/// `name`: appended to its list, or in a new session of its own.
pub open spec fn sessions_after_join(
    us: Seq<UserSession>,
    name: Seq<char>,
    id: InternalId,
    config: MsgConfig,
    after: Seq<UserSession>,
) -> bool {
    let k = user_index(us, name);
    if k >= 0 {
        &&& after.len() == us.len()
        &&& forall|kk: int| 0 <= kk < us.len() && kk != k ==> after[kk] == us[kk]
        &&& after[k].name == us[k].name
        &&& after[k].rate_limiter == us[k].rate_limiter
        &&& after[k].connections@ == us[k].connections@.push(id)
    } else {
        &&& after.len() == us.len() + 1
        &&& forall|kk: int| 0 <= kk < us.len() ==> after[kk] == us[kk]
        &&& after[us.len() as int].name@ == name
        &&& after[us.len() as int].rate_limiter@ == Seq::<u64>::empty()
        &&& after[us.len() as int].rate_limiter.config() == config
        &&& after[us.len() as int].connections@ == seq![id]
    }
}

/// The ids of the logged-in connections of `cs`, in order.
pub open spec fn logged_in_ids(cs: Seq<Connection>) -> Seq<InternalId>
    decreases cs.len(),
{
    if cs.len() == 0 {
        Seq::empty()
    } else {
        let rest = logged_in_ids(cs.drop_last());
        if cs.last().state.user is Some {
            rest.push(cs.last().id)
        } else {
            rest
        }
    }
}

/// The number of connections listed over all user sessions.
pub open spec fn sessions_total(us: Seq<UserSession>) -> nat
    decreases us.len(),
{
    if us.len() == 0 {
        0
    } else {
        sessions_total(us.drop_last()) + us.last().connections@.len()
    }
}

} // verus!
