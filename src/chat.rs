//! The chat hub: a single-writer state machine that owns the live
//! connections, the users logged in on them, their rate limiters and the
//! moderation view. Each handler takes one event and returns the actions
//! to perform: packets to deliver, and outside work whose outcome comes
//! back through a handler of its own.

use vstd::prelude::*;

use crate::auth::{encode_sha1_bytes, has_joined_url, mojang_has_joined_url, sha1_hex, UserInfo};
use crate::config::MsgConfig;
use crate::error::ClientError;
use crate::ids::{hyphenated, parse_uuid, parsed_uuid};
use crate::message::{limiter_step, validation, MessageValidator, RateLimiter};
use crate::moderation::Moderation;
use crate::packets::{
    deliveries, error_reply, error_to, message_packet, private_packet, reply, reply_to, Action,
    ClientPacket, ServerPacket, SuccessReason,
};
use crate::session::{
    conn_index, ids_increasing, lemma_conn_at, lemma_conn_index, lemma_push_conn,
    lemma_push_user, lemma_remove_conn, lemma_remove_no_dup, lemma_remove_user, lemma_update_conn,
    lemma_update_user, lemma_user_at, lemma_user_index, logged_in_ids,
    names_unique, sessions_after_join, sessions_after_leave, sessions_total, user_index, Connection,
    InternalId, SessionState, User, UserSession,
};
use rand::RngCore;
use rand::SeedableRng;

verus! {

/// `rand_hc::Hc128Rng`, the hub's random generator, held as an opaque value.
#[verifier::external_type_specification]
#[verifier::external_body]
pub struct ExHc128Rng(rand_hc::Hc128Rng);

/// Relies on `SeedableRng::from_rng` fed by `rand::rngs::OsRng`: a
/// generator seeded from the operating system, or `None` if that failed.
#[verifier::external_body]
fn seeded_rng() -> (r: Option<rand_hc::Hc128Rng>) {
    rand_hc::Hc128Rng::from_rng(rand::rngs::OsRng).ok()
}

/// Relies on `RngCore::fill_bytes`: twenty bytes drawn from the generator.
#[verifier::external_body]
fn draw_bytes(rng: &mut rand_hc::Hc128Rng) -> (r: [u8; 20]) {
    let mut bytes = [0u8; 20];
    rng.fill_bytes(&mut bytes);
    bytes
}

/// The nonce bytes with the top bit of the first byte cleared, so that the
/// hex rendering never needs a sign.
pub open spec fn masked_nonce(bytes: Seq<u8>) -> Seq<u8> {
    bytes.update(0, bytes[0] % 128)
}

/// The hub.
pub struct ChatServer {
    connections: Vec<Connection>,
    users: Vec<UserSession>,
    rng: rand_hc::Hc128Rng,
    tokens: bool,
    validator: MessageValidator,
    moderation: Moderation,
    config: MsgConfig,
    current_internal_user_id: u64,
}

impl ChatServer {
    /// The live connections, in the order they were opened.
    pub closed spec fn conns(&self) -> Seq<Connection> {
        self.connections@
    }

    /// The logged-in users.
    pub closed spec fn users(&self) -> Seq<UserSession> {
        self.users@
    }

    /// Whether a token authority is configured.
    pub closed spec fn tokens_enabled(&self) -> bool {
        self.tokens
    }

    pub closed spec fn moderation(&self) -> Moderation {
        self.moderation
    }

    pub closed spec fn msg_config(&self) -> MsgConfig {
        self.config
    }

    pub closed spec fn max_length(&self) -> nat {
        self.validator.config().max_length as nat
    }

    /// The last id handed out.
    pub closed spec fn last_id(&self) -> u64 {
        self.current_internal_user_id
    }

    /// The state of the connection `id`, if it is live.
    pub open spec fn session(&self, id: InternalId) -> Option<SessionState> {
        let i = conn_index(self.conns(), id);
        if i >= 0 {
            Some(self.conns()[i].state)
        } else {
            None
        }
    }

    /// The user logged in on connection `id`.
    pub open spec fn user_of(&self, id: InternalId) -> Option<User> {
        match self.session(id) {
            Some(s) => s.user,
            None => None,
        }
    }

    /// The session of the user named `name`.
    pub open spec fn user_session(&self, name: Seq<char>) -> Option<UserSession> {
        let k = user_index(self.users(), name);
        if k >= 0 {
            Some(self.users()[k])
        } else {
            None
        }
    }

    /// The hub's invariant.
    pub open spec fn wf(&self) -> bool {
        let cs = self.conns();
        let us = self.users();
        &&& ids_increasing(cs)
        &&& forall|i: int| 0 <= i < cs.len() ==> cs[i].id.0 <= self.last_id()
        &&& names_unique(us)
        &&& forall|k: int|
            0 <= k < us.len() ==> {
                &&& (#[trigger] us[k]).connections@.len() > 0
                &&& us[k].connections@.no_duplicates()
                &&& us[k].rate_limiter.config() == self.msg_config()
            }
        &&& forall|k: int, m: int|
            0 <= k < us.len() && 0 <= m < us[k].connections@.len() ==> {
                &&& self.user_of(#[trigger] us[k].connections@[m]) is Some
                &&& self.user_of(us[k].connections@[m])->0.name@ == us[k].name@
            }
        &&& forall|i: int|
            0 <= i < cs.len() && (#[trigger] cs[i]).state.user is Some ==> {
                &&& user_index(us, cs[i].state.user->0.name@) >= 0
                &&& us[user_index(us, cs[i].state.user->0.name@)].connections@.contains(cs[i].id)
            }
    }
}

impl ChatServer {
    /// The parts of the hub that no packet changes.
    pub open spec fn same_setup(&self, other: &ChatServer) -> bool {
        &&& self.tokens_enabled() == other.tokens_enabled()
        &&& self.msg_config() == other.msg_config()
        &&& self.max_length() == other.max_length()
    }

    /// A connection that is logged in stays logged in as the same user for
    /// as long as it lives.
    pub open spec fn keeps_logins(&self, later: &ChatServer) -> bool {
        forall|id: InternalId|
            #![trigger later.session(id)]
            self.user_of(id) is Some && later.session(id) is Some ==> later.user_of(id)
                == self.user_of(id)
    }

    /// A hub with no connection; `tokens` tells whether a token authority is
    /// configured. `None` if the random generator could not be seeded.
    pub fn new(config: MsgConfig, moderation: Moderation, tokens: bool) -> (r: Option<ChatServer>)
        ensures
            r matches Some(s) ==> {
                &&& s.wf()
                &&& s.conns().len() == 0
                &&& s.users().len() == 0
                &&& s.last_id() == 0
                &&& s.tokens_enabled() == tokens
                &&& s.moderation() == moderation
                &&& s.msg_config() == config
                &&& s.max_length() == config.max_length
            },
    {
        match seeded_rng() {
            Some(rng) => Some(
                ChatServer {
                    connections: Vec::new(),
                    users: Vec::new(),
                    rng,
                    tokens,
                    validator: MessageValidator::new(config),
                    moderation,
                    config,
                    current_internal_user_id: 0,
                },
            ),
            None => None,
        }
    }

    fn find_conn(&self, id: InternalId) -> (r: Option<usize>)
        ensures
            r matches Some(i) ==> i < self.conns().len() && i as int == conn_index(self.conns(), id),
            r is None ==> conn_index(self.conns(), id) == -1,
    {
        let mut i = self.connections.len();
        assert(self.conns().take(i as int) =~= self.conns());
        while i > 0
            invariant
                i <= self.connections@.len(),
                conn_index(self.conns(), id) == conn_index(self.conns().take(i as int), id),
            decreases i,
        {
            let ghost prefix = self.conns().take(i as int);
            assert(prefix.drop_last() =~= self.conns().take(i - 1));
            if self.connections[i - 1].id == id {
                return Some(i - 1);
            }
            i = i - 1;
        }
        None
    }

    fn find_user(&self, name: &String) -> (r: Option<usize>)
        ensures
            r matches Some(k) ==> k < self.users().len() && k as int == user_index(self.users(), name@),
            r is None ==> user_index(self.users(), name@) == -1,
    {
        let mut k = self.users.len();
        assert(self.users().take(k as int) =~= self.users());
        while k > 0
            invariant
                k <= self.users@.len(),
                user_index(self.users(), name@) == user_index(self.users().take(k as int), name@),
            decreases k,
        {
            let ghost prefix = self.users().take(k as int);
            assert(prefix.drop_last() =~= self.users().take(k - 1));
            if self.users[k - 1].name == *name {
                return Some(k - 1);
            }
            k = k - 1;
        }
        None
    }

    /// Registers a new connection under the next id. `None` once every id
    /// has been handed out.
    pub fn connect(&mut self) -> (r: Option<InternalId>)
        requires
            old(self).wf(),
        ensures
            final(self).wf(),
            final(self).same_setup(old(self)),
            old(self).keeps_logins(final(self)),
            final(self).users() == old(self).users(),
            old(self).last_id() == u64::MAX ==> r is None && final(self).conns() == old(self).conns(),
            old(self).last_id() < u64::MAX ==> {
                &&& r == Some(InternalId((old(self).last_id() + 1) as u64))
                &&& final(self).last_id() == old(self).last_id() + 1
                &&& final(self).conns() == old(self).conns().push(
                    Connection {
                        id: r->0,
                        state: SessionState { session_hash: None, user: None },
                    },
                )
            },
    {
        if self.current_internal_user_id == u64::MAX {
            return None;
        }
        let ghost before = *self;
        self.current_internal_user_id = self.current_internal_user_id + 1;
        let id = InternalId(self.current_internal_user_id);
        let c = Connection { id, state: SessionState { session_hash: None, user: None } };
        proof {
            lemma_push_conn(before.conns(), c);
        }
        self.connections.push(c);
        proof {
            let cs = self.conns();
            assert forall|x: InternalId| x != id implies #[trigger] self.session(x) == before.session(x) by {
                lemma_conn_index(before.conns(), x);
                if conn_index(before.conns(), x) >= 0 {
                    assert(cs[conn_index(before.conns(), x)] == before.conns()[conn_index(before.conns(), x)]);
                }
            }
            assert(before.session(id) is None) by {
                lemma_conn_index(before.conns(), id);
            }
            assert forall|k: int, m: int|
                0 <= k < self.users().len() && 0 <= m < self.users()[k].connections@.len() implies {
                &&& self.user_of(#[trigger] self.users()[k].connections@[m]) is Some
                &&& self.user_of(self.users()[k].connections@[m])->0.name@ == self.users()[k].name@
            } by {
                let x = self.users()[k].connections@[m];
                assert(before.user_of(x) is Some);
            }
            assert forall|i: int|
                0 <= i < cs.len() && (#[trigger] cs[i]).state.user is Some implies {
                &&& user_index(self.users(), cs[i].state.user->0.name@) >= 0
                &&& self.users()[user_index(self.users(), cs[i].state.user->0.name@)].connections@.contains(cs[i].id)
            } by {
                assert(i < before.conns().len());
                assert(cs[i] == before.conns()[i]);
            }
        }
        Some(id)
    }
}

impl ChatServer {
    /// A connection with a user belongs to that user's session.
    proof fn lemma_logged_in_conn(s: ChatServer, i: int)
        requires
            s.wf(),
            0 <= i < s.conns().len(),
            s.conns()[i].state.user is Some,
        ensures
            ({
                let k = user_index(s.users(), s.conns()[i].state.user->0.name@);
                &&& 0 <= k < s.users().len()
                &&& s.users()[k].name@ == s.conns()[i].state.user->0.name@
                &&& s.users()[k].connections@.contains(s.conns()[i].id)
                &&& s.users()[k].connections@.no_duplicates()
                &&& s.user_of(s.conns()[i].id) == s.conns()[i].state.user
            }),
    {
        let c = s.conns()[i];
        lemma_user_index(s.users(), c.state.user->0.name@);
        let k = user_index(s.users(), c.state.user->0.name@);
        assert(s.users()[k].connections@.len() > 0);
        lemma_conn_at(s.conns(), c.id, i);
    }

    /// The live connections after the one at `i` was dropped.
    proof fn lemma_sessions_after_drop(before: ChatServer, after: ChatServer, i: int)
        requires
            ids_increasing(before.conns()),
            0 <= i < before.conns().len(),
            after.conns() == before.conns().remove(i),
        ensures
            ids_increasing(after.conns()),
            after.session(before.conns()[i].id) is None,
            forall|x: InternalId|
                x != before.conns()[i].id ==> #[trigger] after.session(x) == before.session(x),
    {
        let cs = after.conns();
        lemma_remove_conn(before.conns(), i);
        assert forall|x: InternalId|
            x != before.conns()[i].id implies #[trigger] after.session(x) == before.session(x) by {
            lemma_conn_index(before.conns(), x);
            let j = conn_index(before.conns(), x);
            if j >= 0 {
                if j < i {
                    assert(cs[j] == before.conns()[j]);
                } else {
                    assert(cs[j - 1] == before.conns()[j]);
                }
            }
        }
    }

    /// A connection that no user is logged in on is dropped.
    proof fn lemma_wf_drop_anonymous(before: ChatServer, after: ChatServer, i: int)
        requires
            before.wf(),
            0 <= i < before.conns().len(),
            before.conns()[i].state.user is None,
            after.conns() == before.conns().remove(i),
            after.users() == before.users(),
            after.last_id() == before.last_id(),
            after.msg_config() == before.msg_config(),
        ensures
            after.wf(),
            forall|k: int|
                0 <= k < after.users().len() ==> !(#[trigger] after.users()[k]).connections@.contains(
                    before.conns()[i].id,
                ),
    {
        let id = before.conns()[i].id;
        let cs = after.conns();
        Self::lemma_sessions_after_drop(before, after, i);
        lemma_conn_at(before.conns(), id, i);
        assert forall|k: int|
            0 <= k < after.users().len() implies !(#[trigger] after.users()[k]).connections@.contains(id) by {
            if after.users()[k].connections@.contains(id) {
                let m = choose|m: int|
                    0 <= m < after.users()[k].connections@.len() && after.users()[k].connections@[m] == id;
                assert(before.user_of(before.users()[k].connections@[m]) is Some);
            }
        }
        assert forall|k: int, m: int|
            0 <= k < after.users().len() && 0 <= m < after.users()[k].connections@.len() implies {
            &&& after.user_of(#[trigger] after.users()[k].connections@[m]) is Some
            &&& after.user_of(after.users()[k].connections@[m])->0.name@ == after.users()[k].name@
        } by {
            let x = after.users()[k].connections@[m];
            assert(before.user_of(x) is Some);
        }
        assert forall|j: int| 0 <= j < cs.len() && (#[trigger] cs[j]).state.user is Some implies {
            &&& user_index(after.users(), cs[j].state.user->0.name@) >= 0
            &&& after.users()[user_index(after.users(), cs[j].state.user->0.name@)].connections@.contains(
                cs[j].id,
            )
        } by {
            if j < i {
                assert(cs[j] == before.conns()[j]);
            } else {
                assert(cs[j] == before.conns()[j + 1]);
            }
        }
    }

    /// The user sessions other than the one named `name` are unchanged.
    proof fn lemma_leave_frame(us: Seq<UserSession>, k: int, j: int, after: Seq<UserSession>)
        requires
            names_unique(us),
            0 <= k < us.len(),
            sessions_after_leave(us, k, j, after),
        ensures
            names_unique(after),
            forall|n: Seq<char>|
                n != us[k].name@ ==> (#[trigger] user_index(after, n) >= 0 <==> user_index(us, n) >= 0),
            forall|n: Seq<char>|
                n != us[k].name@ && user_index(us, n) >= 0 ==> after[user_index(after, n)] == us[#[trigger] user_index(
                    us,
                    n,
                )],
            us[k].connections@.len() == 1 ==> user_index(after, us[k].name@) == -1,
            us[k].connections@.len() != 1 ==> user_index(after, us[k].name@) == k,
            forall|kk: int|
                0 <= kk < after.len() && after[kk].name@ != us[k].name@ ==> #[trigger] after[kk] == us[user_index(
                    us,
                    after[kk].name@,
                )],
    {
        if us[k].connections@.len() == 1 {
            lemma_remove_user(us, k);
            assert forall|n: Seq<char>|
                n != us[k].name@ implies (#[trigger] user_index(after, n) >= 0 <==> user_index(us, n) >= 0) by {
                lemma_user_index(us, n);
            }
            assert forall|n: Seq<char>|
                n != us[k].name@ && user_index(us, n) >= 0 implies after[user_index(after, n)] == us[#[trigger] user_index(
                us,
                n,
            )] by {
                lemma_user_index(us, n);
                let kk = user_index(us, n);
                if kk < k {
                    assert(after[kk] == us[kk]);
                } else {
                    assert(after[kk - 1] == us[kk]);
                }
            }
            assert forall|kk: int|
                0 <= kk < after.len() && after[kk].name@ != us[k].name@ implies #[trigger] after[kk] == us[user_index(
                us,
                after[kk].name@,
            )] by {
                let kb = if kk < k { kk } else { kk + 1 };
                assert(after[kk] == us[kb]);
                lemma_user_at(us, us[kb].name@, kb);
            }
        } else {
            assert(after == us.update(k, after[k]));
            lemma_update_user(us, k, after[k]);
            lemma_user_at(after, us[k].name@, k);
            assert forall|n: Seq<char>|
                n != us[k].name@ && user_index(us, n) >= 0 implies after[user_index(after, n)] == us[#[trigger] user_index(
                us,
                n,
            )] by {
                lemma_user_index(us, n);
            }
            assert forall|kk: int|
                0 <= kk < after.len() && after[kk].name@ != us[k].name@ implies #[trigger] after[kk] == us[user_index(
                us,
                after[kk].name@,
            )] by {
                lemma_user_at(us, us[kk].name@, kk);
            }
        }
    }

    /// A connection that a user is logged in on is dropped and leaves that
    /// user's session.
    #[verifier::rlimit(40)]
    proof fn lemma_wf_drop_user(before: ChatServer, after: ChatServer, i: int, k: int, j: int)
        requires
            before.wf(),
            0 <= i < before.conns().len(),
            before.conns()[i].state.user is Some,
            k == user_index(before.users(), before.conns()[i].state.user->0.name@),
            0 <= j < before.users()[k].connections@.len(),
            before.users()[k].connections@[j] == before.conns()[i].id,
            after.conns() == before.conns().remove(i),
            sessions_after_leave(before.users(), k, j, after.users()),
            after.last_id() == before.last_id(),
            after.msg_config() == before.msg_config(),
        ensures
            after.wf(),
            forall|kk: int|
                0 <= kk < after.users().len() ==> !(#[trigger] after.users()[kk]).connections@.contains(
                    before.conns()[i].id,
                ),
    {
        let id = before.conns()[i].id;
        let us = before.users();
        let ua = after.users();
        let name = us[k].name@;
        let o = us[k];
        let cs = after.conns();
        Self::lemma_logged_in_conn(before, i);
        lemma_user_index(us, name);
        lemma_conn_at(before.conns(), id, i);
        Self::lemma_sessions_after_drop(before, after, i);
        Self::lemma_leave_frame(us, k, j, ua);
        lemma_remove_no_dup(o.connections@, j);
        assert forall|kk: int| 0 <= kk < ua.len() implies !(#[trigger] ua[kk]).connections@.contains(id) by {
            if ua[kk].name@ != name {
                let kb = user_index(us, ua[kk].name@);
                if ua[kk].connections@.contains(id) {
                    let m = choose|m: int| 0 <= m < us[kb].connections@.len() && us[kb].connections@[m] == id;
                    assert(before.user_of(us[kb].connections@[m]) is Some);
                }
            } else {
                lemma_user_at(ua, name, kk);
            }
        }
        assert forall|kk: int, m: int| 0 <= kk < ua.len() && 0 <= m < ua[kk].connections@.len() implies {
            &&& after.user_of(#[trigger] ua[kk].connections@[m]) is Some
            &&& after.user_of(ua[kk].connections@[m])->0.name@ == ua[kk].name@
        } by {
            let x = ua[kk].connections@[m];
            assert(ua[kk].connections@.contains(x));
            if ua[kk].name@ == name {
                lemma_user_at(ua, name, kk);
                let p = if m < j { m } else { m + 1 };
                assert(o.connections@[p] == x);
                assert(before.user_of(us[k].connections@[p]) is Some);
            } else {
                let kb = user_index(us, ua[kk].name@);
                assert(before.user_of(us[kb].connections@[m]) is Some);
            }
        }
        assert forall|jj: int| 0 <= jj < cs.len() && (#[trigger] cs[jj]).state.user is Some implies {
            &&& user_index(ua, cs[jj].state.user->0.name@) >= 0
            &&& ua[user_index(ua, cs[jj].state.user->0.name@)].connections@.contains(cs[jj].id)
        } by {
            let jb = if jj < i { jj } else { jj + 1 };
            assert(cs[jj] == before.conns()[jb]);
            let v = cs[jj].state.user->0;
            let x = cs[jj].id;
            let kb = user_index(us, v.name@);
            if v.name@ == name {
                assert(o.connections@.contains(x));
            }
        }
        assert forall|kk: int| 0 <= kk < ua.len() implies {
            &&& (#[trigger] ua[kk]).connections@.len() > 0
            &&& ua[kk].connections@.no_duplicates()
            &&& ua[kk].rate_limiter.config() == after.msg_config()
        } by {
            if ua[kk].name@ == name {
                lemma_user_at(ua, name, kk);
            }
        }
    }

    /// Drops the connection `id`. If a user was logged in on it, the
    /// connection leaves that user's session, and a session left without
    /// connections is removed, freeing the name.
    pub fn disconnect(&mut self, id: InternalId)
        requires
            old(self).wf(),
        ensures
            final(self).wf(),
            final(self).same_setup(old(self)),
            final(self).last_id() == old(self).last_id(),
            old(self).keeps_logins(final(self)),
            final(self).session(id) is None,
            forall|x: InternalId| x != id ==> #[trigger] final(self).session(x) == old(self).session(x),
            forall|k: int|
                0 <= k < final(self).users().len() ==> !(#[trigger] final(self).users()[k]).connections@.contains(id),
            old(self).user_of(id) is None ==> final(self).users() == old(self).users(),
            old(self).user_of(id) matches Some(u) ==> forall|n: Seq<char>|
                n != u.name@ ==> #[trigger] final(self).user_session(n) == old(self).user_session(n),
            old(self).user_of(id) matches Some(u) ==> (old(self).user_session(u.name@) matches Some(o)
                && if o.connections@.len() == 1 {
                final(self).user_session(u.name@) is None
            } else {
                final(self).user_session(u.name@) matches Some(f) && f.name == o.name && f.rate_limiter
                    == o.rate_limiter && f.connections@ == o.connections@.remove_value(id)
            }),
    {
        let ghost before = *self;
        let i = match self.find_conn(id) {
            Some(i) => i,
            None => {
                proof {
                    assert forall|k: int|
                        0 <= k < self.users().len() implies !(#[trigger] self.users()[k]).connections@.contains(id) by {
                        if self.users()[k].connections@.contains(id) {
                            let m = choose|m: int|
                                0 <= m < self.users()[k].connections@.len() && self.users()[k].connections@[m] == id;
                            assert(self.user_of(self.users()[k].connections@[m]) is Some);
                        }
                    }
                }
                return;
            },
        };
        let conn = self.connections.remove(i);
        proof {
            lemma_conn_index(before.conns(), id);
            Self::lemma_sessions_after_drop(before, *self, i as int);
        }
        match conn.state.user {
            None => {
                proof {
                    Self::lemma_wf_drop_anonymous(before, *self, i as int);
                }
            },
            Some(u) => {
                let ghost name = u.name@;
                proof {
                    Self::lemma_logged_in_conn(before, i as int);
                }
                let k = match self.find_user(&u.name) {
                    Some(k) => k,
                    None => {
                        return;
                    },
                };
                let ghost o = before.users()[k as int];
                let mut us = self.users.remove(k);
                let mut j: usize = 0;
                while j < us.connections.len()
                    invariant
                        us == o,
                        o.connections@.contains(id),
                        j <= us.connections@.len(),
                        forall|p: int| 0 <= p < j ==> us.connections@[p] != id,
                    ensures
                        j < us.connections@.len() ==> us.connections@[j as int] == id,
                    decreases us.connections@.len() - j,
                {
                    if us.connections[j] == id {
                        break;
                    }
                    j = j + 1;
                }
                if j == us.connections.len() {
                    return;
                }
                proof {
                    lemma_remove_no_dup(o.connections@, j as int);
                }
                us.connections.remove(j);
                if us.connections.len() > 0 {
                    self.users.insert(k, us);
                }
                proof {
                    assert(sessions_after_leave(before.users(), k as int, j as int, self.users()));
                    Self::lemma_wf_drop_user(before, *self, i as int, k as int, j as int);
                    Self::lemma_leave_frame(before.users(), k as int, j as int, self.users());
                    Self::lemma_sessions_after_drop(before, *self, i as int);
                }
            },
        }
    }
}

impl ChatServer {
    /// Connection `i`, not logged in, is logged in as `user`.
    #[verifier::rlimit(40)]
    proof fn lemma_wf_login(before: ChatServer, after: ChatServer, i: int, user: User)
        requires
            before.wf(),
            0 <= i < before.conns().len(),
            before.conns()[i].state.user is None,
            after.conns() == before.conns().update(
                i,
                Connection {
                    id: before.conns()[i].id,
                    state: SessionState { session_hash: None, user: Some(user) },
                },
            ),
            sessions_after_join(
                before.users(),
                user.name@,
                before.conns()[i].id,
                before.msg_config(),
                after.users(),
            ),
            after.last_id() == before.last_id(),
            after.msg_config() == before.msg_config(),
        ensures
            after.wf(),
            after.session(before.conns()[i].id) == Some(
                SessionState { session_hash: None, user: Some(user) },
            ),
            forall|x: InternalId|
                x != before.conns()[i].id ==> #[trigger] after.session(x) == before.session(x),
            forall|n: Seq<char>| n != user.name@ ==> #[trigger] after.user_session(n) == before.user_session(n),
            user_index(before.users(), user.name@) >= 0 ==> user_index(after.users(), user.name@)
                == user_index(before.users(), user.name@),
            user_index(before.users(), user.name@) < 0 ==> user_index(after.users(), user.name@)
                == before.users().len(),
    {
        let id = before.conns()[i].id;
        let name = user.name@;
        let us = before.users();
        let ua = after.users();
        let cs = after.conns();
        let k = user_index(us, name);
        lemma_user_index(us, name);
        lemma_update_conn(
            before.conns(),
            i,
            Connection { id, state: SessionState { session_hash: None, user: Some(user) } },
        );
        lemma_conn_at(before.conns(), id, i);
        assert(before.user_of(id) is None);
        assert forall|x: InternalId| x != id implies #[trigger] after.session(x) == before.session(x) by {
            lemma_conn_index(before.conns(), x);
        }
        // no session lists the connection yet
        assert forall|kk: int| 0 <= kk < us.len() implies !(#[trigger] us[kk]).connections@.contains(id) by {
            if us[kk].connections@.contains(id) {
                let m = choose|m: int| 0 <= m < us[kk].connections@.len() && us[kk].connections@[m] == id;
                assert(before.user_of(us[kk].connections@[m]) is Some);
            }
        }
        if k >= 0 {
            assert(ua == us.update(k, ua[k]));
            lemma_update_user(us, k, ua[k]);
        } else {
            assert(ua == us.push(ua[us.len() as int]));
            lemma_push_user(us, ua[us.len() as int]);
        }
        let kn = user_index(ua, name);
        assert forall|n: Seq<char>| n != name implies #[trigger] after.user_session(n) == before.user_session(n) by {
            lemma_user_index(us, n);
        }
        assert forall|kk: int| 0 <= kk < ua.len() implies {
            &&& (#[trigger] ua[kk]).connections@.len() > 0
            &&& ua[kk].connections@.no_duplicates()
            &&& ua[kk].rate_limiter.config() == after.msg_config()
        } by {
            if kk == kn {
                if k >= 0 {
                    assert(us[k].connections@.no_duplicates());
                    assert(!us[k].connections@.contains(id));
                    assert forall|a: int, b: int|
                        0 <= a < b < ua[kk].connections@.len() implies ua[kk].connections@[a] != ua[kk].connections@[b] by {
                        if b == us[k].connections@.len() {
                            assert(ua[kk].connections@[a] == us[k].connections@[a]);
                        }
                    }
                }
            } else {
                assert(ua[kk] == us[kk]);
            }
        }
        assert forall|kk: int, m: int| 0 <= kk < ua.len() && 0 <= m < ua[kk].connections@.len() implies {
            &&& after.user_of(#[trigger] ua[kk].connections@[m]) is Some
            &&& after.user_of(ua[kk].connections@[m])->0.name@ == ua[kk].name@
        } by {
            let x = ua[kk].connections@[m];
            if kk == kn {
                if x != id {
                    assert(x == us[k].connections@[m]);
                    assert(before.user_of(us[k].connections@[m]) is Some);
                }
            } else {
                assert(ua[kk] == us[kk]);
                assert(before.user_of(us[kk].connections@[m]) is Some);
                if x == id {
                    assert(us[kk].connections@.contains(id));
                }
            }
        }
        assert forall|jj: int| 0 <= jj < cs.len() && (#[trigger] cs[jj]).state.user is Some implies {
            &&& user_index(ua, cs[jj].state.user->0.name@) >= 0
            &&& ua[user_index(ua, cs[jj].state.user->0.name@)].connections@.contains(cs[jj].id)
        } by {
            if jj == i {
                assert(cs[jj].state.user->0 == user);
                let last = ua[kn].connections@.len() - 1;
                assert(ua[kn].connections@[last] == id);
            } else {
                assert(cs[jj] == before.conns()[jj]);
                let v = cs[jj].state.user->0;
                assert(before.conns()[jj].state.user is Some);
                let kb = user_index(us, v.name@);
                assert(kb >= 0 && us[kb].connections@.contains(cs[jj].id));
                let m = choose|m: int| 0 <= m < us[kb].connections@.len() && us[kb].connections@[m] == cs[jj].id;
                if v.name@ == name {
                    assert(ua[kn].connections@[m] == cs[jj].id);
                } else {
                    assert(after.user_session(v.name@) == before.user_session(v.name@));
                    lemma_user_index(ua, v.name@);
                }
            }
        }
    }

    /// Logs the connection at index `i`, which is not logged in, in as
    /// `user`, and tells it so.
    fn complete_login(&mut self, i: usize, user: User) -> (r: Vec<Action>)
        requires
            old(self).wf(),
            i < old(self).conns().len(),
            old(self).conns()[i as int].state.user is None,
        ensures
            final(self).wf(),
            final(self).same_setup(old(self)),
            final(self).last_id() == old(self).last_id(),
            final(self).moderation() == old(self).moderation(),
            final(self).session(old(self).conns()[i as int].id) == Some(
                SessionState { session_hash: None, user: Some(user) },
            ),
            forall|x: InternalId|
                x != old(self).conns()[i as int].id ==> #[trigger] final(self).session(x) == old(self).session(x),
            forall|n: Seq<char>|
                n != user.name@ ==> #[trigger] final(self).user_session(n) == old(self).user_session(n),
            old(self).user_session(user.name@) matches Some(o) ==> (final(self).user_session(
                user.name@,
            ) matches Some(f) && f.name == o.name && f.rate_limiter == o.rate_limiter
                && f.connections@ == o.connections@.push(old(self).conns()[i as int].id)),
            old(self).user_session(user.name@) is None ==> (final(self).user_session(user.name@) matches Some(f)
                && f.name@ == user.name@ && f.rate_limiter@ == Seq::<u64>::empty()
                && f.rate_limiter.config() == old(self).msg_config() && f.connections@ == seq![
                old(self).conns()[i as int].id,
            ]),
            r@ == seq![Action::Send { to: old(self).conns()[i as int].id, packet: ClientPacket::Success { reason: SuccessReason::Login } }],
    {
        let ghost before = *self;
        let id = self.connections[i].id;
        let name = user.name.clone();
        self.connections.set(
            i,
            Connection { id, state: SessionState { session_hash: None, user: Some(user) } },
        );
        match self.find_user(&name) {
            Some(k) => {
                let mut us = self.users.remove(k);
                us.connections.push(id);
                self.users.insert(k, us);
                proof {
                    assert(sessions_after_join(before.users(), name@, id, before.msg_config(), self.users()));
                }
            },
            None => {
                let mut connections = Vec::new();
                connections.push(id);
                self.users.push(
                    UserSession { name, rate_limiter: RateLimiter::new(self.config), connections },
                );
                proof {
                    assert(connections@ =~= seq![id]);
                    assert(sessions_after_join(before.users(), user.name@, id, before.msg_config(), self.users()));
                }
            },
        }
        proof {
            Self::lemma_wf_login(before, *self, i as int, user);
        }
        let mut r = Vec::new();
        r.push(Action::Send { to: id, packet: ClientPacket::Success { reason: SuccessReason::Login } });
        proof {
            assert(r@ =~= seq![Action::Send { to: id, packet: ClientPacket::Success { reason: SuccessReason::Login } }]);
        }
        r
    }
}

impl ChatServer {
    /// Only the session hash of connection `id` changed.
    pub open spec fn hash_set(&self, later: &ChatServer, id: InternalId, hash: Seq<char>) -> bool {
        &&& later.users() == self.users()
        &&& later.moderation() == self.moderation()
        &&& (later.session(id) matches Some(st) && st.user == self.user_of(id) && (st.session_hash matches Some(h)
            && h@ == hash))
        &&& forall|x: InternalId| x != id ==> #[trigger] later.session(x) == self.session(x)
    }

    /// The tables are as they were.
    pub open spec fn same_tables(&self, later: &ChatServer) -> bool {
        &&& later.conns() == self.conns()
        &&& later.users() == self.users()
        &&& later.moderation() == self.moderation()
    }

    /// Puts `hash` in place of the session hash of the connection at `i`,
    /// and returns the hash it held.
    fn replace_hash(&mut self, i: usize, hash: Option<String>) -> (prev: Option<String>)
        requires
            old(self).wf(),
            i < old(self).conns().len(),
        ensures
            final(self).wf(),
            final(self).same_setup(old(self)),
            final(self).last_id() == old(self).last_id(),
            final(self).moderation() == old(self).moderation(),
            final(self).users() == old(self).users(),
            old(self).keeps_logins(final(self)),
            final(self).session(old(self).conns()[i as int].id) == Some(
                SessionState { session_hash: hash, user: old(self).conns()[i as int].state.user },
            ),
            forall|x: InternalId|
                x != old(self).conns()[i as int].id ==> #[trigger] final(self).session(x) == old(
                    self,
                ).session(x),
            prev == old(self).conns()[i as int].state.session_hash,
    {
        let ghost before = *self;
        let ghost id = self.conns()[i as int].id;
        let c = self.connections.remove(i);
        let Connection { id: cid, state: SessionState { session_hash: prev, user } } = c;
        self.connections.insert(i, Connection { id: cid, state: SessionState { session_hash: hash, user } });
        proof {
            lemma_conn_at(before.conns(), id, i as int);
            let nc = self.conns()[i as int];
            assert(self.conns() =~= before.conns().update(i as int, nc));
            lemma_update_conn(before.conns(), i as int, nc);
            assert forall|x: InternalId| x != id implies #[trigger] self.session(x) == before.session(x) by {
                lemma_conn_index(before.conns(), x);
            }
            let cs = self.conns();
            assert forall|k: int, m: int|
                0 <= k < self.users().len() && 0 <= m < self.users()[k].connections@.len() implies {
                &&& self.user_of(#[trigger] self.users()[k].connections@[m]) is Some
                &&& self.user_of(self.users()[k].connections@[m])->0.name@ == self.users()[k].name@
            } by {
                let x = self.users()[k].connections@[m];
                assert(before.user_of(x) is Some);
            }
            assert forall|j: int| 0 <= j < cs.len() && (#[trigger] cs[j]).state.user is Some implies {
                &&& user_index(self.users(), cs[j].state.user->0.name@) >= 0
                &&& self.users()[user_index(self.users(), cs[j].state.user->0.name@)].connections@.contains(cs[j].id)
            } by {
                assert(before.conns()[j].state.user == cs[j].state.user);
                assert(before.conns()[j].id == cs[j].id);
            }
        }
        prev
    }

    /// Stores the session hash made from `bytes` for connection `id` and
    /// sends it: the first byte loses its top bit, and the bytes are
    /// rendered as hex without leading zeros.
    pub fn store_session_hash(&mut self, id: InternalId, bytes: [u8; 20]) -> (r: Vec<Action>)
        requires
            old(self).wf(),
        ensures
            final(self).wf(),
            final(self).same_setup(old(self)),
            final(self).last_id() == old(self).last_id(),
            old(self).keeps_logins(final(self)),
            old(self).session(id) is None ==> r@.len() == 0 && old(self).same_tables(final(self)),
            old(self).session(id) is Some ==> {
                &&& old(self).hash_set(final(self), id, sha1_hex(masked_nonce(bytes@)))
                &&& r@.len() == 1
                &&& r@[0] matches Action::Send { to, packet: ClientPacket::MojangInfo { session_hash } }
                    && to == id && session_hash@ == sha1_hex(masked_nonce(bytes@))
            },
    {
        let ghost before = *self;
        let i = match self.find_conn(id) {
            Some(i) => i,
            None => return Vec::new(),
        };
        let ghost drawn = bytes@;
        let mut bytes = bytes;
        let first = bytes[0];
        bytes[0] = first & 127;
        assert(first & 127 == first % 128) by (bit_vector);
        assert(bytes@ =~= masked_nonce(drawn)) by {
            assert(bytes@ =~= drawn.update(0, first % 128));
        }
        let session_hash = encode_sha1_bytes(&bytes);
        proof {
            lemma_conn_index(before.conns(), id);
        }
        self.replace_hash(i, Some(session_hash.clone()));
        reply(id, ClientPacket::MojangInfo { session_hash })
    }

    /// Draws a fresh nonce for connection `id`, stores its hex form as the
    /// pending Mojang session hash and sends it.
    pub fn handle_request_mojang_info(&mut self, id: InternalId) -> (r: Vec<Action>)
        requires
            old(self).wf(),
        ensures
            Self::mojang_info_post(*old(self), *final(self), id, r@),

    {
        let bytes = draw_bytes(&mut self.rng);
        let r = self.store_session_hash(id, bytes);
        proof {
            assert(bytes@.len() == 20);
        }
        r
    }

    /// A Mojang login of `user` on connection `id`: refused if the
    /// connection is logged in already or asked for no session hash;
    /// otherwise the hub takes the stored session hash, so that no second
    /// login can use it, and asks Mojang, at the URL it names, whether
    /// `user` joined with it.
    pub fn login_mojang(&mut self, id: InternalId, user: User) -> (r: Vec<Action>)
        requires
            old(self).wf(),
        ensures
            Self::login_mojang_post(*old(self), *final(self), id, user, r@),

    {
        let i = match self.find_conn(id) {
            Some(i) => i,
            None => return Vec::new(),
        };
        proof {
            lemma_conn_index(self.conns(), id);
        }
        if self.connections[i].state.is_logged_in() {
            return error_reply(id, ClientError::AlreadyLoggedIn);
        }
        let url = match &self.connections[i].state.session_hash {
            None => return error_reply(id, ClientError::MojangRequestMissing),
            Some(hash) => match has_joined_url(user.name.as_str(), hash.as_str()) {
                None => return error_reply(id, ClientError::Internal),
                Some(url) => url,
            },
        };
        self.replace_hash(i, None);
        let mut r = Vec::new();
        r.push(Action::CheckMojang { id, user, url });
        r
    }

    /// Mojang's answer to a login of `user` on connection `id`: `reply` is
    /// the id Mojang returned, or `None` when Mojang did not confirm. A connection
    /// gone meanwhile is ignored; one logged in meanwhile is refused; the
    /// login completes when the returned id is `user`'s UUID.
    pub fn finish_mojang_login(&mut self, id: InternalId, user: User, reply: Option<String>) -> (r: Vec<
        Action,
    >)
        requires
            old(self).wf(),
        ensures
            final(self).wf(),
            final(self).same_setup(old(self)),
            final(self).last_id() == old(self).last_id(),
            final(self).moderation() == old(self).moderation(),
            old(self).keeps_logins(final(self)),
            old(self).session(id) is None ==> r@.len() == 0 && old(self).same_tables(final(self)),
            old(self).session(id) is Some && old(self).user_of(id) is Some ==> r@ == error_to(
                id,
                ClientError::AlreadyLoggedIn,
            ) && old(self).same_tables(final(self)),
            old(self).session(id) is Some && old(self).user_of(id) is None ==> match reply {
                None => r@ == error_to(id, ClientError::LoginFailed) && old(self).same_tables(
                    final(self),
                ),
                Some(s) => if parsed_uuid(s@) == Some(user.uuid) {
                    old(self).logged_in(final(self), id, user) && r@ == reply_to(
                        id,
                        ClientPacket::Success { reason: SuccessReason::Login },
                    )
                } else {
                    r@ == error_to(id, ClientError::InvalidId) && old(self).same_tables(final(self))
                },
            },
    {
        let i = match self.find_conn(id) {
            Some(i) => i,
            None => return Vec::new(),
        };
        proof {
            lemma_conn_index(self.conns(), id);
        }
        if self.connections[i].state.is_logged_in() {
            return error_reply(id, ClientError::AlreadyLoggedIn);
        }
        match reply {
            None => error_reply(id, ClientError::LoginFailed),
            Some(s) => {
                let parsed = parse_uuid(s.as_str());
                if parsed == Some(user.uuid) {
                    self.complete_login(i, user)
                } else {
                    error_reply(id, ClientError::InvalidId)
                }
            },
        }
    }

    /// Connection `id` was logged in as `user`; nothing else changed but
    /// the session of `user`'s name.
    pub open spec fn logged_in(&self, later: &ChatServer, id: InternalId, user: User) -> bool {
        &&& later.session(id) == Some(SessionState { session_hash: None, user: Some(user) })
        &&& forall|x: InternalId| x != id ==> #[trigger] later.session(x) == self.session(x)
        &&& forall|n: Seq<char>| n != user.name@ ==> #[trigger] later.user_session(n) == self.user_session(n)
        &&& self.user_session(user.name@) matches Some(o) ==> (later.user_session(user.name@) matches Some(f)
            && f.name == o.name && f.rate_limiter == o.rate_limiter && f.connections@
            == o.connections@.push(id))
        &&& self.user_session(user.name@) is None ==> (later.user_session(user.name@) matches Some(f)
            && f.name@ == user.name@ && f.rate_limiter@ == Seq::<u64>::empty()
            && f.rate_limiter.config() == self.msg_config() && f.connections@ == seq![id])
        &&& later.moderation() == self.moderation()
    }

    /// A request for a token: refused when no token authority is configured
    /// or the connection is not logged in; otherwise the hub asks for a
    /// token for the connection's user.
    pub fn handle_request_jwt(&self, id: InternalId) -> (r: Vec<Action>)
        requires
            self.wf(),
        ensures
            Self::request_jwt_post(*self, id, r@),

    {
        let i = match self.find_conn(id) {
            Some(i) => i,
            None => return Vec::new(),
        };
        proof {
            lemma_conn_index(self.conns(), id);
        }
        if !self.tokens {
            return error_reply(id, ClientError::NotSupported);
        }
        match &self.connections[i].state.user {
            None => error_reply(id, ClientError::NotLoggedIn),
            Some(u) => {
                let mut r = Vec::new();
                r.push(Action::IssueToken { id, info: UserInfo { name: u.name.clone(), uuid: u.uuid } });
                r
            },
        }
    }

    /// The token minted for connection `id`, or `None` if minting failed.
    pub fn token_issued(&self, id: InternalId, token: Option<String>) -> (r: Vec<Action>)
        ensures
            self.session(id) is None ==> r@.len() == 0,
            self.session(id) is Some ==> match token {
                Some(t) => r@ == reply_to(id, ClientPacket::NewJWT { token: t }),
                None => r@ == error_to(id, ClientError::Internal),
            },
    {
        match self.find_conn(id) {
            None => Vec::new(),
            Some(_) => match token {
                Some(t) => reply(id, ClientPacket::NewJWT { token: t }),
                None => error_reply(id, ClientError::Internal),
            },
        }
    }

    /// A token login on connection `id`: refused when no token authority is
    /// configured; otherwise the hub asks for the token to be checked.
    pub fn handle_login_jwt(&self, id: InternalId, token: String, allow_messages: bool) -> (r: Vec<Action>)
        requires
            self.wf(),
        ensures
            Self::login_jwt_post(*self, id, token, allow_messages, r@),

    {
        let i = match self.find_conn(id) {
            Some(i) => i,
            None => return Vec::new(),
        };
        proof {
            lemma_conn_index(self.conns(), id);
        }
        if !self.tokens {
            return error_reply(id, ClientError::NotSupported);
        }
        let mut r = Vec::new();
        r.push(Action::CheckToken { id, token, allow_messages });
        proof {
            assert(r@ =~= seq![Action::CheckToken { id, token, allow_messages }]);
        }
        r
    }

    /// The outcome of a token check for connection `id`: the user the
    /// token names, or `None` if it did not validate. A token that did not
    /// validate is answered `LoginFailed`; a valid one logs the connection
    /// in, unless it is gone or logged in already.
    pub fn finish_jwt_login(&mut self, id: InternalId, info: Option<UserInfo>, allow_messages: bool) -> (r:
        Vec<Action>)
        requires
            old(self).wf(),
        ensures
            final(self).wf(),
            final(self).same_setup(old(self)),
            final(self).last_id() == old(self).last_id(),
            final(self).moderation() == old(self).moderation(),
            old(self).keeps_logins(final(self)),
            old(self).session(id) is None ==> r@.len() == 0 && old(self).same_tables(final(self)),
            old(self).session(id) is Some ==> match info {
                None => r@ == error_to(id, ClientError::LoginFailed) && old(self).same_tables(
                    final(self),
                ),
                Some(i) => if old(self).user_of(id) is Some {
                    r@ == error_to(id, ClientError::AlreadyLoggedIn) && old(self).same_tables(
                        final(self),
                    )
                } else {
                    old(self).logged_in(
                        final(self),
                        id,
                        User { name: i.name, uuid: i.uuid, allow_messages },
                    ) && r@ == reply_to(id, ClientPacket::Success { reason: SuccessReason::Login })
                },
            },
    {
        let i = match self.find_conn(id) {
            Some(i) => i,
            None => return Vec::new(),
        };
        proof {
            lemma_conn_index(self.conns(), id);
        }
        match info {
            None => error_reply(id, ClientError::LoginFailed),
            Some(info) => if self.connections[i].state.is_logged_in() {
                error_reply(id, ClientError::AlreadyLoggedIn)
            } else {
                self.complete_login(i, User { name: info.name, uuid: info.uuid, allow_messages })
            },
        }
    }
}

impl ChatServer {
    /// Whether the limiter of user `name` limits a message at `now`.
    pub open spec fn limited_at(&self, name: Seq<char>, now: u64) -> bool {
        let o = self.user_session(name)->0.rate_limiter;
        limiter_step(o.config().max_messages as nat, o.window(), o@, now).1
    }

    /// The limiter of user `name` took the step for a message at `now`;
    /// nothing else changed.
    pub open spec fn charged(&self, later: &ChatServer, name: Seq<char>, now: u64) -> bool {
        &&& later.conns() == self.conns()
        &&& later.moderation() == self.moderation()
        &&& forall|n: Seq<char>| n != name ==> #[trigger] later.user_session(n) == self.user_session(n)
        &&& self.user_session(name) matches Some(o)
        &&& later.user_session(name) matches Some(f)
        &&& f.name == o.name
        &&& f.connections == o.connections
        &&& f.rate_limiter.config() == o.rate_limiter.config()
        &&& f.rate_limiter@ == limiter_step(
            o.rate_limiter.config().max_messages as nat,
            o.rate_limiter.window(),
            o.rate_limiter@,
            now,
        ).0
    }

    /// A message from connection `id` gets as far as the rate limiter:
    /// it comes from a logged-in user who is not banned, and is valid.
    pub open spec fn reaches_limiter(&self, id: InternalId, content: Seq<char>) -> bool {
        &&& self.user_of(id) is Some
        &&& validation(self.max_length(), content) is Ok
        &&& !self.moderation().banned_set().contains(self.user_of(id)->0.uuid)
    }

    /// The error that the checks common to all messages give, in order:
    /// login, content, ban, rate limit.
    pub open spec fn message_refusal(&self, id: InternalId, content: Seq<char>, now: u64) -> Option<
        ClientError,
    > {
        match self.user_of(id) {
            None => Some(ClientError::NotLoggedIn),
            Some(u) => match validation(self.max_length(), content) {
                Err(e) => Some(e),
                Ok(_) => if self.moderation().banned_set().contains(u.uuid) {
                    Some(ClientError::Banned)
                } else if self.limited_at(u.name@, now) {
                    Some(ClientError::RateLimited)
                } else {
                    None
                },
            },
        }
    }

    /// The connections among `ids` whose user accepts private messages.
    pub open spec fn accepting(&self, ids: Seq<InternalId>) -> Seq<InternalId>
        decreases ids.len(),
    {
        if ids.len() == 0 {
            Seq::empty()
        } else {
            let rest = self.accepting(ids.drop_last());
            if self.user_of(ids.last()) matches Some(u) && u.allow_messages {
                rest.push(ids.last())
            } else {
                rest
            }
        }
    }

    /// The limiter of the user session at `k` took a step.
    proof fn lemma_wf_charge(before: ChatServer, after: ChatServer, k: int)
        requires
            before.wf(),
            0 <= k < before.users().len(),
            after.conns() == before.conns(),
            after.last_id() == before.last_id(),
            after.msg_config() == before.msg_config(),
            after.users().len() == before.users().len(),
            forall|kk: int| 0 <= kk < before.users().len() && kk != k ==> after.users()[kk] == before.users()[kk],
            after.users()[k].name == before.users()[k].name,
            after.users()[k].connections == before.users()[k].connections,
            after.users()[k].rate_limiter.config() == before.users()[k].rate_limiter.config(),
        ensures
            after.wf(),
            user_index(after.users(), before.users()[k].name@) == k,
            forall|n: Seq<char>|
                n != before.users()[k].name@ ==> #[trigger] after.user_session(n) == before.user_session(n),
    {
        let us = before.users();
        let ua = after.users();
        assert(ua == us.update(k, ua[k]));
        lemma_update_user(us, k, ua[k]);
        lemma_user_at(us, us[k].name@, k);
        assert forall|n: Seq<char>| n != us[k].name@ implies #[trigger] after.user_session(n) == before.user_session(n) by {
            lemma_user_index(us, n);
        }
        assert forall|kk: int, m: int| 0 <= kk < ua.len() && 0 <= m < ua[kk].connections@.len() implies {
            &&& after.user_of(#[trigger] ua[kk].connections@[m]) is Some
            &&& after.user_of(ua[kk].connections@[m])->0.name@ == ua[kk].name@
        } by {
            assert(before.user_of(us[kk].connections@[m]) is Some);
        }
        assert forall|kk: int| 0 <= kk < ua.len() implies {
            &&& (#[trigger] ua[kk]).connections@.len() > 0
            &&& ua[kk].connections@.no_duplicates()
            &&& ua[kk].rate_limiter.config() == after.msg_config()
        } by {
            assert(us[kk].connections@.len() > 0);
        }
        let cs = after.conns();
        assert forall|j: int| 0 <= j < cs.len() && (#[trigger] cs[j]).state.user is Some implies {
            &&& user_index(ua, cs[j].state.user->0.name@) >= 0
            &&& ua[user_index(ua, cs[j].state.user->0.name@)].connections@.contains(cs[j].id)
        } by {
            assert(before.conns()[j].state.user is Some);
            lemma_user_index(us, cs[j].state.user->0.name@);
        }
    }

    /// The checks common to all messages from connection `id`; a message
    /// that passes the others charges the sender's rate limiter. Returns
    /// the index of the sender's connection, or the answer to send.
    fn check_message(&mut self, id: InternalId, content: &str, now: u64) -> (r: Result<usize, Vec<Action>>)
        requires
            old(self).wf(),
        ensures
            final(self).wf(),
            final(self).same_setup(old(self)),
            final(self).last_id() == old(self).last_id(),
            old(self).keeps_logins(final(self)),
            old(self).reaches_limiter(id, content@) ==> old(self).charged(
                final(self),
                old(self).user_of(id)->0.name@,
                now,
            ),
            !old(self).reaches_limiter(id, content@) ==> old(self).same_tables(final(self)),
            old(self).session(id) is None ==> (r matches Err(a) && a@.len() == 0),
            old(self).session(id) is Some ==> match old(self).message_refusal(id, content@, now) {
                Some(e) => (r matches Err(a) && a@ == error_to(id, e)),
                None => (r matches Ok(i) && i < final(self).conns().len() && final(self).conns()[i as int].id == id),
            },
    {
        let i = match self.find_conn(id) {
            Some(i) => i,
            None => return Err(Vec::new()),
        };
        let ghost before = *self;
        proof {
            lemma_conn_index(self.conns(), id);
        }
        let (uuid, k) = match &self.connections[i].state.user {
            None => return Err(error_reply(id, ClientError::NotLoggedIn)),
            Some(u) => {
                proof {
                    Self::lemma_logged_in_conn(before, i as int);
                }
                match self.validator.validate(content) {
                    Err(e) => return Err(error_reply(id, e)),
                    Ok(()) => {},
                }
                let k = match self.find_user(&u.name) {
                    Some(k) => k,
                    None => return Err(Vec::new()),
                };
                (u.uuid, k)
            },
        };
        if self.moderation.is_banned(uuid) {
            return Err(error_reply(id, ClientError::Banned));
        }
        let mut us = self.users.remove(k);
        let limited = us.rate_limiter.check_new_message(now);
        self.users.insert(k, us);
        proof {
            Self::lemma_wf_charge(before, *self, k as int);
            assert forall|x: InternalId| #[trigger] self.session(x) == before.session(x) by {}
        }
        if limited {
            Err(error_reply(id, ClientError::RateLimited))
        } else {
            Ok(i)
        }
    }

    fn broadcast(&self, author: &User, content: &String) -> (r: Vec<Action>)
        ensures
            r@ == deliveries(logged_in_ids(self.conns()), message_packet(*author, *content)),
    {
        let mut r: Vec<Action> = Vec::new();
        let mut j: usize = 0;
        while j < self.connections.len()
            invariant
                j <= self.conns().len(),
                r@ == deliveries(logged_in_ids(self.conns().take(j as int)), message_packet(*author, *content)),
            decreases self.conns().len() - j,
        {
            let ghost prefix = self.conns().take(j + 1);
            assert(prefix.drop_last() =~= self.conns().take(j as int));
            let ghost ids = logged_in_ids(self.conns().take(j as int));
            if self.connections[j].state.is_logged_in() {
                let packet = ClientPacket::Message {
                    author_info: UserInfo { name: author.name.clone(), uuid: author.uuid },
                    content: content.clone(),
                };
                r.push(Action::Send { to: self.connections[j].id, packet });
                assert(r@ =~= deliveries(ids.push(self.conns()[j as int].id), message_packet(*author, *content)));
            }
            j = j + 1;
        }
        assert(self.conns().take(self.conns().len() as int) =~= self.conns());
        r
    }

    /// A message for everyone from connection `id`, at `now` on the
    /// rate limiter's clock. It must come from a logged-in user, be valid,
    /// from a user who is not banned, and within the rate limit; then every
    /// logged-in connection receives it, the sender's included.
    pub fn handle_message(&mut self, id: InternalId, content: String, now: u64) -> (r: Vec<Action>)
        requires
            old(self).wf(),
        ensures
            Self::message_post(*old(self), *final(self), id, content, now, r@),

    {
        match self.check_message(id, content.as_str(), now) {
            Err(a) => a,
            Ok(i) => {
                proof {
                    lemma_conn_at(self.conns(), id, i as int);
                }
                match &self.connections[i].state.user {
                    Some(u) => self.broadcast(u, &content),
                    None => Vec::new(),
                }
            },
        }
    }

    fn private_deliveries(&self, ids: &Vec<InternalId>, author: &User, content: &String) -> (r: Vec<Action>)
        ensures
            r@ == deliveries(self.accepting(ids@), private_packet(*author, *content)),
    {
        let mut r: Vec<Action> = Vec::new();
        let mut j: usize = 0;
        while j < ids.len()
            invariant
                j <= ids@.len(),
                r@ == deliveries(self.accepting(ids@.take(j as int)), private_packet(*author, *content)),
            decreases ids@.len() - j,
        {
            let ghost prefix = ids@.take(j + 1);
            assert(prefix.drop_last() =~= ids@.take(j as int));
            let ghost acc = self.accepting(ids@.take(j as int));
            let x = ids[j];
            match self.find_conn(x) {
                Some(c) => {
                    proof {
                        lemma_conn_index(self.conns(), x);
                    }
                    match &self.connections[c].state.user {
                        Some(v) => {
                            if v.allow_messages {
                                let packet = ClientPacket::PrivateMessage {
                                    author_info: UserInfo { name: author.name.clone(), uuid: author.uuid },
                                    content: content.clone(),
                                };
                                r.push(Action::Send { to: x, packet });
                                assert(r@ =~= deliveries(acc.push(x), private_packet(*author, *content)));
                            }
                        },
                        None => {},
                    }
                },
                None => {},
            }
            j = j + 1;
        }
        assert(ids@.take(ids@.len() as int) =~= ids@);
        r
    }

    /// A private message from connection `id` to the user named `receiver`,
    /// at `now` on the rate limiter's clock. The checks of `handle_message`
    /// come first. A receiver who is not logged in is silently skipped;
    /// otherwise each of the receiver's connections that accepts private
    /// messages gets it, and if none does, the sender is told.
    pub fn handle_private_message(&mut self, id: InternalId, receiver: String, content: String, now: u64) -> (r:
        Vec<Action>)
        requires
            old(self).wf(),
        ensures
            Self::private_message_post(*old(self), *final(self), id, receiver, content, now, r@),

    {
        let ghost before = *self;
        match self.check_message(id, content.as_str(), now) {
            Err(a) => a,
            Ok(i) => {
                proof {
                    lemma_conn_at(self.conns(), id, i as int);
                }
                let k = match self.find_user(&receiver) {
                    Some(k) => k,
                    None => return Vec::new(),
                };
                proof {
                    lemma_user_index(self.users(), receiver@);
                }
                match &self.connections[i].state.user {
                    Some(u) => {
                        let r = self.private_deliveries(&self.users[k].connections, u, &content);
                        if r.len() == 0 {
                            error_reply(id, ClientError::PrivateMessageNotAccepted)
                        } else {
                            r
                        }
                    },
                    None => Vec::new(),
                }
            },
        }
    }
}

impl ChatServer {
    /// Only the moderation changed.
    pub open spec fn moderation_changed(&self, later: &ChatServer) -> bool {
        &&& later.conns() == self.conns()
        &&& later.users() == self.users()
    }

    /// Why a moderator action by connection `id` is refused, if it is.
    pub open spec fn moderator_refusal(&self, id: InternalId) -> Option<ClientError> {
        match self.user_of(id) {
            None => Some(ClientError::NotLoggedIn),
            Some(u) => if self.moderation().moderator_set().contains(u.uuid) {
                None
            } else {
                Some(ClientError::NotPermitted)
            },
        }
    }

    fn moderator_check(&self, id: InternalId) -> (r: Result<(), Vec<Action>>)
        requires
            self.wf(),
        ensures
            self.session(id) is None ==> (r matches Err(a) && a@.len() == 0),
            self.session(id) is Some ==> match self.moderator_refusal(id) {
                Some(e) => (r matches Err(a) && a@ == error_to(id, e)),
                None => r is Ok,
            },
    {
        let i = match self.find_conn(id) {
            Some(i) => i,
            None => return Err(Vec::new()),
        };
        proof {
            lemma_conn_index(self.conns(), id);
        }
        match &self.connections[i].state.user {
            None => Err(error_reply(id, ClientError::NotLoggedIn)),
            Some(u) => if self.moderation.is_moderator(u.uuid) {
                Ok(())
            } else {
                Err(error_reply(id, ClientError::NotPermitted))
            },
        }
    }

    /// A moderator on connection `id` bans `target`. Moderators cannot be
    /// banned. A new ban asks for its line to be appended to the ban file;
    /// a repeated one succeeds at once.
    pub fn ban_user(&mut self, id: InternalId, target: u128) -> (r: Vec<Action>)
        requires
            old(self).wf(),
        ensures
            Self::ban_post(*old(self), *final(self), id, target, r@),

    {
        match self.moderator_check(id) {
            Err(a) => a,
            Ok(()) => match self.moderation.ban(target) {
                Err(e) => error_reply(id, e),
                Ok(None) => reply(id, ClientPacket::Success { reason: SuccessReason::Ban }),
                Ok(Some(line)) => {
                    let mut r = Vec::new();
                    r.push(Action::AppendBan { id, line });
                    r
                },
            },
        }
    }

    /// A moderator on connection `id` lifts the ban on `target`, and asks
    /// for the ban file to be written anew.
    pub fn unban_user(&mut self, id: InternalId, target: u128) -> (r: Vec<Action>)
        requires
            old(self).wf(),
        ensures
            Self::unban_post(*old(self), *final(self), id, target, r@),

    {
        match self.moderator_check(id) {
            Err(a) => a,
            Ok(()) => match self.moderation.unban(target) {
                Err(e) => error_reply(id, e),
                Ok(lines) => {
                    let mut r = Vec::new();
                    r.push(Action::RewriteBans { id, lines });
                    r
                },
            },
        }
    }

    /// The outcome of writing the ban file for connection `id`'s request.
    pub fn ban_saved(&self, id: InternalId, reason: SuccessReason, ok: bool) -> (r: Vec<Action>)
        ensures
            self.session(id) is None ==> r@.len() == 0,
            self.session(id) is Some && ok ==> r@ == reply_to(id, ClientPacket::Success { reason }),
            self.session(id) is Some && !ok ==> r@ == error_to(id, ClientError::Internal),
    {
        match self.find_conn(id) {
            None => Vec::new(),
            Some(_) => if ok {
                reply(id, ClientPacket::Success { reason })
            } else {
                error_reply(id, ClientError::Internal)
            },
        }
    }

    /// For a moderator: the number of live connections, and of connections
    /// that a user is logged in on, each as a `u32`.
    pub fn send_user_count(&self, id: InternalId) -> (r: Vec<Action>)
        requires
            self.wf(),
        ensures
            Self::user_count_post(*self, id, r@),

    {
        match self.moderator_check(id) {
            Err(a) => a,
            Ok(()) => {
                let mut total: u128 = 0;
                let mut k: usize = 0;
                while k < self.users.len()
                    invariant
                        k <= self.users().len(),
                        total == sessions_total(self.users().take(k as int)),
                        total <= k * 0x1_0000_0000_0000_0000,
                    decreases self.users().len() - k,
                {
                    let ghost prefix = self.users().take(k + 1);
                    assert(prefix.drop_last() =~= self.users().take(k as int));
                    let n = self.users[k].connections.len();
                    assert(total + n <= (k + 1) * 0x1_0000_0000_0000_0000) by (nonlinear_arith)
                        requires
                            total <= k * 0x1_0000_0000_0000_0000,
                            n < 0x1_0000_0000_0000_0000,
                    ;
                    assert((k + 1) * 0x1_0000_0000_0000_0000 <= 0x1_0000_0000_0000_0000 * 0x1_0000_0000_0000_0000) by (nonlinear_arith)
                        requires
                            k < 0x1_0000_0000_0000_0000,
                    ;
                    total = total + n as u128;
                    k = k + 1;
                }
                assert(self.users().take(self.users().len() as int) =~= self.users());
                reply(
                    id,
                    ClientPacket::UserCount {
                        connections: self.connections.len() as u32,
                        logged_in: total as u32,
                    },
                )
            },
        }
    }
}

/// In every hub state reachable from `ChatServer::new` through its
/// operations: a user session that exists lists at least one connection,
/// and every connection it lists is live and logged in under the
/// session's name.
pub proof fn lemma_user_sessions_consistent(s: ChatServer, name: Seq<char>, id: InternalId)
    requires
        s.wf(),
    ensures
        s.user_session(name) matches Some(us) ==> us.connections@.len() > 0,
        s.user_session(name) matches Some(us) ==> (us.connections@.contains(id) ==> (s.user_of(id) matches Some(
            u,
        ) && u.name@ == name)),
{
    lemma_user_index(s.users(), name);
    let k = user_index(s.users(), name);
    if k >= 0 {
        let us = s.users()[k];
        assert(us.connections@.len() > 0);
        if us.connections@.contains(id) {
            let m = choose|m: int| 0 <= m < us.connections@.len() && us.connections@[m] == id;
            assert(s.user_of(s.users()[k].connections@[m]) is Some);
        }
    }
}

impl ChatServer {
    /// What `handle_request_mojang_info` promises.
    pub open spec fn mojang_info_post(pre: ChatServer, post: ChatServer, id: InternalId, r: Seq<Action>) -> bool {
        &&& (post.wf())
        &&& (post.same_setup(&pre))
        &&& (post.last_id() == pre.last_id())
        &&& (pre.keeps_logins(&post))
        &&& (pre.session(id) is None ==> r.len() == 0 && pre.same_tables(&post))
        &&& (pre.session(id) is Some ==> exists|bytes: Seq<u8>| {
            &&& bytes.len() == 20
            &&& pre.hash_set(&post, id, sha1_hex(masked_nonce(bytes)))
            &&& r.len() == 1
            &&& r[0] matches Action::Send { to, packet: ClientPacket::MojangInfo { session_hash } }
                && to == id && session_hash@ == sha1_hex(masked_nonce(bytes))
        })
    }

    /// What `login_mojang` promises.
    pub open spec fn login_mojang_post(pre: ChatServer, post: ChatServer, id: InternalId, user: User, r: Seq<Action>) -> bool {
        &&& post.wf()
        &&& post.same_setup(&pre)
        &&& post.last_id() == pre.last_id()
        &&& pre.keeps_logins(&post)
        &&& (pre.session(id) is None ==> r.len() == 0 && pre.same_tables(&post))
        &&& (pre.session(id) matches Some(st) ==> {
            if st.user is Some {
                r == error_to(id, ClientError::AlreadyLoggedIn) && pre.same_tables(&post)
            } else if st.session_hash is None {
                r == error_to(id, ClientError::MojangRequestMissing) && pre.same_tables(&post)
            } else {
                match mojang_has_joined_url(user.name@, st.session_hash->0@) {
                    None => r == error_to(id, ClientError::Internal) && pre.same_tables(&post),
                    Some(url) => {
                        &&& r.len() == 1
                        &&& (r[0] matches Action::CheckMojang { id: to, user: u, url: v } && to == id
                            && u == user && v@ == url)
                        &&& post.users() == pre.users()
                        &&& post.moderation() == pre.moderation()
                        &&& post.session(id) == Some(SessionState { session_hash: None, user: None })
                        &&& forall|x: InternalId| x != id ==> #[trigger] post.session(x) == pre.session(x)
                    },
                }
            }
        })
    }

    /// What `handle_request_jwt` promises.
    pub open spec fn request_jwt_post(pre: ChatServer, id: InternalId, r: Seq<Action>) -> bool {
        &&& (pre.session(id) is None ==> r.len() == 0)
        &&& (pre.session(id) is Some && !pre.tokens_enabled() ==> r == error_to(
            id,
            ClientError::NotSupported,
        ))
        &&& (pre.session(id) is Some && pre.tokens_enabled() && pre.user_of(id) is None ==> r
            == error_to(id, ClientError::NotLoggedIn))
        &&& (pre.tokens_enabled() && pre.user_of(id) is Some ==> r.len() == 1 && (r[0] matches Action::IssueToken {
            id: to,
            info,
        } && to == id && info == (UserInfo { name: pre.user_of(id)->0.name, uuid: pre.user_of(id)->0.uuid })))
    }

    /// What `handle_login_jwt` promises.
    pub open spec fn login_jwt_post(pre: ChatServer, id: InternalId, token: String, allow_messages: bool, r: Seq<Action>) -> bool {
        &&& (pre.session(id) is None ==> r.len() == 0)
        &&& (pre.session(id) is Some && !pre.tokens_enabled() ==> r == error_to(
            id,
            ClientError::NotSupported,
        ))
        &&& (pre.session(id) is Some && pre.tokens_enabled() ==> r == seq![
            Action::CheckToken { id, token, allow_messages },
        ])
    }

    /// What `handle_message` promises.
    pub open spec fn message_post(pre: ChatServer, post: ChatServer, id: InternalId, content: String, now: u64, r: Seq<Action>) -> bool {
        &&& (post.wf())
        &&& (post.same_setup(&pre))
        &&& (post.last_id() == pre.last_id())
        &&& (pre.keeps_logins(&post))
        &&& (pre.reaches_limiter(id, content@) ==> pre.charged(&post,
            pre.user_of(id)->0.name@,
            now,
        ))
        &&& (!pre.reaches_limiter(id, content@) ==> pre.same_tables(&post))
        &&& (pre.session(id) is None ==> r.len() == 0)
        &&& (pre.session(id) is Some ==> match pre.message_refusal(id, content@, now) {
            Some(e) => r == error_to(id, e),
            None => r == deliveries(
                logged_in_ids(pre.conns()),
                message_packet(pre.user_of(id)->0, content),
            ),
        })
    }

    /// What `handle_private_message` promises.
    pub open spec fn private_message_post(pre: ChatServer, post: ChatServer, id: InternalId, receiver: String, content: String, now: u64, r: Seq<Action>) -> bool {
        &&& (post.wf())
        &&& (post.same_setup(&pre))
        &&& (post.last_id() == pre.last_id())
        &&& (pre.keeps_logins(&post))
        &&& (pre.reaches_limiter(id, content@) ==> pre.charged(&post,
            pre.user_of(id)->0.name@,
            now,
        ))
        &&& (!pre.reaches_limiter(id, content@) ==> pre.same_tables(&post))
        &&& (pre.session(id) is None ==> r.len() == 0)
        &&& (pre.session(id) is Some ==> match pre.message_refusal(id, content@, now) {
            Some(e) => r == error_to(id, e),
            None => match post.user_session(receiver@) {
                None => r.len() == 0,
                Some(rs) => if post.accepting(rs.connections@).len() == 0 {
                    r == error_to(id, ClientError::PrivateMessageNotAccepted)
                } else {
                    r == deliveries(
                        post.accepting(rs.connections@),
                        private_packet(pre.user_of(id)->0, content),
                    )
                },
            },
        })
    }

    /// What `ban_user` promises.
    pub open spec fn ban_post(pre: ChatServer, post: ChatServer, id: InternalId, target: u128, r: Seq<Action>) -> bool {
        &&& (post.wf())
        &&& (post.same_setup(&pre))
        &&& (post.last_id() == pre.last_id())
        &&& (pre.keeps_logins(&post))
        &&& (pre.moderation_changed(&post))
        &&& (post.moderation().moderator_set() == pre.moderation().moderator_set())
        &&& (pre.session(id) is None ==> r.len() == 0 && post.moderation() == pre.moderation())
        &&& (pre.session(id) is Some ==> match pre.moderator_refusal(id) {
            Some(e) => r == error_to(id, e) && post.moderation() == pre.moderation(),
            None => if pre.moderation().moderator_set().contains(target) {
                r == error_to(id, ClientError::NotPermitted) && post.moderation().banned_set()
                    == pre.moderation().banned_set()
            } else {
                &&& post.moderation().banned_set() == pre.moderation().banned_set().insert(
                    target,
                )
                &&& pre.moderation().banned_set().contains(target) ==> r == reply_to(
                    id,
                    ClientPacket::Success { reason: SuccessReason::Ban },
                )
                &&& !pre.moderation().banned_set().contains(target) ==> (r.len() == 1 && (r[0] matches Action::AppendBan {
                    id: to,
                    line,
                } && to == id && line@ == hyphenated(target)))
            },
        })
    }

    /// What `unban_user` promises.
    pub open spec fn unban_post(pre: ChatServer, post: ChatServer, id: InternalId, target: u128, r: Seq<Action>) -> bool {
        &&& (post.wf())
        &&& (post.same_setup(&pre))
        &&& (post.last_id() == pre.last_id())
        &&& (pre.keeps_logins(&post))
        &&& (pre.moderation_changed(&post))
        &&& (post.moderation().moderator_set() == pre.moderation().moderator_set())
        &&& (pre.session(id) is None ==> r.len() == 0 && post.moderation() == pre.moderation())
        &&& (pre.session(id) is Some ==> match pre.moderator_refusal(id) {
            Some(e) => r == error_to(id, e) && post.moderation() == pre.moderation(),
            None => {
                &&& post.moderation().banned_set() == pre.moderation().banned_set().remove(
                    target,
                )
                &&& !pre.moderation().banned_set().contains(target) ==> r == error_to(
                    id,
                    ClientError::NotBanned,
                )
                &&& pre.moderation().banned_set().contains(target) ==> (r.len() == 1 && (r[0] matches Action::RewriteBans {
                    id: to,
                    lines,
                } && to == id && exists|ids: Seq<u128>|
                    {
                        &&& ids.no_duplicates()
                        &&& ids.to_set() == post.moderation().banned_set()
                        &&& lines@.map_values(|l: String| l@) == ids.map_values(
                            |u: u128| hyphenated(u),
                        )
                    }))
            },
        })
    }

    /// What `send_user_count` promises.
    pub open spec fn user_count_post(pre: ChatServer, id: InternalId, r: Seq<Action>) -> bool {
        &&& (pre.session(id) is None ==> r.len() == 0)
        &&& (pre.session(id) is Some ==> match pre.moderator_refusal(id) {
            Some(e) => r == error_to(id, e),
            None => r == reply_to(
                id,
                ClientPacket::UserCount {
                    connections: pre.conns().len() as u32,
                    logged_in: sessions_total(pre.users()) as u32,
                },
            ),
        })
    }
}

impl ChatServer {
    /// Handles one packet from connection `id`, at `now` on the rate
    /// limiter's clock, by the handler of its kind.
    pub fn handle(&mut self, id: InternalId, packet: ServerPacket, now: u64) -> (r: Vec<Action>)
        requires
            old(self).wf(),
        ensures
            final(self).wf(),
            old(self).keeps_logins(final(self)),
            match packet {
                ServerPacket::RequestMojangInfo => Self::mojang_info_post(*old(self), *final(self), id, r@),
                ServerPacket::LoginMojang(user) => Self::login_mojang_post(
                    *old(self),
                    *final(self),
                    id,
                    user,
                    r@,
                ),
                ServerPacket::LoginJWT { token, allow_messages } => Self::login_jwt_post(
                    *old(self),
                    id,
                    token,
                    allow_messages,
                    r@,
                ) && *final(self) == *old(self),
                ServerPacket::RequestJWT => Self::request_jwt_post(*old(self), id, r@) && *final(self)
                    == *old(self),
                ServerPacket::Message { content } => Self::message_post(
                    *old(self),
                    *final(self),
                    id,
                    content,
                    now,
                    r@,
                ),
                ServerPacket::PrivateMessage { receiver, content } => Self::private_message_post(
                    *old(self),
                    *final(self),
                    id,
                    receiver,
                    content,
                    now,
                    r@,
                ),
                ServerPacket::BanUser { user } => Self::ban_post(*old(self), *final(self), id, user, r@),
                ServerPacket::UnbanUser { user } => Self::unban_post(
                    *old(self),
                    *final(self),
                    id,
                    user,
                    r@,
                ),
                ServerPacket::RequestUserCount => Self::user_count_post(*old(self), id, r@)
                    && *final(self) == *old(self),
            },
    {
        match packet {
            ServerPacket::RequestMojangInfo => self.handle_request_mojang_info(id),
            ServerPacket::LoginMojang(user) => self.login_mojang(id, user),
            ServerPacket::LoginJWT { token, allow_messages } => self.handle_login_jwt(
                id,
                token,
                allow_messages,
            ),
            ServerPacket::RequestJWT => self.handle_request_jwt(id),
            ServerPacket::Message { content } => self.handle_message(id, content, now),
            ServerPacket::PrivateMessage { receiver, content } => self.handle_private_message(
                id,
                receiver,
                content,
                now,
            ),
            ServerPacket::BanUser { user } => self.ban_user(id, user),
            ServerPacket::UnbanUser { user } => self.unban_user(id, user),
            ServerPacket::RequestUserCount => self.send_user_count(id),
        }
    }
}

} // verus!
