//! Moderator and ban sets, keyed by UUID.
//!
//! The sets live in memory; what must be written to the ban file is handed
//! back to the caller as lines of text.

use vstd::prelude::*;

use crate::config::ModConfig;
use crate::error::ClientError;
use crate::ids::{hyphenated, parse_uuid, parsed_uuid, uuid_text};

verus! {

/// A set of UUIDs held in a `hashbrown::HashSet`.
#[verifier::external_body]
pub struct IdSet {
    set: hashbrown::HashSet<u128>,
}

/// The UUIDs that an `IdSet` holds.
pub uninterp spec fn id_set_members(s: IdSet) -> Set<u128>;

impl IdSet {
    /// Relies on `hashbrown::HashSet::new`: the set starts empty.
    #[verifier::external_body]
    pub(crate) fn new() -> (r: IdSet)
        ensures
            id_set_members(r) == Set::<u128>::empty(),
    {
        IdSet { set: hashbrown::HashSet::new() }
    }

    /// Relies on `hashbrown::HashSet::contains`: membership.
    #[verifier::external_body]
    pub(crate) fn contains(&self, id: u128) -> (r: bool)
        ensures
            r == id_set_members(*self).contains(id),
    {
        self.set.contains(&id)
    }

    /// Relies on `hashbrown::HashSet::insert`: adds the value and tells
    /// whether it was absent.
    #[verifier::external_body]
    pub(crate) fn insert(&mut self, id: u128) -> (r: bool)
        ensures
            id_set_members(*final(self)) == id_set_members(*old(self)).insert(id),
            r == !id_set_members(*old(self)).contains(id),
    {
        self.set.insert(id)
    }

    /// Relies on `hashbrown::HashSet::remove`: removes the value and tells
    /// whether it was present.
    #[verifier::external_body]
    pub(crate) fn remove(&mut self, id: u128) -> (r: bool)
        ensures
            id_set_members(*final(self)) == id_set_members(*old(self)).remove(id),
            r == id_set_members(*old(self)).contains(id),
    {
        self.set.remove(&id)
    }

    /// Relies on `hashbrown::HashSet::iter`: each member once, in an order
    /// the set chooses.
    #[verifier::external_body]
    pub(crate) fn to_vec(&self) -> (r: Vec<u128>)
        ensures
            r@.to_set() == id_set_members(*self),
            r@.no_duplicates(),
    {
        self.set.iter().copied().collect()
    }
}

/// The UUIDs on the non-empty lines of a file, or `None` if one of those
/// lines is not a UUID.
pub open spec fn ids_of_lines(lines: Seq<Seq<char>>) -> Option<Set<u128>>
    decreases lines.len(),
{
    if lines.len() == 0 {
        Some(Set::empty())
    } else {
        let line = lines.last();
        match ids_of_lines(lines.drop_last()) {
            None => None,
            Some(ids) => if line.len() == 0 {
                Some(ids)
            } else {
                match parsed_uuid(line) {
                    Some(id) => Some(ids.insert(id)),
                    None => None,
                }
            },
        }
    }
}

/// Reads the UUIDs on the non-empty lines; on a line that is not a UUID,
/// returns that line.
pub(crate) fn read_ids(lines: &Vec<String>) -> (r: Result<IdSet, String>)
    ensures
        r matches Ok(s) ==> ids_of_lines(lines@.map_values(|l: String| l@)) == Some(
            id_set_members(s),
        ),
        r is Err <==> ids_of_lines(lines@.map_values(|l: String| l@)) is None,
{
    let ghost views = lines@.map_values(|l: String| l@);
    let mut set = IdSet::new();
    let mut i: usize = 0;
    while i < lines.len()
        invariant
            i <= lines@.len(),
            views == lines@.map_values(|l: String| l@),
            ids_of_lines(views.take(i as int)) == Some(id_set_members(set)),
        decreases lines@.len() - i,
    {
        let line = &lines[i];
        assert(views.take(i + 1).drop_last() =~= views.take(i as int));
        assert(views.take(i + 1).last() == line@);
        if !line.as_str().is_empty() {
            match parse_uuid(line.as_str()) {
                Some(id) => {
                    set.insert(id);
                },
                None => {
                    proof {
                        lemma_bad_prefix_fails(views, i as int + 1);
                    }
                    return Err(line.clone());
                },
            }
        } else {
            assert(line@.len() == 0);
        }
        i = i + 1;
    }
    assert(views.take(lines@.len() as int) =~= views);
    Ok(set)
}

proof fn lemma_bad_prefix_fails(lines: Seq<Seq<char>>, k: int)
    requires
        0 <= k <= lines.len(),
        ids_of_lines(lines.take(k)) is None,
    ensures
        ids_of_lines(lines) is None,
    decreases lines.len() - k,
{
    if k < lines.len() {
        assert(lines.take(k + 1).drop_last() =~= lines.take(k));
        lemma_bad_prefix_fails(lines, k + 1);
    } else {
        assert(lines.take(k) =~= lines);
    }
}

/// Moderator and ban sets.
pub struct Moderation {
    config: ModConfig,
    moderators: IdSet,
    banned: IdSet,
}

impl Moderation {
    /// The moderators.
    pub closed spec fn moderator_set(&self) -> Set<u128> {
        id_set_members(self.moderators)
    }

    /// The banned users.
    pub closed spec fn banned_set(&self) -> Set<u128> {
        id_set_members(self.banned)
    }

    pub closed spec fn config(&self) -> ModConfig {
        self.config
    }

    /// Builds the sets from the lines of the moderator file and of the ban
    /// file; a line that is not a UUID is handed back as the error.
    pub fn new(config: ModConfig, moderator_lines: &Vec<String>, banned_lines: &Vec<String>) -> (r:
        Result<Moderation, String>)
        ensures
            r matches Ok(m) ==> {
                &&& m.config() == config
                &&& ids_of_lines(moderator_lines@.map_values(|l: String| l@)) == Some(
                    m.moderator_set(),
                )
                &&& ids_of_lines(banned_lines@.map_values(|l: String| l@)) == Some(m.banned_set())
            },
            r is Err <==> (ids_of_lines(moderator_lines@.map_values(|l: String| l@)) is None
                || ids_of_lines(banned_lines@.map_values(|l: String| l@)) is None),
    {
        let moderators = match read_ids(moderator_lines) {
            Ok(s) => s,
            Err(line) => return Err(line),
        };
        let banned = match read_ids(banned_lines) {
            Ok(s) => s,
            Err(line) => return Err(line),
        };
        Ok(Moderation { config, moderators, banned })
    }

    /// The ban file this moderation writes to.
    pub fn banned_file(&self) -> (r: &String)
        ensures
            r == self.config().banned,
    {
        &self.config.banned
    }

    pub fn is_moderator(&self, user: u128) -> (r: bool)
        ensures
            r == self.moderator_set().contains(user),
    {
        self.moderators.contains(user)
    }

    pub fn is_banned(&self, user: u128) -> (r: bool)
        ensures
            r == self.banned_set().contains(user),
    {
        self.banned.contains(user)
    }

    /// Bans a user who is not a moderator. Returns the line to append to
    /// the ban file, or `None` when the user was banned already.
    pub fn ban(&mut self, user: u128) -> (r: Result<Option<String>, ClientError>)
        ensures
            final(self).config() == old(self).config(),
            final(self).moderator_set() == old(self).moderator_set(),
            old(self).moderator_set().contains(user) ==> r == Err::<Option<String>, ClientError>(
                ClientError::NotPermitted,
            ) && final(self).banned_set() == old(self).banned_set(),
            !old(self).moderator_set().contains(user) ==> {
                &&& final(self).banned_set() == old(self).banned_set().insert(user)
                &&& (r matches Ok(line) && (line is None <==> old(self).banned_set().contains(user))
                    && (line matches Some(l) ==> l@ == hyphenated(user)))
            },
    {
        if self.is_moderator(user) {
            Err(ClientError::NotPermitted)
        } else if self.banned.insert(user) {
            Ok(Some(uuid_text(user)))
        } else {
            Ok(None)
        }
    }

    /// Lifts the ban on a user. Returns the lines of the whole new ban file:
    /// each remaining banned user once.
    pub fn unban(&mut self, user: u128) -> (r: Result<Vec<String>, ClientError>)
        ensures
            final(self).config() == old(self).config(),
            final(self).moderator_set() == old(self).moderator_set(),
            final(self).banned_set() == old(self).banned_set().remove(user),
            !old(self).banned_set().contains(user) ==> r == Err::<Vec<String>, ClientError>(
                ClientError::NotBanned,
            ),
            old(self).banned_set().contains(user) ==> (r matches Ok(lines) && exists|ids: Seq<u128>|
                {
                    &&& ids.no_duplicates()
                    &&& ids.to_set() == final(self).banned_set()
                    &&& lines@.map_values(|l: String| l@) == ids.map_values(|u: u128| hyphenated(u))
                }),
    {
        if self.banned.remove(user) {
            let ids = self.banned.to_vec();
            let mut lines: Vec<String> = Vec::new();
            let mut i: usize = 0;
            while i < ids.len()
                invariant
                    i <= ids@.len(),
                    lines@.map_values(|l: String| l@) =~= ids@.take(i as int).map_values(
                        |u: u128| hyphenated(u),
                    ),
                decreases ids@.len() - i,
            {
                let ghost before = lines@;
                let text = uuid_text(ids[i]);
                lines.push(text);
                assert(lines@ == before.push(text));
                assert(ids@.take(i + 1) =~= ids@.take(i as int).push(ids@[i as int]));
                assert(lines@.map_values(|l: String| l@) =~= before.map_values(|l: String| l@).push(
                    text@,
                ));
                i = i + 1;
            }
            assert(ids@.take(ids@.len() as int) =~= ids@);
            Ok(lines)
        } else {
            Err(ClientError::NotBanned)
        }
    }
}

} // verus!
