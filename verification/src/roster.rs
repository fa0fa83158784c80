//! The member list of the guild, and the named entities that mentions
//! resolve to.

use vstd::prelude::*;

verus! {

/// One member of the guild as the transcoders see it.
#[derive(Clone, Debug, PartialEq, Eq)]
pub struct RosterMember {
    pub id: u64,
    pub display_name: String,
    pub avatar_url: Option<String>,
}

/// A channel, role or custom emoji: an identifier and the name it shows as.
#[derive(Clone, Debug, PartialEq, Eq)]
pub struct NamedId {
    pub id: u64,
    pub name: String,
}

/// Why a change to the roster was not made.
#[derive(Clone, Copy, Debug, PartialEq, Eq)]
pub enum RosterError {
    /// The change names a member that the roster does not hold.
    UnknownMember,
}

pub open spec fn member_ids(members: Seq<RosterMember>) -> Seq<u64> {
    members.map_values(|m: RosterMember| m.id)
}

pub open spec fn member_names(members: Seq<RosterMember>) -> Seq<Seq<char>> {
    members.map_values(|m: RosterMember| m.display_name@)
}

pub open spec fn entry_ids(entries: Seq<NamedId>) -> Seq<u64> {
    entries.map_values(|e: NamedId| e.id)
}

pub open spec fn entry_names(entries: Seq<NamedId>) -> Seq<Seq<char>> {
    entries.map_values(|e: NamedId| e.name@)
}

/// Display name of the first member with the identifier `id`.
pub open spec fn member_name_by_id(members: Seq<RosterMember>, id: u64) -> Option<Seq<char>> {
    match member_ids(members).index_of_first(id) {
        Some(p) => Some(members[p].display_name@),
        None => None,
    }
}

/// Identifier of the first member whose display name is exactly `name`.
pub open spec fn member_id_by_name(members: Seq<RosterMember>, name: Seq<char>) -> Option<u64> {
    match member_names(members).index_of_first(name) {
        Some(p) => Some(members[p].id),
        None => None,
    }
}

/// Name of the first entry with the identifier `id`.
pub open spec fn entry_name_by_id(entries: Seq<NamedId>, id: u64) -> Option<Seq<char>> {
    match entry_ids(entries).index_of_first(id) {
        Some(p) => Some(entries[p].name@),
        None => None,
    }
}

/// Identifier of the first entry whose name is exactly `name`.
pub open spec fn entry_id_by_name(entries: Seq<NamedId>, name: Seq<char>) -> Option<u64> {
    match entry_names(entries).index_of_first(name) {
        Some(p) => Some(entries[p].id),
        None => None,
    }
}

/// The first position of `needle` is `p` when it stands there and nowhere
/// before.
pub proof fn lemma_first_index<A>(s: Seq<A>, needle: A, p: int)
    requires
        0 <= p < s.len(),
        s[p] == needle,
        forall|j: int| 0 <= j < p ==> s[j] != needle,
    ensures
        s.index_of_first(needle) == Some(p),
{
    s.index_of_first_ensures(needle);
    assert(s.contains(needle));
}

/// There is no first position of a value that stands nowhere.
pub proof fn lemma_no_index<A>(s: Seq<A>, needle: A)
    requires
        forall|j: int| 0 <= j < s.len() ==> s[j] != needle,
    ensures
        s.index_of_first(needle) is None,
{
    s.index_of_first_ensures(needle);
}

/// Position of the first member with the identifier `id`.
pub fn member_by_id(members: &Vec<RosterMember>, id: u64) -> (r: Option<usize>)
    ensures
        match r {
            Some(p) => p < members.len() && member_ids(members@).index_of_first(id) == Some(
                p as int,
            ),
            None => member_ids(members@).index_of_first(id) is None,
        },
{
    let mut i: usize = 0;
    while i < members.len()
        invariant
            i <= members.len(),
            forall|j: int| 0 <= j < i ==> member_ids(members@)[j] != id,
        decreases members.len() - i,
    {
        if members[i].id == id {
            proof {
                lemma_first_index(member_ids(members@), id, i as int);
            }
            return Some(i);
        }
        i += 1;
    }
    proof {
        lemma_no_index(member_ids(members@), id);
    }
    None
}

/// Position of the first member whose display name is exactly `name`.
pub fn member_by_name(members: &Vec<RosterMember>, name: &str) -> (r: Option<usize>)
    ensures
        match r {
            Some(p) => p < members.len() && member_names(members@).index_of_first(name@) == Some(
                p as int,
            ),
            None => member_names(members@).index_of_first(name@) is None,
        },
{
    let mut i: usize = 0;
    while i < members.len()
        invariant
            i <= members.len(),
            forall|j: int| 0 <= j < i ==> member_names(members@)[j] != name@,
        decreases members.len() - i,
    {
        if crate::text::str_eq(members[i].display_name.as_str(), name) {
            proof {
                lemma_first_index(member_names(members@), name@, i as int);
            }
            return Some(i);
        }
        i += 1;
    }
    proof {
        lemma_no_index(member_names(members@), name@);
    }
    None
}

/// Position of the first entry with the identifier `id`.
pub fn entry_by_id(entries: &Vec<NamedId>, id: u64) -> (r: Option<usize>)
    ensures
        match r {
            Some(p) => p < entries.len() && entry_ids(entries@).index_of_first(id) == Some(
                p as int,
            ),
            None => entry_ids(entries@).index_of_first(id) is None,
        },
{
    let mut i: usize = 0;
    while i < entries.len()
        invariant
            i <= entries.len(),
            forall|j: int| 0 <= j < i ==> entry_ids(entries@)[j] != id,
        decreases entries.len() - i,
    {
        if entries[i].id == id {
            proof {
                lemma_first_index(entry_ids(entries@), id, i as int);
            }
            return Some(i);
        }
        i += 1;
    }
    proof {
        lemma_no_index(entry_ids(entries@), id);
    }
    None
}

/// Position of the first entry whose name is exactly `name`.
pub fn entry_by_name(entries: &Vec<NamedId>, name: &str) -> (r: Option<usize>)
    ensures
        match r {
            Some(p) => p < entries.len() && entry_names(entries@).index_of_first(name@) == Some(
                p as int,
            ),
            None => entry_names(entries@).index_of_first(name@) is None,
        },
{
    let mut i: usize = 0;
    while i < entries.len()
        invariant
            i <= entries.len(),
            forall|j: int| 0 <= j < i ==> entry_names(entries@)[j] != name@,
        decreases entries.len() - i,
    {
        if crate::text::str_eq(entries[i].name.as_str(), name) {
            proof {
                lemma_first_index(entry_names(entries@), name@, i as int);
            }
            return Some(i);
        }
        i += 1;
    }
    proof {
        lemma_no_index(entry_names(entries@), name@);
    }
    None
}

/// The guild's members in the order in which they became known.
pub struct Roster {
    members: Vec<RosterMember>,
}

impl View for Roster {
    type V = Seq<RosterMember>;

    closed spec fn view(&self) -> Seq<RosterMember> {
        self.members@
    }
}

impl Roster {
    /// A roster that holds the members of a first listing.
    pub fn new(members: Vec<RosterMember>) -> (r: Self)
        ensures
            r@ == members@,
    {
        Roster { members }
    }

    /// Takes in a member that joined.
    pub fn add(&mut self, member: RosterMember)
        ensures
            final(self)@ == old(self)@.push(member),
    {
        self.members.push(member);
    }

    /// Replaces the first entry that has the member's identifier; the new
    /// entry goes to the end. A roster without such an entry is left as it
    /// is, and the miss is reported.
    pub fn update(&mut self, member: RosterMember) -> (r: Result<(), RosterError>)
        ensures
            match member_ids(old(self)@).index_of_first(member.id) {
                Some(p) => r is Ok && final(self)@ == old(self)@.remove(p).push(member),
                None => r == Err::<(), RosterError>(RosterError::UnknownMember) && final(self)@
                    == old(self)@,
            },
    {
        match member_by_id(&self.members, member.id) {
            Some(p) => {
                self.members.remove(p);
                self.members.push(member);
                Ok(())
            },
            None => Err(RosterError::UnknownMember),
        }
    }

    /// Takes out the first entry with the identifier `id` and hands it
    /// back. A roster without such an entry is left as it is, and the miss
    /// is reported.
    pub fn remove(&mut self, id: u64) -> (r: Result<RosterMember, RosterError>)
        ensures
            match member_ids(old(self)@).index_of_first(id) {
                Some(p) => r == Ok::<RosterMember, RosterError>(old(self)@[p]) && final(self)@
                    == old(self)@.remove(p),
                None => r == Err::<RosterMember, RosterError>(RosterError::UnknownMember)
                    && final(self)@ == old(self)@,
            },
    {
        match member_by_id(&self.members, id) {
            Some(p) => {
                proof {
                    member_ids(self.members@).index_of_first_ensures(id);
                }
                Ok(self.members.remove(p))
            },
            None => Err(RosterError::UnknownMember),
        }
    }

    /// The members as they stand, in order.
    pub fn snapshot(&self) -> (r: &Vec<RosterMember>)
        ensures
            r@ == self@,
    {
        &self.members
    }
}

} // verus!
