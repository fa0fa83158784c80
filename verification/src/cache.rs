//! Remembered answers of the lookups by display name.

use vstd::prelude::*;
use crate::roster::{
    lemma_first_index, lemma_no_index, member_by_name, member_id_by_name, RosterMember,
};
use crate::text::{str_eq, text_of};

verus! {

/// `None` for a member without an avatar, else the member's display name.
pub open spec fn avatar_keys(members: Seq<RosterMember>) -> Seq<Option<Seq<char>>> {
    members.map_values(
        |m: RosterMember|
            if m.avatar_url is Some {
                Some(m.display_name@)
            } else {
                None
            },
    )
}

/// Avatar of the first member that is called exactly `name` and has one.
pub open spec fn member_avatar_by_name(members: Seq<RosterMember>, name: Seq<char>) -> Option<
    Seq<char>,
> {
    match avatar_keys(members).index_of_first(Some(name)) {
        Some(p) => Some(members[p].avatar_url->0@),
        None => None,
    }
}

/// What a lookup of `name` answers: what is remembered of the name, else
/// what the roster says.
pub open spec fn resolved_id(
    memo: Map<Seq<char>, Option<u64>>,
    members: Seq<RosterMember>,
    name: Seq<char>,
) -> Option<u64> {
    if memo.contains_key(name) {
        memo[name]
    } else {
        member_id_by_name(members, name)
    }
}

/// What a lookup of the avatar of `name` answers: what is remembered of the
/// name, else what the roster says.
pub open spec fn resolved_avatar(
    memo: Map<Seq<char>, Option<Seq<char>>>,
    members: Seq<RosterMember>,
    name: Seq<char>,
) -> Option<Seq<char>> {
    if memo.contains_key(name) {
        memo[name]
    } else {
        member_avatar_by_name(members, name)
    }
}

/// Where a value first stands after one more value was put at the end.
pub proof fn lemma_push_first_index<A>(s: Seq<A>, x: A, k: A)
    ensures
        s.push(x).contains(k) <==> s.contains(k) || x == k,
        s.push(x).index_of_first(k) == (if s.contains(k) {
            s.index_of_first(k)
        } else if x == k {
            Some(s.len() as int)
        } else {
            None
        }),
{
    let t = s.push(x);
    s.index_of_first_ensures(k);
    if s.contains(k) {
        let p = s.index_of_first(k)->0;
        assert(t[p] == k);
        lemma_first_index(t, k, p);
        assert(t.contains(k));
    } else if x == k {
        assert(t[s.len() as int] == k);
        lemma_first_index(t, k, s.len() as int);
        assert(t.contains(k));
    } else {
        lemma_no_index(t, k);
        t.index_of_first_ensures(k);
    }
}

struct IdEntry {
    name: String,
    id: Option<u64>,
}

struct AvatarEntry {
    name: String,
    url: Option<String>,
}

/// Display names with the member identifier found for each, or with the
/// fact that none was found. An answer stays until the memo is cleared.
pub struct IdMemo {
    entries: Vec<IdEntry>,
}

/// Display names with the avatar found for each, or with the fact that none
/// was found. An answer stays until the memo is cleared.
pub struct AvatarMemo {
    entries: Vec<AvatarEntry>,
}

spec fn id_names(entries: Seq<IdEntry>) -> Seq<Seq<char>> {
    entries.map_values(|e: IdEntry| e.name@)
}

spec fn avatar_names(entries: Seq<AvatarEntry>) -> Seq<Seq<char>> {
    entries.map_values(|e: AvatarEntry| e.name@)
}

impl View for IdMemo {
    type V = Map<Seq<char>, Option<u64>>;

    closed spec fn view(&self) -> Map<Seq<char>, Option<u64>> {
        Map::new(
            |k: Seq<char>| id_names(self.entries@).contains(k),
            |k: Seq<char>| self.entries@[id_names(self.entries@).index_of_first(k)->0].id,
        )
    }
}

impl View for AvatarMemo {
    type V = Map<Seq<char>, Option<Seq<char>>>;

    closed spec fn view(&self) -> Map<Seq<char>, Option<Seq<char>>> {
        Map::new(
            |k: Seq<char>| avatar_names(self.entries@).contains(k),
            |k: Seq<char>|
                text_of(self.entries@[avatar_names(self.entries@).index_of_first(k)->0].url),
        )
    }
}

impl IdMemo {
    /// A memo that remembers nothing.
    pub fn new() -> (r: Self)
        ensures
            r@ == Map::<Seq<char>, Option<u64>>::empty(),
    {
        let r = IdMemo { entries: Vec::new() };
        assert(r@ =~= Map::<Seq<char>, Option<u64>>::empty());
        r
    }

    /// Forgets everything.
    pub fn clear(&mut self)
        ensures
            final(self)@ == Map::<Seq<char>, Option<u64>>::empty(),
    {
        self.entries.clear();
        assert(self@ =~= Map::<Seq<char>, Option<u64>>::empty());
    }

    fn find(&self, name: &str) -> (r: Option<usize>)
        ensures
            match r {
                Some(p) => p < self.entries.len() && id_names(self.entries@).index_of_first(name@)
                    == Some(p as int),
                None => !id_names(self.entries@).contains(name@),
            },
    {
        let mut i: usize = 0;
        while i < self.entries.len()
            invariant
                i <= self.entries.len(),
                forall|j: int| 0 <= j < i ==> id_names(self.entries@)[j] != name@,
            decreases self.entries.len() - i,
        {
            if str_eq(self.entries[i].name.as_str(), name) {
                proof {
                    lemma_first_index(id_names(self.entries@), name@, i as int);
                }
                return Some(i);
            }
            i += 1;
        }
        None
    }

    /// What `resolve` would answer, without remembering anything.
    pub fn peek(&self, name: &str, members: &Vec<RosterMember>) -> (r: Option<u64>)
        ensures
            r == resolved_id(self@, members@, name@),
    {
        match self.find(name) {
            Some(p) => {
                proof {
                    id_names(self.entries@).index_of_first_ensures(name@);
                }
                self.entries[p].id
            },
            None => match member_by_name(members, name) {
                Some(p) => Some(members[p].id),
                None => None,
            },
        }
    }

    /// The identifier of the member called `name`: the remembered answer
    /// where there is one, else the first member of the roster with exactly
    /// that display name, which is then remembered, also where there is
    /// none.
    pub fn resolve(&mut self, name: &str, members: &Vec<RosterMember>) -> (r: Option<u64>)
        ensures
            r == resolved_id(old(self)@, members@, name@),
            final(self)@ == old(self)@.insert(name@, r),
    {
        match self.find(name) {
            Some(p) => {
                let r = self.entries[p].id;
                proof {
                    id_names(self.entries@).index_of_first_ensures(name@);
                    assert(self@.contains_key(name@));
                    assert(self@[name@] == r);
                    assert(self@.dom() =~= self@.insert(name@, r).dom());
                    assert(self@ =~= self@.insert(name@, r));
                }
                r
            },
            None => {
                let r = match member_by_name(members, name) {
                    Some(p) => Some(members[p].id),
                    None => None,
                };
                let ghost before = self.entries@;
                let ghost old_view = self@;
                let entry = IdEntry { name: name.to_owned(), id: r };
                self.entries.push(entry);
                proof {
                    assert(id_names(self.entries@) == id_names(before).push(name@));
                    let new_view = old_view.insert(name@, r);
                    assert forall|k: Seq<char>| #[trigger]
                        self@.dom().contains(k) == new_view.dom().contains(k) && (self@.dom().contains(
                            k,
                        ) ==> self@[k] == new_view[k]) by {
                        lemma_push_first_index(id_names(before), name@, k);
                        id_names(before).index_of_first_ensures(k);
                    }
                    assert(self@.dom() =~= new_view.dom());
                    assert(self@ =~= new_view);
                }
                r
            },
        }
    }
}

impl AvatarMemo {
    /// A memo that remembers nothing.
    pub fn new() -> (r: Self)
        ensures
            r@ == Map::<Seq<char>, Option<Seq<char>>>::empty(),
    {
        let r = AvatarMemo { entries: Vec::new() };
        assert(r@ =~= Map::<Seq<char>, Option<Seq<char>>>::empty());
        r
    }

    /// Forgets everything.
    pub fn clear(&mut self)
        ensures
            final(self)@ == Map::<Seq<char>, Option<Seq<char>>>::empty(),
    {
        self.entries.clear();
        assert(self@ =~= Map::<Seq<char>, Option<Seq<char>>>::empty());
    }

    fn find(&self, name: &str) -> (r: Option<usize>)
        ensures
            match r {
                Some(p) => p < self.entries.len() && avatar_names(
                    self.entries@,
                ).index_of_first(name@) == Some(p as int),
                None => !avatar_names(self.entries@).contains(name@),
            },
    {
        let mut i: usize = 0;
        while i < self.entries.len()
            invariant
                i <= self.entries.len(),
                forall|j: int| 0 <= j < i ==> avatar_names(self.entries@)[j] != name@,
            decreases self.entries.len() - i,
        {
            if str_eq(self.entries[i].name.as_str(), name) {
                proof {
                    lemma_first_index(avatar_names(self.entries@), name@, i as int);
                }
                return Some(i);
            }
            i += 1;
        }
        None
    }

    /// The avatar of the member called `name`: the remembered answer where
    /// there is one, else the avatar of the first member of the roster that
    /// has exactly that display name and an avatar, which is then
    /// remembered, also where there is none.
    pub fn resolve(&mut self, name: &str, members: &Vec<RosterMember>) -> (r: Option<String>)
        ensures
            text_of(r) == resolved_avatar(old(self)@, members@, name@),
            final(self)@ == old(self)@.insert(name@, text_of(r)),
    {
        match self.find(name) {
            Some(p) => {
                let r = copy_url(&self.entries[p].url);
                proof {
                    avatar_names(self.entries@).index_of_first_ensures(name@);
                    assert(self@.contains_key(name@));
                    assert(self@[name@] == text_of(r));
                    assert(self@.dom() =~= self@.insert(name@, text_of(r)).dom());
                    assert(self@ =~= self@.insert(name@, text_of(r)));
                }
                r
            },
            None => {
                let r = avatar_by_name(members, name);
                let ghost before = self.entries@;
                let ghost old_view = self@;
                let entry = AvatarEntry { name: name.to_owned(), url: copy_url(&r) };
                self.entries.push(entry);
                proof {
                    assert(avatar_names(self.entries@) == avatar_names(before).push(name@));
                    let new_view = old_view.insert(name@, text_of(r));
                    assert forall|k: Seq<char>| #[trigger]
                        self@.dom().contains(k) == new_view.dom().contains(k) && (self@.dom().contains(
                            k,
                        ) ==> self@[k] == new_view[k]) by {
                        lemma_push_first_index(avatar_names(before), name@, k);
                        avatar_names(before).index_of_first_ensures(k);
                    }
                    assert(self@.dom() =~= new_view.dom());
                    assert(self@ =~= new_view);
                }
                r
            },
        }
    }
}

fn copy_url(url: &Option<String>) -> (r: Option<String>)
    ensures
        r == *url,
{
    match url {
        Some(u) => Some(u.clone()),
        None => None,
    }
}

/// Avatar of the first member that is called exactly `name` and has one.
pub fn avatar_by_name(members: &Vec<RosterMember>, name: &str) -> (r: Option<String>)
    ensures
        text_of(r) == member_avatar_by_name(members@, name@),
{
    let mut i: usize = 0;
    while i < members.len()
        invariant
            i <= members.len(),
            forall|j: int| 0 <= j < i ==> avatar_keys(members@)[j] != Some(name@),
        decreases members.len() - i,
    {
        if str_eq(members[i].display_name.as_str(), name) {
            match &members[i].avatar_url {
                Some(url) => {
                    proof {
                        lemma_first_index(avatar_keys(members@), Some(name@), i as int);
                    }
                    return Some(url.clone());
                },
                None => {},
            }
        }
        i += 1;
    }
    proof {
        lemma_no_index(avatar_keys(members@), Some(name@));
    }
    None
}

} // verus!
