//! The registry's state, its invariant, and the member store.

use std::collections::HashMap;
use vstd::prelude::*;
use vstd::std_specs::iter::IteratorSpec;

use crate::error::ApiError;
use crate::group::{Group, GroupTransferRequest};
use crate::member::{member_role, Member};
use crate::principal::Principal;

verus! {

broadcast use vstd::std_specs::hash::group_hash_axioms, vstd::seq_lib::group_seq_properties;

/// The most groups one principal may own.
pub const USER_GROUP_CREATION_LIMIT: usize = 10;

/// The membership registry: groups by id, one member record per principal,
/// and the pending ownership transfers by group id.
///
/// The group-side roster is not stored apart: the members of a group are the
/// principals whose record holds a join of it, and its invitees those whose
/// record holds an invite of it, so the two sides cannot disagree.
pub struct GroupCalls {
    pub groups: HashMap<u64, Group>,
    pub members: Vec<Member>,
    pub transfer_requests: HashMap<u64, GroupTransferRequest>,
    pub next_group_id: u64,
}

impl GroupCalls {
    pub open spec fn has_member(self, p: Seq<char>) -> bool {
        exists|i: int| 0 <= i < self.members@.len() && (#[trigger] self.members@[i]).principal@ == p
    }

    pub open spec fn index_of(self, p: Seq<char>) -> int {
        choose|i: int| 0 <= i < self.members@.len() && (#[trigger] self.members@[i]).principal@ == p
    }

    /// The record of `p`; meaningful where `has_member(p)`.
    pub open spec fn member_of(self, p: Seq<char>) -> Member {
        self.members@[self.index_of(p)]
    }

    pub open spec fn has_group(self, g: u64) -> bool {
        self.groups@.contains_key(g)
    }

    /// Member side: the record of `p` holds a join of `g`.
    pub open spec fn is_group_joined(self, p: Seq<char>, g: u64) -> bool {
        self.has_member(p) && self.member_of(p).joined@.contains_key(g)
    }

    /// Member side: the record of `p` holds an invite of `g`.
    pub open spec fn is_group_invited(self, p: Seq<char>, g: u64) -> bool {
        self.has_member(p) && self.member_of(p).invites@.contains_key(g)
    }

    /// Group side: the roster of `g`, every principal with a join of it.
    pub open spec fn roster(self, g: u64) -> Set<Seq<char>> {
        Set::new(|p: Seq<char>| exists|i: int| 0 <= i < self.members@.len()
            && (#[trigger] self.members@[i]).principal@ == p && self.members@[i].joined@.contains_key(g))
    }

    /// Group side: the invitees of `g`.
    pub open spec fn invitees(self, g: u64) -> Set<Seq<char>> {
        Set::new(|p: Seq<char>| exists|i: int| 0 <= i < self.members@.len()
            && (#[trigger] self.members@[i]).principal@ == p && self.members@[i].invites@.contains_key(g))
    }

    pub open spec fn principals_unique(self) -> bool {
        forall|i: int, j: int|
            0 <= i < self.members@.len() && 0 <= j < self.members@.len()
                && (#[trigger] self.members@[i]).principal@ == (#[trigger] self.members@[j]).principal@ ==> i == j
    }

    pub open spec fn refs_exist(self) -> bool {
        &&& forall|i: int, g: u64| 0 <= i < self.members@.len() && #[trigger] self.members@[i].joined@.contains_key(g)
            ==> self.groups@.contains_key(g)
        &&& forall|i: int, g: u64| 0 <= i < self.members@.len() && #[trigger] self.members@[i].invites@.contains_key(g)
            ==> self.groups@.contains_key(g)
        &&& forall|g: u64| #[trigger] self.transfer_requests@.contains_key(g) ==> self.groups@.contains_key(g)
        &&& forall|g: u64| #[trigger] self.groups@.contains_key(g) ==> g < self.next_group_id
    }

    /// The registry's invariant: one record per principal, no principal
    /// both joined and invited for one group, and every join, invite and
    /// transfer names a stored group.
    pub open spec fn wf(self) -> bool {
        &&& self.principals_unique()
        &&& forall|i: int| 0 <= i < self.members@.len() ==> (#[trigger] self.members@[i]).wf()
        &&& self.refs_exist()
    }

    /// `new` differs from `old` only in the record at `idx`, which keeps its
    /// principal.
    pub open spec fn only_record_changed(old: GroupCalls, new: GroupCalls, idx: int) -> bool {
        &&& new.members@.len() == old.members@.len()
        &&& new.members@[idx].principal == old.members@[idx].principal
        &&& forall|j: int| 0 <= j < old.members@.len() && j != idx ==> #[trigger] new.members@[j] == old.members@[j]
        &&& new.groups@ == old.groups@
        &&& new.transfer_requests@ == old.transfer_requests@
        &&& new.next_group_id == old.next_group_id
    }

    pub proof fn lemma_index_of(self, i: int)
        requires
            self.principals_unique(),
            0 <= i < self.members@.len(),
        ensures
            self.has_member(self.members@[i].principal@),
            self.index_of(self.members@[i].principal@) == i,
    {
        let p = self.members@[i].principal@;
        assert(self.has_member(p));
        let k = self.index_of(p);
        assert(self.members@[k].principal@ == self.members@[i].principal@);
    }

    /// An empty registry.
    pub fn new() -> (r: GroupCalls)
        ensures
            r.wf(),
            r.members@.len() == 0,
            r.groups@ == Map::<u64, Group>::empty(),
            r.transfer_requests@ == Map::<u64, GroupTransferRequest>::empty(),
    {
        GroupCalls { groups: HashMap::new(), members: Vec::new(), transfer_requests: HashMap::new(), next_group_id: 0 }
    }

    /// The position of the record of `p`.
    pub fn find_member(&self, p: &Principal) -> (r: Option<usize>)
        requires
            self.wf(),
        ensures
            r is Some == self.has_member(p@),
            r matches Some(i) ==> i == self.index_of(p@) && i < self.members@.len() && self.members@[i as int].principal@ == p@,
    {
        let mut i: usize = 0;
        while i < self.members.len()
            invariant
                self.wf(),
                i <= self.members@.len(),
                forall|j: int| 0 <= j < i ==> (#[trigger] self.members@[j]).principal@ != p@,
            decreases self.members.len() - i,
        {
            if self.members[i].principal.same(p) {
                proof {
                    self.lemma_index_of(i as int);
                }
                return Some(i);
            }
            i = i + 1;
        }
        None
    }

    /// Creates the record of a principal, with no groups.
    pub fn add_member(&mut self, principal: Principal, profile_identifier: Principal) -> (r: Result<(), ApiError>)
        requires
            old(self).wf(),
        ensures
            final(self).wf(),
            r is Err <==> old(self).has_member(principal@),
            r is Err ==> r == Err::<(), ApiError>(ApiError::Duplicate) && *final(self) == *old(self),
            r is Ok ==> final(self).members@.len() == old(self).members@.len() + 1
                && final(self).members@.take(old(self).members@.len() as int) == old(self).members@
                && final(self).members@.last().principal == principal
                && final(self).members@.last().joined@.is_empty()
                && final(self).members@.last().invites@.is_empty()
                && final(self).groups@ == old(self).groups@
                && final(self).transfer_requests@ == old(self).transfer_requests@,
    {
        match self.find_member(&principal) {
            Some(_) => Err(ApiError::Duplicate),
            None => {
                let ghost before = self.members@;
                let fresh = Member::new(principal, profile_identifier);
                let ghost fresh_view = fresh;
                self.members.push(fresh);
                proof {
                    assert(self.members@.take(before.len() as int) =~= before);
                    assert forall|i: int, j: int|
                        0 <= i < self.members@.len() && 0 <= j < self.members@.len()
                            && (#[trigger] self.members@[i]).principal@ == (#[trigger] self.members@[j]).principal@
                        implies i == j by {
                        if i < before.len() && j == before.len() {
                            assert(old(self).members@[i] == self.members@[i]);
                        }
                        if j < before.len() && i == before.len() {
                            assert(old(self).members@[j] == self.members@[j]);
                        }
                    }
                    assert forall|i: int, g: u64| 0 <= i < self.members@.len() && #[trigger] self.members@[i].joined@.contains_key(g)
                        implies self.groups@.contains_key(g) by {
                        if i < before.len() {
                            assert(old(self).members@[i] == self.members@[i]);
                        } else {
                            assert(self.members@[i] == fresh_view);
                            assert(!fresh_view.joined@.contains_key(g));
                            assert(!fresh_view.invites@.contains_key(g));
                        }
                    }
                    assert forall|i: int, g: u64| 0 <= i < self.members@.len() && #[trigger] self.members@[i].invites@.contains_key(g)
                        implies self.groups@.contains_key(g) by {
                        if i < before.len() {
                            assert(old(self).members@[i] == self.members@[i]);
                        } else {
                            assert(self.members@[i] == fresh_view);
                            assert(!fresh_view.joined@.contains_key(g));
                            assert(!fresh_view.invites@.contains_key(g));
                        }
                    }
                    assert forall|i: int| 0 <= i < self.members@.len() implies (#[trigger] self.members@[i]).wf() by {
                        if i < before.len() {
                            assert(old(self).members@[i] == self.members@[i]);
                        }
                    }
                }
                Ok(())
            },
        }
    }

    /// The record of `p`.
    pub fn get_member(&self, p: &Principal) -> (r: Result<&Member, ApiError>)
        requires
            self.wf(),
        ensures
            r is Err <==> !self.has_member(p@),
            r matches Err(e) ==> e == ApiError::NotFound,
            r matches Ok(m) ==> *m == self.member_of(p@),
    {
        match self.find_member(p) {
            Some(i) => Ok(&self.members[i]),
            None => Err(ApiError::NotFound),
        }
    }

    /// Stores `m` as the record at `idx`, in place of one of the same
    /// principal.
    pub(crate) fn put_member(&mut self, idx: usize, m: Member)
        requires
            old(self).wf(),
            idx < old(self).members@.len(),
            m.principal == old(self).members@[idx as int].principal,
            m.wf(),
            forall|g: u64| #[trigger] m.joined@.contains_key(g) ==> old(self).groups@.contains_key(g),
            forall|g: u64| #[trigger] m.invites@.contains_key(g) ==> old(self).groups@.contains_key(g),
        ensures
            final(self).wf(),
            final(self).members@ == old(self).members@.update(idx as int, m),
            Self::only_record_changed(*old(self), *final(self), idx as int),
    {
        self.members.set(idx, m);
        proof {
            assert forall|i: int, j: int|
                0 <= i < self.members@.len() && 0 <= j < self.members@.len()
                    && (#[trigger] self.members@[i]).principal@ == (#[trigger] self.members@[j]).principal@
                implies i == j by {
                assert(self.members@[i].principal == old(self).members@[i].principal);
                assert(self.members@[j].principal == old(self).members@[j].principal);
            }
            assert forall|i: int| 0 <= i < self.members@.len() implies (#[trigger] self.members@[i]).wf() by {
                if i != idx {
                    assert(self.members@[i] == old(self).members@[i]);
                }
            }
            assert forall|i: int, g: u64| 0 <= i < self.members@.len() && #[trigger] self.members@[i].joined@.contains_key(g)
                implies self.groups@.contains_key(g) by {
                if i != idx {
                    assert(self.members@[i] == old(self).members@[i]);
                }
            }
            assert forall|i: int, g: u64| 0 <= i < self.members@.len() && #[trigger] self.members@[i].invites@.contains_key(g)
                implies self.groups@.contains_key(g) by {
                if i != idx {
                    assert(self.members@[i] == old(self).members@[i]);
                }
            }
        }
    }
}


/// The roles of a fresh membership: exactly "member".
pub open spec fn only_member_role(roles: Seq<String>) -> bool {
    roles.len() == 1 && roles[0]@ == member_role()
}

/// The record `new` is `old` with a join of `g` holding only "member", and
/// no invite of `g`.
pub open spec fn joined_as_member(old: Member, new: Member, g: u64) -> bool {
    &&& new.principal == old.principal
    &&& new.invites@ == old.invites@.remove(g)
    &&& new.joined@.dom() == old.joined@.dom().insert(g)
    &&& only_member_role(new.roles_in(g))
    &&& forall|h: u64| h != g ==> #[trigger] new.joined@.get(h) == old.joined@.get(h)
}

/// Every id of a map, each once.
pub(crate) fn ids_of<V>(m: &HashMap<u64, V>) -> (r: Vec<u64>)
    ensures
        r@.to_set() == m@.dom(),
        r@.no_duplicates(),
{
    let mut r: Vec<u64> = Vec::new();
    for k in it: m.keys()
        invariant
            it.seq().unref().to_set() == m@.dom(),
            it.seq().no_duplicates(),
            r@ == it.seq().unref().take(it.index()),
            it.seq() == vstd::std_specs::hash::spec_keys_iter(m).remaining(),
        ensures
            r@ == vstd::std_specs::hash::spec_keys_iter(m).remaining().unref(),
    {
        assert(it.seq().unref().take(it.index() + 1) =~= it.seq().unref().take(it.index()).push(*k));
        r.push(*k);
    }
    r
}

} // verus!
