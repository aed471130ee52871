//! Reads of the group-side roster: members, invitees, permission holders.

use vstd::prelude::*;

use crate::engine::GroupCalls;
use crate::error::ApiError;
use crate::member::{Invite, InviteMemberResponse, Join, JoinedMemberResponse, Member};
use crate::principal::Principal;
use crate::role::{PermissionActionType, PermissionType};

verus! {

broadcast use vstd::std_specs::hash::group_hash_axioms, vstd::seq_lib::group_seq_properties;

impl GroupCalls {
    /// The positions of the records that hold a join (`invites` false) or
    /// an invite (`invites` true) of `g`, in store order.
    fn indices_with(&self, group_id: u64, invites: bool) -> (r: Vec<usize>)
        ensures
            forall|j: int| 0 <= j < r@.len() ==> #[trigger] r@[j] < self.members@.len(),
            forall|k: usize| r@.contains(k) <==> (k < self.members@.len() && if invites {
                self.members@[k as int].invites@.contains_key(group_id)
            } else {
                self.members@[k as int].joined@.contains_key(group_id)
            }),
    {
        let mut out: Vec<usize> = Vec::new();
        let mut i: usize = 0;
        while i < self.members.len()
            invariant
                i <= self.members@.len(),
                forall|j: int| 0 <= j < out@.len() ==> #[trigger] out@[j] < i,
                forall|k: usize| out@.contains(k) <==> (k < i && if invites {
                    self.members@[k as int].invites@.contains_key(group_id)
                } else {
                    self.members@[k as int].joined@.contains_key(group_id)
                }),
            decreases self.members.len() - i,
        {
            let hit = if invites {
                self.members[i].is_group_invited(&group_id)
            } else {
                self.members[i].is_group_joined(&group_id)
            };
            if hit {
                out.push(i);
            }
            i = i + 1;
        }
        out
    }

    /// `v` holds one response for each member of `g` and no other.
    pub open spec fn lists_roster(self, g: u64, v: Seq<JoinedMemberResponse>) -> bool {
        &&& forall|p: Seq<char>| self.roster(g).contains(p)
            <==> exists|j: int| 0 <= j < v.len() && (#[trigger] v[j]).principal@ == p
        &&& forall|j: int| 0 <= j < v.len() ==> {
            &&& self.is_group_joined((#[trigger] v[j]).principal@, g)
            &&& v[j].group_id == g
            &&& v[j].roles@ == self.member_of(v[j].principal@).roles_in(g)
        }
    }

    /// One response per member of a group, in store order.
    pub fn get_group_members(&self, group_id: u64) -> (r: Result<Vec<JoinedMemberResponse>, ApiError>)
        requires
            self.wf(),
        ensures
            r is Err <==> !self.has_group(group_id),
            r matches Err(e) ==> e == ApiError::NotFound,
            r matches Ok(v) ==> self.lists_roster(group_id, v@),
    {
        if !self.groups.contains_key(&group_id) {
            return Err(ApiError::NotFound);
        }
        let idxs = self.indices_with(group_id, false);
        let mut out: Vec<JoinedMemberResponse> = Vec::new();
        let mut j: usize = 0;
        while j < idxs.len()
            invariant
                self.wf(),
                j <= idxs@.len(),
                out@.len() == j,
                forall|a: int| 0 <= a < idxs@.len() ==> #[trigger] idxs@[a] < self.members@.len(),
                forall|a: int| 0 <= a < j ==> {
                    &&& (#[trigger] out@[a]).principal == self.members@[idxs@[a] as int].principal
                    &&& out@[a].group_id == group_id
                    &&& out@[a].roles@ == self.members@[idxs@[a] as int].roles_in(group_id)
                },
            decreases idxs.len() - j,
        {
            let k = idxs[j];
            let m = &self.members[k];
            out.push(JoinedMemberResponse::new(m.principal.copy(), m.copy(), group_id));
            j = j + 1;
        }
        proof {
            assert forall|p: Seq<char>| self.roster(group_id).contains(p)
                <==> exists|a: int| 0 <= a < out@.len() && (#[trigger] out@[a]).principal@ == p by {
                if self.roster(group_id).contains(p) {
                    let k = choose|k: int| 0 <= k < self.members@.len()
                        && (#[trigger] self.members@[k]).principal@ == p && self.members@[k].joined@.contains_key(group_id);
                    assert(self.members@.len() == self.members.len());
                    assert(idxs@.contains(k as usize));
                    let a = choose|a: int| 0 <= a < idxs@.len() && idxs@[a] == k as usize;
                    assert(out@[a].principal@ == p);
                }
                if exists|a: int| 0 <= a < out@.len() && (#[trigger] out@[a]).principal@ == p {
                    let a = choose|a: int| 0 <= a < out@.len() && (#[trigger] out@[a]).principal@ == p;
                    let k = idxs@[a] as int;
                    assert(idxs@.contains(idxs@[a]));
                    assert(self.members@[k].principal@ == p);
                }
            }
            assert forall|a: int| 0 <= a < out@.len() implies {
                &&& self.is_group_joined((#[trigger] out@[a]).principal@, group_id)
                &&& out@[a].group_id == group_id
                &&& out@[a].roles@ == self.member_of(out@[a].principal@).roles_in(group_id)
            } by {
                let k = idxs@[a] as int;
                assert(idxs@.contains(idxs@[a]));
                self.lemma_index_of(k);
            }
            assert(self.lists_roster(group_id, out@));
        }
        Ok(out)
    }

    /// One response per pending invite or request of a group, in store order.
    pub fn get_group_invites(&self, group_id: u64) -> (r: Result<Vec<InviteMemberResponse>, ApiError>)
        requires
            self.wf(),
        ensures
            r is Err <==> !self.has_group(group_id),
            r matches Err(e) ==> e == ApiError::NotFound,
            r matches Ok(v) ==> {
                &&& forall|p: Seq<char>| self.invitees(group_id).contains(p)
                    <==> exists|j: int| 0 <= j < v@.len() && (#[trigger] v@[j]).principal@ == p
                &&& forall|j: int| 0 <= j < v@.len() ==> {
                    &&& self.is_group_invited((#[trigger] v@[j]).principal@, group_id)
                    &&& v@[j].group_id == group_id
                    &&& v@[j].invite == self.member_of(v@[j].principal@).invites@.get(group_id)
                }
            },
    {
        if !self.groups.contains_key(&group_id) {
            return Err(ApiError::NotFound);
        }
        let idxs = self.indices_with(group_id, true);
        let mut out: Vec<InviteMemberResponse> = Vec::new();
        let mut j: usize = 0;
        while j < idxs.len()
            invariant
                self.wf(),
                j <= idxs@.len(),
                out@.len() == j,
                forall|a: int| 0 <= a < idxs@.len() ==> #[trigger] idxs@[a] < self.members@.len(),
                forall|a: int| 0 <= a < j ==> {
                    &&& (#[trigger] out@[a]).principal == self.members@[idxs@[a] as int].principal
                    &&& out@[a].group_id == group_id
                    &&& out@[a].invite == self.members@[idxs@[a] as int].invites@.get(group_id)
                },
            decreases idxs.len() - j,
        {
            let k = idxs[j];
            let m = &self.members[k];
            out.push(InviteMemberResponse::new(m.principal.copy(), m.copy(), group_id));
            j = j + 1;
        }
        proof {
            assert forall|p: Seq<char>| self.invitees(group_id).contains(p)
                <==> exists|a: int| 0 <= a < out@.len() && (#[trigger] out@[a]).principal@ == p by {
                if self.invitees(group_id).contains(p) {
                    let k = choose|k: int| 0 <= k < self.members@.len()
                        && (#[trigger] self.members@[k]).principal@ == p && self.members@[k].invites@.contains_key(group_id);
                    assert(self.members@.len() == self.members.len());
                    assert(idxs@.contains(k as usize));
                    let a = choose|a: int| 0 <= a < idxs@.len() && idxs@[a] == k as usize;
                    assert(out@[a].principal@ == p);
                }
                if exists|a: int| 0 <= a < out@.len() && (#[trigger] out@[a]).principal@ == p {
                    let a = choose|a: int| 0 <= a < out@.len() && (#[trigger] out@[a]).principal@ == p;
                    let k = idxs@[a] as int;
                    assert(idxs@.contains(idxs@[a]));
                    assert(self.members@[k].principal@ == p);
                }
            }
            assert forall|a: int| 0 <= a < out@.len() implies {
                &&& self.is_group_invited((#[trigger] out@[a]).principal@, group_id)
                &&& out@[a].group_id == group_id
                &&& out@[a].invite == self.member_of(out@[a].principal@).invites@.get(group_id)
            } by {
                let k = idxs@[a] as int;
                assert(idxs@.contains(idxs@[a]));
                self.lemma_index_of(k);
            }
        }
        Ok(out)
    }
}


impl GroupCalls {
    /// The membership of `principal` in a group.
    pub fn get_group_member(&self, principal: &Principal, group_id: u64) -> (r: Result<JoinedMemberResponse, ApiError>)
        requires
            self.wf(),
        ensures
            r is Err <==> !self.is_group_joined(principal@, group_id),
            r matches Err(e) ==> e == if self.has_member(principal@) { ApiError::BadRequest } else { ApiError::NotFound },
            r matches Ok(resp) ==> resp.principal@ == principal@ && resp.group_id == group_id
                && resp.roles@ == self.member_of(principal@).roles_in(group_id),
    {
        let idx = match self.find_member(principal) {
            Some(i) => i,
            None => {
                return Err(ApiError::NotFound);
            },
        };
        if !self.members[idx].is_group_joined(&group_id) {
            return Err(ApiError::BadRequest);
        }
        Ok(JoinedMemberResponse::new(principal.copy(), self.members[idx].copy(), group_id))
    }

    /// The role names `principal` holds in a group; empty where it is not a
    /// member.
    pub fn get_member_roles(&self, principal: &Principal, group_id: u64) -> (r: Result<Vec<String>, ApiError>)
        requires
            self.wf(),
        ensures
            r is Err <==> !self.has_member(principal@),
            r matches Err(e) ==> e == ApiError::NotFound,
            r matches Ok(v) ==> v@ == self.member_of(principal@).roles_in(group_id),
    {
        match self.find_member(principal) {
            Some(i) => Ok(self.members[i].get_roles(group_id)),
            None => Err(ApiError::NotFound),
        }
    }

    /// `v` holds one response for each member of `g` that holds `action` on
    /// `ptype`, and no other.
    pub open spec fn lists_permitted(self, g: u64, ptype: PermissionType, action: PermissionActionType, v: Seq<JoinedMemberResponse>) -> bool {
        &&& forall|p: Seq<char>| (self.roster(g).contains(p) && self.spec_has_permission(p, g, ptype, action))
            <==> exists|j: int| 0 <= j < v.len() && (#[trigger] v[j]).principal@ == p
        &&& forall|j: int| 0 <= j < v.len() ==> {
            &&& self.spec_has_permission((#[trigger] v[j]).principal@, g, ptype, action)
            &&& v[j].group_id == g
            &&& v[j].roles@ == self.member_of(v[j].principal@).roles_in(g)
        }
    }

    /// The members of a group that hold `action` on `ptype`, in store order.
    pub fn get_group_members_by_permission(
        &self,
        group_id: u64,
        ptype: PermissionType,
        action: PermissionActionType,
    ) -> (r: Result<Vec<JoinedMemberResponse>, ApiError>)
        requires
            self.wf(),
        ensures
            r is Err <==> !self.has_group(group_id),
            r matches Err(e) ==> e == ApiError::NotFound,
            r matches Ok(v) ==> self.lists_permitted(group_id, ptype, action, v@),
    {
        let all = match self.get_group_members(group_id) {
            Ok(v) => v,
            Err(e) => {
                return Err(e);
            },
        };
        let mut out: Vec<JoinedMemberResponse> = Vec::new();
        let mut i: usize = 0;
        while i < all.len()
            invariant
                self.wf(),
                self.lists_roster(group_id, all@),
                i <= all@.len(),
                forall|p: Seq<char>| #![trigger self.spec_has_permission(p, group_id, ptype, action)] (exists|a: int| 0 <= a < i && (#[trigger] all@[a]).principal@ == p
                    && self.spec_has_permission(p, group_id, ptype, action))
                    <==> exists|j: int| 0 <= j < out@.len() && (#[trigger] out@[j]).principal@ == p,
                forall|j: int| 0 <= j < out@.len() ==> {
                    &&& self.spec_has_permission((#[trigger] out@[j]).principal@, group_id, ptype, action)
                    &&& out@[j].group_id == group_id
                    &&& out@[j].roles@ == self.member_of(out@[j].principal@).roles_in(group_id)
                },
            decreases all.len() - i,
        {
            let ghost before = out@;
            let keep = self.has_permission(&all[i].principal, group_id, ptype, action);
            if keep {
                out.push(JoinedMemberResponse {
                    group_id: all[i].group_id,
                    principal: all[i].principal.copy(),
                    roles: crate::member::copy_roles(&all[i].roles),
                });
            }
            proof {
                let n = i + 1;
                assert forall|p: Seq<char>| #![trigger self.spec_has_permission(p, group_id, ptype, action)] (exists|a: int| 0 <= a < n && (#[trigger] all@[a]).principal@ == p
                    && self.spec_has_permission(p, group_id, ptype, action))
                    <==> exists|j: int| 0 <= j < out@.len() && (#[trigger] out@[j]).principal@ == p by {
                    if exists|a: int| 0 <= a < n && (#[trigger] all@[a]).principal@ == p
                        && self.spec_has_permission(p, group_id, ptype, action) {
                        let a = choose|a: int| 0 <= a < n && (#[trigger] all@[a]).principal@ == p
                            && self.spec_has_permission(p, group_id, ptype, action);
                        if a < i {
                            let j = choose|j: int| 0 <= j < before.len() && (#[trigger] before[j]).principal@ == p;
                            assert(out@[j] == before[j]);
                        } else {
                            assert(out@[out@.len() - 1].principal@ == p);
                        }
                    }
                    if exists|j: int| 0 <= j < out@.len() && (#[trigger] out@[j]).principal@ == p {
                        let j = choose|j: int| 0 <= j < out@.len() && (#[trigger] out@[j]).principal@ == p;
                        if j < before.len() {
                            assert(out@[j] == before[j]);
                            assert(exists|j2: int| 0 <= j2 < before.len() && (#[trigger] before[j2]).principal@ == p);
                        } else {
                            assert(all@[i as int].principal@ == p);
                        }
                    }
                }
            }
            i = i + 1;
        }
        proof {
            assert forall|p: Seq<char>| (self.roster(group_id).contains(p) && self.spec_has_permission(p, group_id, ptype, action))
                <==> exists|j: int| 0 <= j < out@.len() && (#[trigger] out@[j]).principal@ == p by {
                if self.roster(group_id).contains(p) && self.spec_has_permission(p, group_id, ptype, action) {
                    let a = choose|a: int| 0 <= a < all@.len() && (#[trigger] all@[a]).principal@ == p;
                    assert(exists|a2: int| 0 <= a2 < all@.len() && (#[trigger] all@[a2]).principal@ == p
                        && self.spec_has_permission(p, group_id, ptype, action));
                }
                if exists|j: int| 0 <= j < out@.len() && (#[trigger] out@[j]).principal@ == p {
                    let a = choose|a: int| 0 <= a < all@.len() && (#[trigger] all@[a]).principal@ == p
                        && self.spec_has_permission(p, group_id, ptype, action);
                    assert(self.roster(group_id).contains(p));
                }
            }
            assert(self.lists_permitted(group_id, ptype, action, out@));
        }
        Ok(out)
    }

    /// The principals allowed to answer invites and requests of a group
    /// (write access on invites); empty for an unknown group.
    pub fn get_higher_role_members(&self, group_id: u64) -> (r: Vec<Principal>)
        requires
            self.wf(),
        ensures
            forall|p: Seq<char>| (self.roster(group_id).contains(p)
                && self.spec_has_permission(p, group_id, PermissionType::Invite, PermissionActionType::Write))
                <==> exists|j: int| 0 <= j < r@.len() && (#[trigger] r@[j])@ == p,
    {
        let listed = match self.get_group_members_by_permission(group_id, PermissionType::Invite, PermissionActionType::Write) {
            Ok(v) => v,
            Err(_) => Vec::new(),
        };
        let mut out: Vec<Principal> = Vec::new();
        let mut i: usize = 0;
        while i < listed.len()
            invariant
                i <= listed@.len(),
                out@.len() == i,
                forall|j: int| 0 <= j < i ==> (#[trigger] out@[j])@ == listed@[j].principal@,
            decreases listed.len() - i,
        {
            out.push(listed[i].principal.copy());
            i = i + 1;
        }
        proof {
            assert forall|p: Seq<char>| (self.roster(group_id).contains(p)
                && self.spec_has_permission(p, group_id, PermissionType::Invite, PermissionActionType::Write))
                <==> exists|j: int| 0 <= j < out@.len() && (#[trigger] out@[j])@ == p by {
                if exists|j: int| 0 <= j < out@.len() && (#[trigger] out@[j])@ == p {
                    let j = choose|j: int| 0 <= j < out@.len() && (#[trigger] out@[j])@ == p;
                    assert(listed@[j].principal@ == p);
                }
                if self.roster(group_id).contains(p)
                    && self.spec_has_permission(p, group_id, PermissionType::Invite, PermissionActionType::Write) {
                    let j = choose|j: int| 0 <= j < listed@.len() && (#[trigger] listed@[j]).principal@ == p;
                    assert(out@[j]@ == p);
                }
            }
        }
        out
    }

    /// How many records hold a join of `g`.
    pub open spec fn member_count(self, g: u64) -> nat {
        self.members@.filter(|m: Member| m.joined@.contains_key(g)).len()
    }

    /// The number of members of a group.
    pub fn get_group_count_data(&self, group_id: &u64) -> (r: u64)
        ensures
            r == self.member_count(*group_id),
    {
        let ghost pred = |m: Member| m.joined@.contains_key(*group_id);
        let mut count: u64 = 0;
        let mut i: usize = 0;
        while i < self.members.len()
            invariant
                i <= self.members@.len(),
                pred == (|m: Member| m.joined@.contains_key(*group_id)),
                count == self.members@.take(i as int).filter(pred).len(),
                count <= i,
            decreases self.members.len() - i,
        {
            proof {
                assert(self.members@.take(i as int + 1) =~= self.members@.take(i as int).push(self.members@[i as int]));
                self.members@.take(i as int).lemma_filter_push(self.members@[i as int], pred);
            }
            if self.members[i].is_group_joined(group_id) {
                count = count + 1;
            }
            i = i + 1;
        }
        proof {
            assert(self.members@.take(i as int) =~= self.members@);
        }
        count
    }
}


impl GroupCalls {
    /// `v` holds one response for each group joined by each principal of
    /// `ps` that has a record, and no other.
    pub open spec fn lists_memberships(self, ps: Seq<Principal>, v: Seq<JoinedMemberResponse>) -> bool {
        &&& forall|j: int| 0 <= j < v.len() ==> {
            &&& self.is_group_joined((#[trigger] v[j]).principal@, v[j].group_id)
            &&& v[j].roles@ == self.member_of(v[j].principal@).roles_in(v[j].group_id)
            &&& exists|i: int| 0 <= i < ps.len() && (#[trigger] ps[i])@ == v[j].principal@
        }
        &&& forall|i: int, g: u64| 0 <= i < ps.len() && #[trigger] self.is_group_joined(ps[i]@, g)
            ==> exists|j: int| 0 <= j < v.len() && (#[trigger] v[j]).principal@ == ps[i]@ && v[j].group_id == g
    }

    /// Every membership of the given principals, principal by principal.
    pub fn get_groups_for_members(&self, principals: &Vec<Principal>) -> (r: Vec<JoinedMemberResponse>)
        requires
            self.wf(),
        ensures
            self.lists_memberships(principals@, r@),
    {
        let mut out: Vec<JoinedMemberResponse> = Vec::new();
        let mut i: usize = 0;
        while i < principals.len()
            invariant
                self.wf(),
                i <= principals@.len(),
                forall|j: int| 0 <= j < out@.len() ==> {
                    &&& self.is_group_joined((#[trigger] out@[j]).principal@, out@[j].group_id)
                    &&& out@[j].roles@ == self.member_of(out@[j].principal@).roles_in(out@[j].group_id)
                    &&& exists|a: int| 0 <= a < i && (#[trigger] principals@[a])@ == out@[j].principal@
                },
                forall|a: int, g: u64| 0 <= a < i && #[trigger] self.is_group_joined(principals@[a]@, g)
                    ==> exists|j: int| 0 <= j < out@.len() && (#[trigger] out@[j]).principal@ == principals@[a]@ && out@[j].group_id == g,
            decreases principals.len() - i,
        {
            let ghost start = out@;
            let ghost n = i + 1;
            match self.find_member(&principals[i]) {
                Some(idx) => {
                    let joined = self.members[idx].get_joined();
                    let ghost m = self.members@[idx as int];
                    let mut k: usize = 0;
                    while k < joined.len()
                        invariant
                            self.wf(),
                            i < principals@.len(),
                            idx == self.index_of(principals@[i as int]@),
                            idx < self.members@.len(),
                            m == self.members@[idx as int],
                            m.principal@ == principals@[i as int]@,
                            k <= joined@.len(),
                            joined@.map_values(|e: (u64, Join)| e.0).to_set() == m.joined@.dom(),
                            forall|b: int| 0 <= b < joined@.len() ==> m.joined@.contains_key((#[trigger] joined@[b]).0)
                                && joined@[b].1.roles@ == m.joined@[joined@[b].0].roles@,
                            out@.len() == start.len() + k,
                            forall|j: int| 0 <= j < start.len() ==> #[trigger] out@[j] == start[j],
                            forall|b: int| 0 <= b < k ==> (#[trigger] out@[start.len() + b]).principal@ == principals@[i as int]@
                                && out@[start.len() + b].group_id == joined@[b].0
                                && out@[start.len() + b].roles@ == m.roles_in(joined@[b].0),
                        decreases joined.len() - k,
                    {
                        let g = joined[k].0;
                        out.push(JoinedMemberResponse {
                            group_id: g,
                            principal: principals[i].copy(),
                            roles: crate::member::copy_roles(&joined[k].1.roles),
                        });
                        k = k + 1;
                    }
                    proof {
                        assert forall|j: int| 0 <= j < out@.len() implies {
                            &&& self.is_group_joined((#[trigger] out@[j]).principal@, out@[j].group_id)
                            &&& out@[j].roles@ == self.member_of(out@[j].principal@).roles_in(out@[j].group_id)
                            &&& exists|a: int| 0 <= a < n && (#[trigger] principals@[a])@ == out@[j].principal@
                        } by {
                            if j < start.len() {
                                assert(out@[j] == start[j]);
                                let a = choose|a: int| 0 <= a < i && (#[trigger] principals@[a])@ == start[j].principal@;
                            } else {
                                let b = j - start.len();
                                assert(out@[start.len() + b].group_id == joined@[b].0);
                                assert(m.joined@.contains_key(joined@[b].0));
                                assert(principals@[i as int]@ == out@[j].principal@);
                            }
                        }
                        assert forall|a: int, g: u64| 0 <= a < n && #[trigger] self.is_group_joined(principals@[a]@, g)
                            implies exists|j: int| 0 <= j < out@.len() && (#[trigger] out@[j]).principal@ == principals@[a]@ && out@[j].group_id == g by {
                            if a < i {
                                let j = choose|j: int| 0 <= j < start.len() && (#[trigger] start[j]).principal@ == principals@[a]@ && start[j].group_id == g;
                                assert(out@[j] == start[j]);
                            } else {
                                assert(self.member_of(principals@[a]@) == m);
                                assert(m.joined@.dom().contains(g));
                                let ks = joined@.map_values(|e: (u64, Join)| e.0);
                                assert(ks.to_set().contains(g));
                                let b = choose|b: int| 0 <= b < ks.len() && #[trigger] ks[b] == g;
                                assert(joined@[b].0 == g);
                                assert(out@[start.len() + b].group_id == g);
                            }
                        }
                    }
                },
                None => {
                    proof {
                        assert forall|a: int, g: u64| 0 <= a < n && #[trigger] self.is_group_joined(principals@[a]@, g)
                            implies exists|j: int| 0 <= j < out@.len() && (#[trigger] out@[j]).principal@ == principals@[a]@ && out@[j].group_id == g by {
                            if a < i {
                            } else {
                                assert(!self.has_member(principals@[i as int]@));
                            }
                        }
                    }
                },
            }
            i = i + 1;
        }
        out
    }
}


impl GroupCalls {
    /// What the caller holds in a group: its membership and its pending
    /// invite or request, each where present.
    pub fn get_group_caller_data(&self, caller: &Principal, group_id: u64) -> (r: (Option<JoinedMemberResponse>, Option<InviteMemberResponse>))
        requires
            self.wf(),
        ensures
            r.0 is Some == self.is_group_joined(caller@, group_id),
            r.1 is Some == self.is_group_invited(caller@, group_id),
            r.0 matches Some(j) ==> j.principal@ == caller@ && j.group_id == group_id
                && j.roles@ == self.member_of(caller@).roles_in(group_id),
            r.1 matches Some(i) ==> i.principal@ == caller@ && i.group_id == group_id
                && i.invite == self.member_of(caller@).invites@.get(group_id),
    {
        match self.find_member(caller) {
            Some(idx) => {
                let m = &self.members[idx];
                let joined = if m.is_group_joined(&group_id) {
                    Some(JoinedMemberResponse::new(caller.copy(), m.copy(), group_id))
                } else {
                    None
                };
                let invite = if m.is_group_invited(&group_id) {
                    Some(InviteMemberResponse::new(caller.copy(), m.copy(), group_id))
                } else {
                    None
                };
                (joined, invite)
            },
            None => (None, None),
        }
    }
}

} // verus!
