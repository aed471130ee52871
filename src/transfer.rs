//! Two-step ownership transfer: request, cancel, answer, hand-over.

use vstd::prelude::*;

use crate::engine::{ids_of, only_member_role, GroupCalls};
use crate::error::ApiError;
use crate::group::GroupTransferRequest;
use crate::member::owner_role;
use crate::principal::Principal;

verus! {

broadcast use vstd::std_specs::hash::group_hash_axioms, vstd::seq_lib::group_seq_properties;

impl GroupCalls {
    /// `v` lists each pending transfer whose sender (`to_side` false) or
    /// recipient (`to_side` true) is `p`, and no other.
    pub open spec fn lists_transfers(self, p: Seq<char>, to_side: bool, v: Seq<(u64, GroupTransferRequest)>) -> bool {
        &&& forall|g: u64| (#[trigger] self.transfer_requests@.contains_key(g)
            && (if to_side { self.transfer_requests@[g].to@ } else { self.transfer_requests@[g].from@ }) == p)
            <==> exists|j: int| 0 <= j < v.len() && (#[trigger] v[j]).0 == g
        &&& forall|j: int| 0 <= j < v.len() ==> self.transfer_requests@.contains_key((#[trigger] v[j]).0)
            && v[j].1 == self.transfer_requests@[v[j].0]
    }

    fn transfers_of(&self, p: &Principal, to_side: bool) -> (r: Vec<(u64, GroupTransferRequest)>)
        ensures
            self.lists_transfers(p@, to_side, r@),
    {
        let ids = ids_of(&self.transfer_requests);
        let mut out: Vec<(u64, GroupTransferRequest)> = Vec::new();
        let mut i: usize = 0;
        while i < ids.len()
            invariant
                i <= ids@.len(),
                ids@.to_set() == self.transfer_requests@.dom(),
                forall|g: u64| (#[trigger] self.transfer_requests@.contains_key(g)
                    && (if to_side { self.transfer_requests@[g].to@ } else { self.transfer_requests@[g].from@ }) == p@
                    && exists|k: int| 0 <= k < i && ids@[k] == g)
                    <==> exists|j: int| 0 <= j < out@.len() && (#[trigger] out@[j]).0 == g,
                forall|j: int| 0 <= j < out@.len() ==> self.transfer_requests@.contains_key((#[trigger] out@[j]).0)
                    && out@[j].1 == self.transfer_requests@[out@[j].0],
            decreases ids.len() - i,
        {
            let id = ids[i];
            let ghost before = out@;
            proof {
                assert(ids@.to_set().contains(id));
            }
            match self.transfer_requests.get(&id) {
                Some(req) => {
                    let side = if to_side { &req.to } else { &req.from };
                    if side.same(p) {
                        out.push((id, req.copy()));
                    }
                },
                None => {},
            }
            proof {
                let n = i + 1;
                assert forall|g: u64| (#[trigger] self.transfer_requests@.contains_key(g)
                    && (if to_side { self.transfer_requests@[g].to@ } else { self.transfer_requests@[g].from@ }) == p@
                    && exists|k: int| 0 <= k < n && ids@[k] == g)
                    <==> exists|j: int| 0 <= j < out@.len() && (#[trigger] out@[j]).0 == g by {
                    if self.transfer_requests@.contains_key(g)
                        && (if to_side { self.transfer_requests@[g].to@ } else { self.transfer_requests@[g].from@ }) == p@
                        && exists|k: int| 0 <= k < n && ids@[k] == g {
                        let k = choose|k: int| 0 <= k < n && ids@[k] == g;
                        if k < i {
                            let j = choose|j: int| 0 <= j < before.len() && (#[trigger] before[j]).0 == g;
                            assert(out@[j] == before[j]);
                        } else {
                            assert(out@[out@.len() - 1].0 == g);
                        }
                    }
                    if exists|j: int| 0 <= j < out@.len() && (#[trigger] out@[j]).0 == g {
                        let j = choose|j: int| 0 <= j < out@.len() && (#[trigger] out@[j]).0 == g;
                        if j < before.len() {
                            assert(out@[j] == before[j]);
                            assert(exists|j2: int| 0 <= j2 < before.len() && (#[trigger] before[j2]).0 == g);
                        } else {
                            assert(ids@[i as int] == g);
                        }
                    }
                }
            }
            i = i + 1;
        }
        proof {
            assert forall|g: u64| (#[trigger] self.transfer_requests@.contains_key(g)
                && (if to_side { self.transfer_requests@[g].to@ } else { self.transfer_requests@[g].from@ }) == p@)
                <==> exists|j: int| 0 <= j < out@.len() && (#[trigger] out@[j]).0 == g by {
                if self.transfer_requests@.contains_key(g) {
                    assert(ids@.to_set().contains(g));
                    let k = choose|k: int| 0 <= k < ids@.len() && ids@[k] == g;
                    assert(exists|k2: int| 0 <= k2 < i && ids@[k2] == g);
                }
            }
        }
        out
    }

    /// The pending transfers that `principal` sent.
    pub fn get_from_group_transfer_requests(&self, principal: &Principal) -> (r: Vec<(u64, GroupTransferRequest)>)
        ensures
            self.lists_transfers(principal@, false, r@),
    {
        self.transfers_of(principal, false)
    }

    /// The pending transfers addressed to `principal`.
    pub fn get_to_group_transfer_requests(&self, principal: &Principal) -> (r: Vec<(u64, GroupTransferRequest)>)
        ensures
            self.lists_transfers(principal@, true, r@),
    {
        self.transfers_of(principal, true)
    }

    /// Why a transfer of `g` from `from` to `to` cannot be requested, if it
    /// cannot.
    pub open spec fn transfer_request_error(self, g: u64, from: Seq<char>, to: Seq<char>) -> Option<ApiError> {
        if self.transfer_requests@.contains_key(g) {
            Some(ApiError::Duplicate)
        } else if !self.has_group(g) {
            Some(ApiError::NotFound)
        } else if self.groups@[g].owner@ != from {
            Some(ApiError::Unauthorized)
        } else if !self.has_member(to) {
            Some(ApiError::NotFound)
        } else if !self.member_of(to).joined@.contains_key(g) {
            Some(ApiError::BadRequest)
        } else {
            None
        }
    }

    /// The owner asks to hand a group over to one of its members.
    pub fn create_transfer_group_ownership_request(&mut self, group_id: u64, from: Principal, to: Principal, now: u64) -> (r: Result<(), ApiError>)
        requires
            old(self).wf(),
        ensures
            final(self).wf(),
            r is Err <==> old(self).transfer_request_error(group_id, from@, to@) is Some,
            r matches Err(e) ==> old(self).transfer_request_error(group_id, from@, to@) == Some(e) && *final(self) == *old(self),
            r is Ok ==> {
                &&& final(self).transfer_requests@ == old(self).transfer_requests@.insert(
                    group_id,
                    GroupTransferRequest { from, to, created_on: now },
                )
                &&& final(self).groups@ == old(self).groups@
                &&& final(self).members == old(self).members
            },
    {
        if self.transfer_requests.contains_key(&group_id) {
            return Err(ApiError::Duplicate);
        }
        match self.groups.get(&group_id) {
            Some(g) => {
                if !g.owner.same(&from) {
                    return Err(ApiError::Unauthorized);
                }
            },
            None => {
                return Err(ApiError::NotFound);
            },
        }
        let idx = match self.find_member(&to) {
            Some(i) => i,
            None => {
                return Err(ApiError::NotFound);
            },
        };
        if !self.members[idx].is_group_joined(&group_id) {
            return Err(ApiError::BadRequest);
        }
        self.transfer_requests.insert(group_id, GroupTransferRequest::new(from, to, now));
        Ok(())
    }

    /// The owner withdraws a pending transfer.
    pub fn cancel_transfer_group_ownership_request(&mut self, group_id: u64, from: &Principal) -> (r: Result<bool, ApiError>)
        requires
            old(self).wf(),
        ensures
            final(self).wf(),
            r is Err <==> (!old(self).transfer_requests@.contains_key(group_id) || old(self).groups@[group_id].owner@ != from@),
            r matches Err(e) ==> *final(self) == *old(self) && e == if !old(self).transfer_requests@.contains_key(group_id) {
                ApiError::NotFound
            } else {
                ApiError::Unauthorized
            },
            r is Ok ==> r == Ok::<bool, ApiError>(true)
                && final(self).transfer_requests@ == old(self).transfer_requests@.remove(group_id)
                && final(self).groups@ == old(self).groups@ && final(self).members == old(self).members,
    {
        if !self.transfer_requests.contains_key(&group_id) {
            return Err(ApiError::NotFound);
        }
        match self.groups.get(&group_id) {
            Some(g) => {
                if !g.owner.same(from) {
                    return Err(ApiError::Unauthorized);
                }
            },
            None => {
                return Err(ApiError::NotFound);
            },
        }
        self.transfer_requests.remove(&group_id);
        Ok(true)
    }

    /// Why a transfer of `g` from `from` to `to` cannot be carried out, if
    /// it cannot.
    pub open spec fn transfer_error(self, g: u64, from: Seq<char>, to: Seq<char>) -> Option<ApiError> {
        if !self.has_group(g) {
            Some(ApiError::NotFound)
        } else if self.groups@[g].owner@ != from {
            Some(ApiError::Unauthorized)
        } else if !self.has_member(from) || !self.has_member(to) {
            Some(ApiError::NotFound)
        } else {
            None
        }
    }

    /// The effect of a carried-out transfer of `g` from `from` to `to`: the
    /// owner is `to`, `from` holds only "member" and `to` only "owner" in
    /// `g`, the pending transfer is gone, and nothing else changed.
    pub open spec fn transferred(old: GroupCalls, new: GroupCalls, g: u64, from: Principal, to: Principal) -> bool {
        let fi = old.index_of(from@);
        let ti = old.index_of(to@);
        &&& new.groups@.dom() == old.groups@.dom()
        &&& forall|h: u64| h != g ==> #[trigger] new.groups@.get(h) == old.groups@.get(h)
        &&& new.groups@[g].owner@ == to@
        &&& new.groups@[g].roles == old.groups@[g].roles
        &&& new.groups@[g].special_members == old.groups@[g].special_members
        &&& new.transfer_requests@ == old.transfer_requests@.remove(g)
        &&& new.members@.len() == old.members@.len()
        &&& forall|j: int| 0 <= j < old.members@.len() && j != fi && j != ti ==> #[trigger] new.members@[j] == old.members@[j]
        &&& new.members@[ti].principal == old.members@[ti].principal
        &&& new.members@[fi].principal == old.members@[fi].principal
        &&& new.members@[ti].invites@ == old.members@[ti].invites@
        &&& new.members@[fi].invites@ == old.members@[fi].invites@
        &&& new.members@[ti].joined@.dom() == old.members@[ti].joined@.dom()
        &&& new.members@[fi].joined@.dom() == old.members@[fi].joined@.dom()
        &&& old.members@[ti].joined@.contains_key(g) ==> new.members@[ti].roles_in(g).len() == 1
            && new.members@[ti].roles_in(g)[0]@ == owner_role()
        &&& (fi != ti && old.members@[fi].joined@.contains_key(g)) ==> only_member_role(new.members@[fi].roles_in(g))
        &&& forall|h: u64| h != g ==> #[trigger] new.members@[ti].joined@.get(h) == old.members@[ti].joined@.get(h)
        &&& forall|h: u64| h != g ==> #[trigger] new.members@[fi].joined@.get(h) == old.members@[fi].joined@.get(h)
    }

    /// Hands a group from `from` over to `to`.
    pub fn transfer_group_ownership(&mut self, group_id: u64, from: &Principal, to: &Principal) -> (r: Result<bool, ApiError>)
        requires
            old(self).wf(),
        ensures
            final(self).wf(),
            r is Err <==> old(self).transfer_error(group_id, from@, to@) is Some,
            r matches Err(e) ==> old(self).transfer_error(group_id, from@, to@) == Some(e) && *final(self) == *old(self),
            r is Ok ==> r == Ok::<bool, ApiError>(true) && Self::transferred(*old(self), *final(self), group_id, *from, *to),
    {
        match self.groups.get(&group_id) {
            Some(g) => {
                if !g.owner.same(from) {
                    return Err(ApiError::Unauthorized);
                }
            },
            None => {
                return Err(ApiError::NotFound);
            },
        }
        let fi = match self.find_member(from) {
            Some(i) => i,
            None => {
                return Err(ApiError::NotFound);
            },
        };
        let ti = match self.find_member(to) {
            Some(i) => i,
            None => {
                return Err(ApiError::NotFound);
            },
        };
        let mut group = match self.groups.remove(&group_id) {
            Some(g) => g,
            None => {
                return Err(ApiError::NotFound);
            },
        };
        group.owner = to.copy();
        self.groups.insert(group_id, group);
        proof {
            assert(self.groups@.dom() =~= old(self).groups@.dom());
        }
        let mut old_owner = self.members[fi].copy();
        let mut member_roles: Vec<String> = Vec::new();
        member_roles.push("member".to_owned());
        old_owner.replace_roles(&group_id, member_roles);
        self.put_member(fi, old_owner);
        let ghost mid = self.members@;
        let mut new_owner = self.members[ti].copy();
        let mut owner_roles: Vec<String> = Vec::new();
        owner_roles.push("owner".to_owned());
        new_owner.replace_roles(&group_id, owner_roles);
        self.put_member(ti, new_owner);
        self.transfer_requests.remove(&group_id);
        proof {
            reveal_strlit("member");
            reveal_strlit("owner");
            assert(self.members@[fi as int] == mid[fi as int] || fi == ti);
        }
        Ok(true)
    }

    /// The recipient answers a pending transfer. Where the recipient is no
    /// longer a member the request is dropped and refused. On accept the
    /// group is handed over; on decline only the request is dropped.
    pub fn accept_or_decline_transfer_group_ownership_request(&mut self, caller: &Principal, group_id: u64, accept: bool) -> (r: Result<bool, ApiError>)
        requires
            old(self).wf(),
        ensures
            final(self).wf(),
            !old(self).transfer_requests@.contains_key(group_id) ==> r == Err::<bool, ApiError>(ApiError::NotFound) && *final(self) == *old(self),
            old(self).transfer_requests@.contains_key(group_id) ==> {
                let req = old(self).transfer_requests@[group_id];
                if req.to@ != caller@ {
                    r == Err::<bool, ApiError>(ApiError::Unauthorized) && *final(self) == *old(self)
                } else if !old(self).has_member(req.to@) {
                    r == Err::<bool, ApiError>(ApiError::NotFound) && *final(self) == *old(self)
                } else if !old(self).member_of(req.to@).joined@.contains_key(group_id) {
                    &&& r == Err::<bool, ApiError>(ApiError::BadRequest)
                    &&& final(self).transfer_requests@ == old(self).transfer_requests@.remove(group_id)
                    &&& final(self).groups@ == old(self).groups@ && final(self).members == old(self).members
                } else if !accept {
                    &&& r == Ok::<bool, ApiError>(true)
                    &&& final(self).transfer_requests@ == old(self).transfer_requests@.remove(group_id)
                    &&& final(self).groups@ == old(self).groups@ && final(self).members == old(self).members
                } else {
                    &&& (r is Err <==> old(self).transfer_error(group_id, req.from@, req.to@) is Some)
                    &&& (r matches Err(e) ==> old(self).transfer_error(group_id, req.from@, req.to@) == Some(e) && *final(self) == *old(self))
                    &&& (r is Ok ==> r == Ok::<bool, ApiError>(true) && Self::transferred(*old(self), *final(self), group_id, req.from, req.to))
                }
            },
    {
        let (from, to) = match self.transfer_requests.get(&group_id) {
            Some(req) => (req.from.copy(), req.to.copy()),
            None => {
                return Err(ApiError::NotFound);
            },
        };
        if !to.same(caller) {
            return Err(ApiError::Unauthorized);
        }
        let idx = match self.find_member(&to) {
            Some(i) => i,
            None => {
                return Err(ApiError::NotFound);
            },
        };
        if !self.members[idx].is_group_joined(&group_id) {
            self.transfer_requests.remove(&group_id);
            return Err(ApiError::BadRequest);
        }
        if accept {
            self.transfer_group_ownership(group_id, &from, &to)
        } else {
            self.transfer_requests.remove(&group_id);
            Ok(true)
        }
    }
}

} // verus!
