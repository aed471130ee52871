//! The membership state machine: join requests, invites, answers to both,
//! leaving and removal.

use vstd::prelude::*;

use crate::engine::{joined_as_member, GroupCalls};
use crate::error::ApiError;
use crate::member::{Invite, InviteType, JoinedMemberResponse, Member};
use crate::principal::Principal;
use crate::privacy::{gate_admits, validate_gate, GateEvidence, Privacy};

verus! {

broadcast use vstd::std_specs::hash::group_hash_axioms, vstd::seq_lib::group_seq_properties;

impl GroupCalls {
    /// Why a join request of `p` for `g` is refused, if it is.
    pub open spec fn join_error(self, p: Seq<char>, g: u64, ev: GateEvidence) -> Option<ApiError> {
        if !self.has_group(g) {
            Some(ApiError::NotFound)
        } else if self.groups@[g].spec_is_banned(p) {
            Some(ApiError::Unauthorized)
        } else if !self.has_member(p) {
            Some(ApiError::NotFound)
        } else if self.member_of(p).joined@.contains_key(g) || self.member_of(p).invites@.contains_key(g) {
            Some(ApiError::BadRequest)
        } else {
            match self.groups@[g].privacy {
                Privacy::Public => None,
                Privacy::Private => None,
                Privacy::InviteOnly => Some(ApiError::BadRequest),
                Privacy::Gated(gate) => {
                    let required = match self.groups@[g].privacy_gated_type_amount {
                        Some(n) => n,
                        None => 0,
                    };
                    if gate_admits(gate, ev, required) {
                        None
                    } else {
                        Some(ApiError::Unauthorized)
                    }
                },
            }
        }
    }

    /// A principal asks to join a group. `ev` holds what the ownership services
    /// answered for a gated group; it is read only there. `notification_id`
    /// links a pending request to the notice sent about it. A public group, or
    /// a gated one whose gate admits, makes the caller a member with role
    /// "member"; a private one records a pending request of kind
    /// `UserRequest`; an invite-only one refuses.
    pub fn join_group(
        &mut self,
        caller: &Principal,
        group_id: u64,
        ev: &GateEvidence,
        notification_id: Option<u64>,
        now: u64,
    ) -> (r: Result<JoinedMemberResponse, ApiError>)
        requires
            old(self).wf(),
        ensures
            final(self).wf(),
            r is Err <==> old(self).join_error(caller@, group_id, *ev) is Some,
            r matches Err(e) ==> old(self).join_error(caller@, group_id, *ev) == Some(e) && *final(self) == *old(self),
            r is Ok ==> {
                let idx = old(self).index_of(caller@);
                let before = old(self).members@[idx];
                let after = final(self).members@[idx];
                &&& Self::only_record_changed(*old(self), *final(self), idx)
                &&& if old(self).groups@[group_id].privacy is Private {
                    &&& after.joined@ == before.joined@
                    &&& after.invites@ == before.invites@.insert(
                        group_id,
                        Invite { invite_type: InviteType::UserRequest, notification_id, updated_at: now, created_at: now },
                    )
                } else {
                    joined_as_member(before, after, group_id)
                }
            },
    {
        let group = match self.groups.get(&group_id) {
            Some(g) => g,
            None => {
                return Err(ApiError::NotFound);
            },
        };
        if group.is_banned_member(caller) {
            return Err(ApiError::Unauthorized);
        }
        let idx = match self.find_member(caller) {
            Some(i) => i,
            None => {
                return Err(ApiError::NotFound);
            },
        };
        if self.members[idx].is_group_joined(&group_id) || self.members[idx].is_group_invited(&group_id) {
            return Err(ApiError::BadRequest);
        }
        let mut m = self.members[idx].copy();
        let admitted = match &group.privacy {
            Privacy::Public => true,
            Privacy::Private => false,
            Privacy::InviteOnly => {
                return Err(ApiError::BadRequest);
            },
            Privacy::Gated(gate) => {
                let required = match group.privacy_gated_type_amount {
                    Some(n) => n,
                    None => 0,
                };
                if !validate_gate(gate, ev, required) {
                    return Err(ApiError::Unauthorized);
                }
                true
            },
        };
        if admitted {
            m.turn_invite_into_joined(group_id, now);
        } else {
            m.add_invite(group_id, InviteType::UserRequest, notification_id, now);
        }
        let response = JoinedMemberResponse::new(caller.copy(), m.copy(), group_id);
        proof {
            assert(m.invites@ =~= old(self).members@[idx as int].invites@.remove(group_id) || !admitted);
            assert(m.wf());
        }
        self.put_member(idx, m);
        Ok(response)
    }
}


impl GroupCalls {
    /// Why an invite of `p` to `g` by the group is refused, if it is.
    pub open spec fn invite_error(self, p: Seq<char>, g: u64) -> Option<ApiError> {
        if !self.has_member(p) {
            Some(ApiError::NotFound)
        } else if self.member_of(p).joined@.contains_key(g) || self.member_of(p).invites@.contains_key(g) {
            Some(ApiError::BadRequest)
        } else if !self.has_group(g) {
            Some(ApiError::NotFound)
        } else {
            None
        }
    }

    /// The group invites a principal: records a pending invite of kind
    /// `OwnerRequest`, whatever the group's privacy.
    pub fn invite_to_group(&mut self, invitee: &Principal, group_id: u64, notification_id: Option<u64>, now: u64) -> (r: Result<Member, ApiError>)
        requires
            old(self).wf(),
        ensures
            final(self).wf(),
            r is Err <==> old(self).invite_error(invitee@, group_id) is Some,
            r matches Err(e) ==> old(self).invite_error(invitee@, group_id) == Some(e) && *final(self) == *old(self),
            r matches Ok(m) ==> {
                let idx = old(self).index_of(invitee@);
                let before = old(self).members@[idx];
                let after = final(self).members@[idx];
                &&& Self::only_record_changed(*old(self), *final(self), idx)
                &&& after.joined@ == before.joined@
                &&& after.invites@ == before.invites@.insert(
                    group_id,
                    Invite { invite_type: InviteType::OwnerRequest, notification_id, updated_at: now, created_at: now },
                )
                &&& m.joined@ == after.joined@ && m.invites@ == after.invites@
            },
    {
        let idx = match self.find_member(invitee) {
            Some(i) => i,
            None => {
                return Err(ApiError::NotFound);
            },
        };
        if self.members[idx].is_group_joined(&group_id) || self.members[idx].is_group_invited(&group_id) {
            return Err(ApiError::BadRequest);
        }
        if !self.groups.contains_key(&group_id) {
            return Err(ApiError::NotFound);
        }
        let mut m = self.members[idx].copy();
        m.add_invite(group_id, InviteType::OwnerRequest, notification_id, now);
        let out = m.copy();
        self.put_member(idx, m);
        Ok(out)
    }

    /// Why answering the join request of `p` for `g` is refused, if it is.
    pub open spec fn user_request_error(self, p: Seq<char>, g: u64) -> Option<ApiError> {
        if !self.has_group(g) {
            Some(ApiError::NotFound)
        } else if !self.has_member(p) {
            Some(ApiError::NotFound)
        } else if !(self.member_of(p).invites@.contains_key(g)
            && self.member_of(p).invites@[g].invite_type == InviteType::UserRequest) {
            Some(ApiError::BadRequest)
        } else {
            None
        }
    }

    /// A holder of the invite permission answers the join request of
    /// `principal`: on accept the request becomes a membership with role
    /// "member", on decline it is dropped.
    pub fn accept_or_decline_user_request_group_invite(
        &mut self,
        principal: &Principal,
        group_id: u64,
        accept: bool,
        now: u64,
    ) -> (r: Result<Member, ApiError>)
        requires
            old(self).wf(),
        ensures
            final(self).wf(),
            r is Err <==> old(self).user_request_error(principal@, group_id) is Some,
            r matches Err(e) ==> old(self).user_request_error(principal@, group_id) == Some(e) && *final(self) == *old(self),
            r matches Ok(m) ==> {
                let idx = old(self).index_of(principal@);
                let before = old(self).members@[idx];
                let after = final(self).members@[idx];
                &&& Self::only_record_changed(*old(self), *final(self), idx)
                &&& if accept {
                    joined_as_member(before, after, group_id)
                } else {
                    after.joined@ == before.joined@ && after.invites@ == before.invites@.remove(group_id)
                }
                &&& m.joined@ == after.joined@ && m.invites@ == after.invites@
            },
    {
        if !self.groups.contains_key(&group_id) {
            return Err(ApiError::NotFound);
        }
        let idx = match self.find_member(principal) {
            Some(i) => i,
            None => {
                return Err(ApiError::NotFound);
            },
        };
        if !self.members[idx].has_pending_join_request(group_id) {
            return Err(ApiError::BadRequest);
        }
        let mut m = self.members[idx].copy();
        if accept {
            m.turn_invite_into_joined(group_id, now);
        } else {
            m.remove_invite(group_id);
        }
        let out = m.copy();
        self.put_member(idx, m);
        Ok(out)
    }

    /// Why answering the group's invite of `p` to `g` is refused, if it is.
    pub open spec fn owner_request_error(self, p: Seq<char>, g: u64) -> Option<ApiError> {
        if !self.has_member(p) {
            Some(ApiError::NotFound)
        } else if !(self.member_of(p).invites@.contains_key(g)
            && self.member_of(p).invites@[g].invite_type == InviteType::OwnerRequest) {
            Some(ApiError::NotFound)
        } else {
            None
        }
    }

    /// The invitee answers the group's invite: on accept the invite becomes
    /// a membership with role "member", on decline it is dropped.
    pub fn accept_or_decline_owner_request_group_invite(
        &mut self,
        caller: &Principal,
        group_id: u64,
        accept: bool,
        now: u64,
    ) -> (r: Result<Member, ApiError>)
        requires
            old(self).wf(),
        ensures
            final(self).wf(),
            r is Err <==> old(self).owner_request_error(caller@, group_id) is Some,
            r matches Err(e) ==> old(self).owner_request_error(caller@, group_id) == Some(e) && *final(self) == *old(self),
            r matches Ok(m) ==> {
                let idx = old(self).index_of(caller@);
                let before = old(self).members@[idx];
                let after = final(self).members@[idx];
                &&& Self::only_record_changed(*old(self), *final(self), idx)
                &&& if accept {
                    joined_as_member(before, after, group_id)
                } else {
                    after.joined@ == before.joined@ && after.invites@ == before.invites@.remove(group_id)
                }
                &&& m.joined@ == after.joined@ && m.invites@ == after.invites@
            },
    {
        let idx = match self.find_member(caller) {
            Some(i) => i,
            None => {
                return Err(ApiError::NotFound);
            },
        };
        if !self.members[idx].has_pending_group_invite(group_id) {
            return Err(ApiError::NotFound);
        }
        let mut m = self.members[idx].copy();
        if accept {
            m.turn_invite_into_joined(group_id, now);
        } else {
            m.remove_invite(group_id);
        }
        let out = m.copy();
        self.put_member(idx, m);
        Ok(out)
    }

    /// Why `p` may not leave `g`, if it may not.
    pub open spec fn leave_error(self, p: Seq<char>, g: u64) -> Option<ApiError> {
        if !self.has_member(p) {
            Some(ApiError::NotFound)
        } else if !self.member_of(p).joined@.contains_key(g) {
            Some(ApiError::BadRequest)
        } else if !self.has_group(g) {
            Some(ApiError::NotFound)
        } else if self.groups@[g].owner@ == p {
            Some(ApiError::BadRequest)
        } else {
            None
        }
    }

    /// A member leaves a group; the owner cannot.
    pub fn leave_group(&mut self, caller: &Principal, group_id: u64) -> (r: Result<(), ApiError>)
        requires
            old(self).wf(),
        ensures
            final(self).wf(),
            r is Err <==> old(self).leave_error(caller@, group_id) is Some,
            r matches Err(e) ==> old(self).leave_error(caller@, group_id) == Some(e) && *final(self) == *old(self),
            r is Ok ==> {
                let idx = old(self).index_of(caller@);
                &&& Self::only_record_changed(*old(self), *final(self), idx)
                &&& final(self).members@[idx].joined@ == old(self).members@[idx].joined@.remove(group_id)
                &&& final(self).members@[idx].invites@ == old(self).members@[idx].invites@
            },
    {
        let idx = match self.find_member(caller) {
            Some(i) => i,
            None => {
                return Err(ApiError::NotFound);
            },
        };
        if !self.members[idx].is_group_joined(&group_id) {
            return Err(ApiError::BadRequest);
        }
        match self.groups.get(&group_id) {
            Some(g) => {
                if g.owner.same(caller) {
                    return Err(ApiError::BadRequest);
                }
            },
            None => {
                return Err(ApiError::NotFound);
            },
        }
        let mut m = self.members[idx].copy();
        m.remove_joined(group_id);
        self.put_member(idx, m);
        Ok(())
    }

    /// Why the pending invite of `p` for `g` cannot be dropped, if it cannot.
    pub open spec fn invite_removal_error(self, p: Seq<char>, g: u64) -> Option<ApiError> {
        if !self.has_member(p) {
            Some(ApiError::NotFound)
        } else if !self.member_of(p).invites@.contains_key(g) {
            Some(ApiError::BadRequest)
        } else {
            None
        }
    }

    /// Drops the pending invite of `principal` for a group, of either kind.
    fn drop_invite(&mut self, principal: &Principal, group_id: u64) -> (r: Result<(), ApiError>)
        requires
            old(self).wf(),
        ensures
            final(self).wf(),
            r is Err <==> old(self).invite_removal_error(principal@, group_id) is Some,
            r matches Err(e) ==> old(self).invite_removal_error(principal@, group_id) == Some(e) && *final(self) == *old(self),
            r is Ok ==> {
                let idx = old(self).index_of(principal@);
                &&& Self::only_record_changed(*old(self), *final(self), idx)
                &&& final(self).members@[idx].joined@ == old(self).members@[idx].joined@
                &&& final(self).members@[idx].invites@ == old(self).members@[idx].invites@.remove(group_id)
            },
    {
        let idx = match self.find_member(principal) {
            Some(i) => i,
            None => {
                return Err(ApiError::NotFound);
            },
        };
        if !self.members[idx].is_group_invited(&group_id) {
            return Err(ApiError::BadRequest);
        }
        let mut m = self.members[idx].copy();
        m.remove_invite(group_id);
        self.put_member(idx, m);
        Ok(())
    }

    /// The caller withdraws its own pending invite or request.
    pub fn remove_invite(&mut self, caller: &Principal, group_id: u64) -> (r: Result<(), ApiError>)
        requires
            old(self).wf(),
        ensures
            final(self).wf(),
            r is Err <==> old(self).invite_removal_error(caller@, group_id) is Some,
            r matches Err(e) ==> old(self).invite_removal_error(caller@, group_id) == Some(e) && *final(self) == *old(self),
            r is Ok ==> {
                let idx = old(self).index_of(caller@);
                &&& Self::only_record_changed(*old(self), *final(self), idx)
                &&& final(self).members@[idx].joined@ == old(self).members@[idx].joined@
                &&& final(self).members@[idx].invites@ == old(self).members@[idx].invites@.remove(group_id)
            },
    {
        self.drop_invite(caller, group_id)
    }

    /// An administrator drops the pending invite of `principal`.
    pub fn remove_member_invite_from_group(&mut self, principal: &Principal, group_id: u64) -> (r: Result<(), ApiError>)
        requires
            old(self).wf(),
        ensures
            final(self).wf(),
            r is Err <==> old(self).invite_removal_error(principal@, group_id) is Some,
            r matches Err(e) ==> old(self).invite_removal_error(principal@, group_id) == Some(e) && *final(self) == *old(self),
            r is Ok ==> {
                let idx = old(self).index_of(principal@);
                &&& Self::only_record_changed(*old(self), *final(self), idx)
                &&& final(self).members@[idx].joined@ == old(self).members@[idx].joined@
                &&& final(self).members@[idx].invites@ == old(self).members@[idx].invites@.remove(group_id)
            },
    {
        self.drop_invite(principal, group_id)
    }

    /// Why `p` cannot be removed from `g`, if it cannot.
    pub open spec fn member_removal_error(self, p: Seq<char>, g: u64) -> Option<ApiError> {
        if !self.has_member(p) {
            Some(ApiError::NotFound)
        } else if !self.member_of(p).joined@.contains_key(g) {
            Some(ApiError::BadRequest)
        } else {
            None
        }
    }

    /// An administrator removes a member from a group.
    pub fn remove_member_from_group(&mut self, principal: &Principal, group_id: u64) -> (r: Result<(), ApiError>)
        requires
            old(self).wf(),
        ensures
            final(self).wf(),
            r is Err <==> old(self).member_removal_error(principal@, group_id) is Some,
            r matches Err(e) ==> old(self).member_removal_error(principal@, group_id) == Some(e) && *final(self) == *old(self),
            r is Ok ==> {
                let idx = old(self).index_of(principal@);
                &&& Self::only_record_changed(*old(self), *final(self), idx)
                &&& final(self).members@[idx].joined@ == old(self).members@[idx].joined@.remove(group_id)
                &&& final(self).members@[idx].invites@ == old(self).members@[idx].invites@
            },
    {
        let idx = match self.find_member(principal) {
            Some(i) => i,
            None => {
                return Err(ApiError::NotFound);
            },
        };
        if !self.members[idx].is_group_joined(&group_id) {
            return Err(ApiError::BadRequest);
        }
        let mut m = self.members[idx].copy();
        m.remove_joined(group_id);
        self.put_member(idx, m);
        Ok(())
    }
}

} // verus!
