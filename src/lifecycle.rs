//! Group lifecycle: creation, edits, deletion, wallets, special relations,
//! and lookups of groups.

use vstd::prelude::*;
use vstd::string::StrSliceExecFns;

use crate::engine::{ids_of, GroupCalls, USER_GROUP_CREATION_LIMIT};
use crate::error::ApiError;
use crate::group::{
    group_fields_valid, has_pair, without_key, Group, GroupValidation, PostGroup, UpdateGroup,
};
use crate::member::{owned_groups, owner_role, InviteType, Join};
use crate::principal::Principal;
use crate::privacy::Privacy;
use crate::text::{lower_of, lowercase};

verus! {

broadcast use vstd::std_specs::hash::group_hash_axioms, vstd::seq_lib::group_seq_properties;

impl GroupCalls {
    /// Some stored group has the same name, compared in lower case.
    pub open spec fn name_taken(self, name: Seq<char>) -> bool {
        exists|g: u64| #[trigger] self.groups@.contains_key(g) && lower_of(self.groups@[g].name@) == lower_of(name)
    }

    fn is_name_taken(&self, name: &String) -> (r: bool)
        ensures
            r == self.name_taken(name@),
    {
        let wanted = lowercase(name.as_str());
        let ids = ids_of(&self.groups);
        let mut i: usize = 0;
        while i < ids.len()
            invariant
                i <= ids@.len(),
                ids@.to_set() == self.groups@.dom(),
                wanted@ == lower_of(name@),
                forall|j: int| 0 <= j < i ==> lower_of(self.groups@[#[trigger] ids@[j]].name@) != lower_of(name@),
            decreases ids.len() - i,
        {
            let id = ids[i];
            proof {
                assert(ids@.to_set().contains(id));
            }
            match self.groups.get(&id) {
                Some(g) => {
                    let lower = lowercase(g.name.as_str());
                    if lower == wanted {
                        return true;
                    }
                },
                None => {},
            }
            i = i + 1;
        }
        proof {
            assert forall|g: u64| #[trigger] self.groups@.contains_key(g) implies lower_of(self.groups@[g].name@) != lower_of(name@) by {
                assert(ids@.to_set().contains(g));
                let j = choose|j: int| 0 <= j < ids@.len() && ids@[j] == g;
            }
        }
        false
    }

    /// Why creating a group is refused, if it is.
    pub open spec fn add_group_error(self, caller: Seq<char>, post: PostGroup) -> Option<ApiError> {
        if !group_fields_valid(post.name@, post.description@, post.website@, post.tags@.len()) {
            Some(ApiError::BadRequest)
        } else if self.name_taken(post.name@) {
            Some(ApiError::Duplicate)
        } else if !self.has_member(caller) {
            Some(ApiError::NotFound)
        } else if owned_groups(self.member_of(caller)).len() >= USER_GROUP_CREATION_LIMIT {
            Some(ApiError::BadRequest)
        } else if self.next_group_id == u64::MAX {
            Some(ApiError::Unsupported)
        } else {
            None
        }
    }

    /// Creates a group owned by `caller`, who joins it with role "owner".
    /// A gated group may be created by anyone: its gate binds joiners only.
    pub fn add_group(&mut self, caller: &Principal, post_group: PostGroup, now: u64) -> (r: Result<u64, ApiError>)
        requires
            old(self).wf(),
        ensures
            final(self).wf(),
            r is Err <==> old(self).add_group_error(caller@, post_group) is Some,
            r matches Err(e) ==> old(self).add_group_error(caller@, post_group) == Some(e) && *final(self) == *old(self),
            r matches Ok(id) ==> {
                let idx = old(self).index_of(caller@);
                let before = old(self).members@[idx];
                let after = final(self).members@[idx];
                let g = final(self).groups@[id];
                &&& id == old(self).next_group_id
                &&& !old(self).groups@.contains_key(id)
                &&& final(self).groups@.dom() == old(self).groups@.dom().insert(id)
                &&& forall|h: u64| h != id ==> #[trigger] final(self).groups@.get(h) == old(self).groups@.get(h)
                &&& g.name == post_group.name && g.description == post_group.description
                &&& g.website == post_group.website && g.tags == post_group.tags
                &&& g.privacy == post_group.privacy
                &&& g.privacy_gated_type_amount == post_group.privacy_gated_type_amount
                &&& g.owner@ == caller@ && g.roles@.len() == 0
                &&& g.created_on == now
                &&& final(self).members@.len() == old(self).members@.len()
                &&& forall|j: int| 0 <= j < old(self).members@.len() && j != idx ==> #[trigger] final(self).members@[j] == old(self).members@[j]
                &&& after.principal == before.principal
                &&& after.invites@ == before.invites@
                &&& after.joined@.dom() == before.joined@.dom().insert(id)
                &&& forall|h: u64| h != id ==> #[trigger] after.joined@.get(h) == before.joined@.get(h)
                &&& after.roles_in(id).len() == 1 && after.roles_in(id)[0]@ == owner_role()
                &&& final(self).transfer_requests@ == old(self).transfer_requests@
            },
    {
        if GroupValidation::validate_post_group(&post_group).is_err() {
            return Err(ApiError::BadRequest);
        }
        if self.is_name_taken(&post_group.name) {
            return Err(ApiError::Duplicate);
        }
        let idx = match self.find_member(caller) {
            Some(i) => i,
            None => {
                return Err(ApiError::NotFound);
            },
        };
        if self.members[idx].get_owned().len() >= USER_GROUP_CREATION_LIMIT {
            return Err(ApiError::BadRequest);
        }
        if self.next_group_id == u64::MAX {
            return Err(ApiError::Unsupported);
        }
        let id = self.next_group_id;
        proof {
            assert(!self.groups@.contains_key(id));
        }
        let group = Group::from_post(post_group, caller, now);
        self.groups.insert(id, group);
        self.next_group_id = id + 1;
        let mut m = self.members[idx].copy();
        let mut roles: Vec<String> = Vec::new();
        roles.push("owner".to_owned());
        m.add_joined(id, roles, now);
        proof {
            reveal_strlit("owner");
            assert(m.joined@.dom() =~= old(self).members@[idx as int].joined@.dom().insert(id));
            assert forall|i: int, g: u64| 0 <= i < self.members@.len() && #[trigger] self.members@[i].joined@.contains_key(g)
                implies self.groups@.contains_key(g) by {}
            assert forall|i: int, g: u64| 0 <= i < self.members@.len() && #[trigger] self.members@[i].invites@.contains_key(g)
                implies self.groups@.contains_key(g) by {}
        }
        self.put_member(idx, m);
        Ok(id)
    }

    /// The stored group `id`.
    pub fn get_group(&self, id: u64) -> (r: Result<&Group, ApiError>)
        ensures
            r is Err <==> !self.has_group(id),
            r matches Err(e) ==> e == ApiError::NotFound,
            r matches Ok(g) ==> *g == self.groups@[id],
    {
        match self.groups.get(&id) {
            Some(g) => Ok(g),
            None => Err(ApiError::NotFound),
        }
    }

    /// Replaces the editable fields of a group. The name is not checked
    /// again for uniqueness.
    pub fn edit_group(&mut self, id: u64, update_group: UpdateGroup, now: u64) -> (r: Result<(), ApiError>)
        requires
            old(self).wf(),
        ensures
            final(self).wf(),
            r is Err <==> (!old(self).has_group(id)
                || !group_fields_valid(update_group.name@, update_group.description@, update_group.website@, update_group.tags@.len())),
            r matches Err(e) ==> *final(self) == *old(self) && e == if !old(self).has_group(id) { ApiError::NotFound } else { ApiError::BadRequest },
            r is Ok ==> {
                let g = final(self).groups@[id];
                let before = old(self).groups@[id];
                &&& final(self).groups@.dom() == old(self).groups@.dom()
                &&& forall|h: u64| h != id ==> #[trigger] final(self).groups@.get(h) == old(self).groups@.get(h)
                &&& g.name == update_group.name && g.description == update_group.description
                &&& g.website == update_group.website && g.tags == update_group.tags
                &&& g.privacy == update_group.privacy
                &&& g.privacy_gated_type_amount == update_group.privacy_gated_type_amount
                &&& g.owner == before.owner && g.roles == before.roles
                &&& g.special_members == before.special_members && g.wallets == before.wallets
                &&& g.updated_on == now
                &&& final(self).members == old(self).members
                &&& final(self).transfer_requests@ == old(self).transfer_requests@
            },
    {
        if !self.groups.contains_key(&id) {
            return Err(ApiError::NotFound);
        }
        if GroupValidation::validate_update_group(&update_group).is_err() {
            return Err(ApiError::BadRequest);
        }
        let mut group = match self.groups.remove(&id) {
            Some(g) => g,
            None => {
                return Err(ApiError::NotFound);
            },
        };
        group.update(update_group, now);
        self.groups.insert(id, group);
        proof {
            assert(self.groups@.dom() =~= old(self).groups@.dom());
        }
        Ok(())
    }

    /// Deletes a group: every member and invitee loses its join or invite
    /// of it, a pending transfer of it is dropped, and the group itself is
    /// removed last.
    pub fn delete_group(&mut self, group_id: u64) -> (r: Result<(), ApiError>)
        requires
            old(self).wf(),
        ensures
            final(self).wf(),
            r is Err <==> !old(self).has_group(group_id),
            r matches Err(e) ==> e == ApiError::NotFound && *final(self) == *old(self),
            r is Ok ==> {
                &&& final(self).groups@ == old(self).groups@.remove(group_id)
                &&& final(self).transfer_requests@ == old(self).transfer_requests@.remove(group_id)
                &&& final(self).members@.len() == old(self).members@.len()
                &&& forall|j: int| 0 <= j < old(self).members@.len() ==> {
                    &&& (#[trigger] final(self).members@[j]).principal == old(self).members@[j].principal
                    &&& final(self).members@[j].joined@ == old(self).members@[j].joined@.remove(group_id)
                    &&& final(self).members@[j].invites@ == old(self).members@[j].invites@.remove(group_id)
                }
            },
    {
        if !self.groups.contains_key(&group_id) {
            return Err(ApiError::NotFound);
        }
        let mut i: usize = 0;
        while i < self.members.len()
            invariant
                i <= self.members@.len(),
                self.members@.len() == old(self).members@.len(),
                self.groups@ == old(self).groups@,
                self.transfer_requests@ == old(self).transfer_requests@,
                self.next_group_id == old(self).next_group_id,
                old(self).wf(),
                forall|j: int| 0 <= j < i ==> {
                    &&& (#[trigger] self.members@[j]).principal == old(self).members@[j].principal
                    &&& self.members@[j].joined@ == old(self).members@[j].joined@.remove(group_id)
                    &&& self.members@[j].invites@ == old(self).members@[j].invites@.remove(group_id)
                },
                forall|j: int| i <= j < self.members@.len() ==> #[trigger] self.members@[j] == old(self).members@[j],
            decreases self.members.len() - i,
        {
            let mut m = self.members[i].copy();
            m.remove_joined(group_id);
            m.remove_invite(group_id);
            self.members.set(i, m);
            i = i + 1;
        }
        self.transfer_requests.remove(&group_id);
        self.groups.remove(&group_id);
        proof {
            assert forall|a: int, b: int|
                0 <= a < self.members@.len() && 0 <= b < self.members@.len()
                    && (#[trigger] self.members@[a]).principal@ == (#[trigger] self.members@[b]).principal@
                implies a == b by {
                assert(self.members@[a].principal == old(self).members@[a].principal);
                assert(self.members@[b].principal == old(self).members@[b].principal);
            }
            assert forall|a: int| 0 <= a < self.members@.len() implies (#[trigger] self.members@[a]).wf() by {
                assert(old(self).members@[a].wf());
            }
            assert forall|a: int, g: u64| 0 <= a < self.members@.len() && #[trigger] self.members@[a].joined@.contains_key(g)
                implies self.groups@.contains_key(g) by {
                assert(old(self).members@[a].joined@.contains_key(g));
            }
            assert forall|a: int, g: u64| 0 <= a < self.members@.len() && #[trigger] self.members@[a].invites@.contains_key(g)
                implies self.groups@.contains_key(g) by {
                assert(old(self).members@[a].invites@.contains_key(g));
            }
        }
        Ok(())
    }
}


impl GroupCalls {
    /// Links a wallet to a group, replacing an earlier link of it.
    pub fn add_wallet_to_group(&mut self, group_id: u64, wallet_canister: Principal, description: String) -> (r: Result<(), ApiError>)
        requires
            old(self).wf(),
        ensures
            final(self).wf(),
            r is Err <==> !old(self).has_group(group_id),
            r matches Err(e) ==> e == ApiError::NotFound && *final(self) == *old(self),
            r is Ok ==> {
                let before = old(self).groups@[group_id].wallets@;
                let after = final(self).groups@[group_id].wallets@;
                &&& Self::only_group_changed(*old(self), *final(self), group_id)
                &&& after.len() == without_key(before, wallet_canister@).len() + 1
                &&& after.last().0 == wallet_canister && after.last().1 == description
                &&& forall|i: int| 0 <= i < after.len() - 1 ==> #[trigger] after[i].0@ == without_key(before, wallet_canister@)[i].0@
                    && after[i].1@ == without_key(before, wallet_canister@)[i].1@
            },
    {
        if !self.groups.contains_key(&group_id) {
            return Err(ApiError::NotFound);
        }
        let mut group = match self.groups.remove(&group_id) {
            Some(g) => g,
            None => {
                return Err(ApiError::NotFound);
            },
        };
        group.add_wallet(wallet_canister, description);
        self.groups.insert(group_id, group);
        proof {
            assert(self.groups@.dom() =~= old(self).groups@.dom());
        }
        Ok(())
    }

    /// Unlinks a wallet from a group.
    pub fn remove_wallet_from_group(&mut self, group_id: u64, wallet_canister: &Principal) -> (r: Result<(), ApiError>)
        requires
            old(self).wf(),
        ensures
            final(self).wf(),
            r is Err <==> !old(self).has_group(group_id),
            r matches Err(e) ==> e == ApiError::NotFound && *final(self) == *old(self),
            r is Ok ==> {
                let before = old(self).groups@[group_id].wallets@;
                let after = final(self).groups@[group_id].wallets@;
                &&& Self::only_group_changed(*old(self), *final(self), group_id)
                &&& after.len() == without_key(before, wallet_canister@).len()
                &&& forall|i: int| 0 <= i < after.len() ==> #[trigger] after[i].0@ == without_key(before, wallet_canister@)[i].0@
                    && after[i].1@ == without_key(before, wallet_canister@)[i].1@
            },
    {
        if !self.groups.contains_key(&group_id) {
            return Err(ApiError::NotFound);
        }
        let mut group = match self.groups.remove(&group_id) {
            Some(g) => g,
            None => {
                return Err(ApiError::NotFound);
            },
        };
        group.remove_wallet(wallet_canister);
        self.groups.insert(group_id, group);
        proof {
            assert(self.groups@.dom() =~= old(self).groups@.dom());
        }
        Ok(())
    }

    /// Relates a principal to a group (for example as banned), replacing an
    /// earlier relation of it.
    pub fn add_special_member_to_group(&mut self, group_id: u64, principal: Principal, relation: String) -> (r: Result<(), ApiError>)
        requires
            old(self).wf(),
        ensures
            final(self).wf(),
            r is Err <==> !old(self).has_group(group_id),
            r matches Err(e) ==> e == ApiError::NotFound && *final(self) == *old(self),
            r is Ok ==> {
                let after = final(self).groups@[group_id];
                &&& Self::only_group_changed(*old(self), *final(self), group_id)
                &&& after.spec_is_banned(principal@) == (relation@ == crate::group::banned_relation())
                &&& after.special_members@.last().0 == principal && after.special_members@.last().1 == relation
                &&& after.owner == old(self).groups@[group_id].owner
                &&& after.privacy == old(self).groups@[group_id].privacy
            },
    {
        if !self.groups.contains_key(&group_id) {
            return Err(ApiError::NotFound);
        }
        let mut group = match self.groups.remove(&group_id) {
            Some(g) => g,
            None => {
                return Err(ApiError::NotFound);
            },
        };
        group.add_special_member(principal, relation);
        self.groups.insert(group_id, group);
        proof {
            assert(self.groups@.dom() =~= old(self).groups@.dom());
        }
        Ok(())
    }

    /// Drops every relation of a principal to a group.
    pub fn remove_special_member_from_group(&mut self, group_id: u64, principal: &Principal) -> (r: Result<(), ApiError>)
        requires
            old(self).wf(),
        ensures
            final(self).wf(),
            r is Err <==> !old(self).has_group(group_id),
            r matches Err(e) ==> e == ApiError::NotFound && *final(self) == *old(self),
            r is Ok ==> {
                &&& Self::only_group_changed(*old(self), *final(self), group_id)
                &&& !final(self).groups@[group_id].spec_is_banned(principal@)
            },
    {
        if !self.groups.contains_key(&group_id) {
            return Err(ApiError::NotFound);
        }
        let mut group = match self.groups.remove(&group_id) {
            Some(g) => g,
            None => {
                return Err(ApiError::NotFound);
            },
        };
        group.remove_special_member_from_group(principal);
        self.groups.insert(group_id, group);
        proof {
            assert(self.groups@.dom() =~= old(self).groups@.dom());
        }
        Ok(())
    }

    /// The principals banned from a group, in the order of their relations;
    /// empty for an unknown group.
    pub fn get_banned_group_members(&self, group_id: u64) -> (r: Vec<Principal>)
        ensures
            !self.has_group(group_id) ==> r@.len() == 0,
            self.has_group(group_id) ==> forall|p: Seq<char>|
                self.groups@[group_id].spec_is_banned(p) <==> exists|i: int| 0 <= i < r@.len() && (#[trigger] r@[i])@ == p,
    {
        proof {
            reveal_strlit("Blocked");
        }
        let banned = "Blocked".to_owned();
        let mut out: Vec<Principal> = Vec::new();
        match self.groups.get(&group_id) {
            Some(g) => {
                let mut i: usize = 0;
                while i < g.special_members.len()
                    invariant
                        i <= g.special_members@.len(),
                        banned@ == crate::group::banned_relation(),
                        forall|p: Seq<char>| has_pair(g.special_members@.take(i as int), p, banned@)
                            <==> exists|j: int| 0 <= j < out@.len() && (#[trigger] out@[j])@ == p,
                    decreases g.special_members.len() - i,
                {
                    let ghost before = out@;
                    let ghost sm = g.special_members@;
                    if g.special_members[i].1 == banned {
                        out.push(g.special_members[i].0.copy());
                    }
                    proof {
                        let next = sm.take(i as int + 1);
                        assert forall|p: Seq<char>| has_pair(next, p, banned@)
                            <==> exists|j: int| 0 <= j < out@.len() && (#[trigger] out@[j])@ == p by {
                            if has_pair(sm.take(i as int + 1), p, banned@) {
                                let k = choose|k: int| 0 <= k < sm.take(i as int + 1).len()
                                    && (#[trigger] sm.take(i as int + 1)[k]).0@ == p && sm.take(i as int + 1)[k].1@ == banned@;
                                if k < i {
                                    assert(sm.take(i as int)[k] == sm[k]);
                                    assert(has_pair(sm.take(i as int), p, banned@));
                                    let j = choose|j: int| 0 <= j < before.len() && (#[trigger] before[j])@ == p;
                                    assert(out@[j] == before[j]);
                                } else {
                                    assert(out@[out@.len() - 1]@ == p);
                                }
                            }
                            if exists|j: int| 0 <= j < out@.len() && (#[trigger] out@[j])@ == p {
                                let j = choose|j: int| 0 <= j < out@.len() && (#[trigger] out@[j])@ == p;
                                if j < before.len() {
                                    assert(out@[j] == before[j]);
                                    assert(exists|j2: int| 0 <= j2 < before.len() && (#[trigger] before[j2])@ == p);
                                    assert(has_pair(sm.take(i as int), p, banned@));
                                    let k = choose|k: int| 0 <= k < sm.take(i as int).len()
                                        && (#[trigger] sm.take(i as int)[k]).0@ == p && sm.take(i as int)[k].1@ == banned@;
                                    assert(sm.take(i as int + 1)[k] == sm.take(i as int)[k]);
                                } else {
                                    assert(sm.take(i as int + 1)[i as int] == sm[i as int]);
                                }
                            }
                        }
                    }
                    i = i + 1;
                }
                proof {
                    assert(g.special_members@.take(i as int) =~= g.special_members@);
                }
            },
            None => {},
        }
        out
    }
}

/// A name as it appears in a link: spaces become dashes.
pub open spec fn slug(s: Seq<char>) -> Seq<char> {
    s.map_values(|c: char| if c == ' ' { '-' } else { c })
}

/// Whether two texts have the same link form.
fn same_slug(a: &str, b: &str) -> (r: bool)
    ensures
        r == (slug(a@) == slug(b@)),
{
    let n = a.unicode_len();
    if n != b.unicode_len() {
        proof {
            assert(slug(a@).len() != slug(b@).len());
        }
        return false;
    }
    let mut i: usize = 0;
    while i < n
        invariant
            n == a@.len(),
            n == b@.len(),
            i <= n,
            forall|j: int| 0 <= j < i ==> slug(a@)[j] == slug(b@)[j],
        decreases n - i,
    {
        let ca = a.get_char(i);
        let cb = b.get_char(i);
        let da = if ca == ' ' { '-' } else { ca };
        let db = if cb == ' ' { '-' } else { cb };
        if da != db {
            proof {
                assert(slug(a@)[i as int] != slug(b@)[i as int]);
            }
            return false;
        }
        i = i + 1;
    }
    proof {
        assert(slug(a@) =~= slug(b@));
    }
    true
}

impl GroupCalls {
    /// Whether group `g` is found under `name`: lower case, spaces as
    /// dashes.
    pub open spec fn name_matches(self, g: u64, name: Seq<char>) -> bool {
        slug(lower_of(self.groups@[g].name@)) == slug(lower_of(name))
    }

    /// A group found by its name, compared in lower case with spaces taken
    /// as dashes.
    pub fn get_group_by_name(&self, name: &String) -> (r: Result<(u64, &Group), ApiError>)
        ensures
            r is Err <==> forall|g: u64| #[trigger] self.groups@.contains_key(g) ==> !self.name_matches(g, name@),
            r matches Err(e) ==> e == ApiError::NotFound,
            r matches Ok((id, group)) ==> self.groups@.contains_key(id) && *group == self.groups@[id]
                && self.name_matches(id, name@),
    {
        let wanted = lowercase(name.as_str());
        let ids = ids_of(&self.groups);
        let mut i: usize = 0;
        while i < ids.len()
            invariant
                i <= ids@.len(),
                ids@.to_set() == self.groups@.dom(),
                wanted@ == lower_of(name@),
                forall|j: int| 0 <= j < i ==> !self.name_matches(#[trigger] ids@[j], name@),
            decreases ids.len() - i,
        {
            let id = ids[i];
            proof {
                assert(ids@.to_set().contains(id));
            }
            match self.groups.get(&id) {
                Some(g) => {
                    let lower = lowercase(g.name.as_str());
                    if same_slug(lower.as_str(), wanted.as_str()) {
                        return Ok((id, g));
                    }
                },
                None => {},
            }
            i = i + 1;
        }
        proof {
            assert forall|g: u64| #[trigger] self.groups@.contains_key(g) implies !self.name_matches(g, name@) by {
                assert(ids@.to_set().contains(g));
                let j = choose|j: int| 0 <= j < ids@.len() && ids@[j] == g;
            }
        }
        Err(ApiError::NotFound)
    }

    /// The stored groups among `group_ids`, in the order asked; unknown ids
    /// are skipped.
    pub fn get_groups_by_id(&self, group_ids: &Vec<u64>) -> (r: Vec<(u64, &Group)>)
        ensures
            r@.len() <= group_ids@.len(),
            forall|j: int| 0 <= j < r@.len() ==> self.groups@.contains_key((#[trigger] r@[j]).0)
                && *r@[j].1 == self.groups@[r@[j].0] && group_ids@.contains(r@[j].0),
            forall|g: u64| group_ids@.contains(g) && #[trigger] self.groups@.contains_key(g)
                ==> exists|j: int| 0 <= j < r@.len() && (#[trigger] r@[j]).0 == g,
    {
        let mut out: Vec<(u64, &Group)> = Vec::new();
        let mut i: usize = 0;
        while i < group_ids.len()
            invariant
                i <= group_ids@.len(),
                out@.len() <= i,
                forall|j: int| 0 <= j < out@.len() ==> self.groups@.contains_key((#[trigger] out@[j]).0)
                    && *out@[j].1 == self.groups@[out@[j].0] && group_ids@.take(i as int).contains(out@[j].0),
                forall|g: u64| group_ids@.take(i as int).contains(g) && #[trigger] self.groups@.contains_key(g)
                    ==> exists|j: int| 0 <= j < out@.len() && (#[trigger] out@[j]).0 == g,
            decreases group_ids.len() - i,
        {
            let id = group_ids[i];
            let ghost before = out@;
            let ghost prev = group_ids@.take(i as int);
            let ghost next = group_ids@.take(i as int + 1);
            proof {
                assert(next =~= prev.push(id));
            }
            match self.groups.get(&id) {
                Some(g) => {
                    out.push((id, g));
                },
                None => {},
            }
            proof {
                assert forall|j: int| 0 <= j < out@.len() implies self.groups@.contains_key((#[trigger] out@[j]).0)
                    && *out@[j].1 == self.groups@[out@[j].0] && next.contains(out@[j].0) by {
                    if j < before.len() {
                        assert(out@[j] == before[j]);
                        assert(prev.contains(out@[j].0));
                    } else {
                        assert(next[i as int] == id);
                    }
                }
                assert forall|g: u64| next.contains(g) && #[trigger] self.groups@.contains_key(g)
                    implies exists|j: int| 0 <= j < out@.len() && (#[trigger] out@[j]).0 == g by {
                    if prev.contains(g) {
                        let j = choose|j: int| 0 <= j < before.len() && (#[trigger] before[j]).0 == g;
                        assert(out@[j] == before[j]);
                    } else {
                        let k = choose|k: int| 0 <= k < next.len() && next[k] == g;
                        if k < i {
                            assert(prev[k] == g);
                        }
                        assert(out@[out@.len() - 1].0 == g);
                    }
                }
            }
            i = i + 1;
        }
        proof {
            assert(group_ids@.take(i as int) =~= group_ids@);
        }
        out
    }

    /// Whether `principal` asked to join a group and awaits an answer.
    pub fn has_pending_join_request(&self, principal: &Principal, group_id: u64) -> (r: bool)
        requires
            self.wf(),
        ensures
            r == (self.is_group_invited(principal@, group_id)
                && self.member_of(principal@).invites@[group_id].invite_type == InviteType::UserRequest),
    {
        match self.find_member(principal) {
            Some(i) => self.members[i].has_pending_join_request(group_id),
            None => false,
        }
    }

    /// Whether a group invited `principal` and awaits an answer.
    pub fn has_pending_invite(&self, principal: &Principal, group_id: u64) -> (r: bool)
        requires
            self.wf(),
        ensures
            r == (self.is_group_invited(principal@, group_id)
                && self.member_of(principal@).invites@[group_id].invite_type == InviteType::OwnerRequest),
    {
        match self.find_member(principal) {
            Some(i) => self.members[i].has_pending_group_invite(group_id),
            None => false,
        }
    }
}


impl GroupCalls {
    /// The owner and the privacy of a group.
    pub fn get_group_owner_and_privacy(&self, group_id: u64) -> (r: Result<(&Principal, &Privacy), ApiError>)
        ensures
            r is Err <==> !self.has_group(group_id),
            r matches Err(e) ==> e == ApiError::NotFound,
            r matches Ok((o, p)) ==> *o == self.groups@[group_id].owner && *p == self.groups@[group_id].privacy,
    {
        match self.groups.get(&group_id) {
            Some(g) => Ok((&g.owner, &g.privacy)),
            None => Err(ApiError::NotFound),
        }
    }

    /// The groups `caller` joined; empty where it has no record.
    pub fn get_self_groups(&self, caller: &Principal) -> (r: Vec<(u64, &Group)>)
        requires
            self.wf(),
        ensures
            forall|j: int| 0 <= j < r@.len() ==> self.is_group_joined(caller@, (#[trigger] r@[j]).0)
                && *r@[j].1 == self.groups@[r@[j].0],
            forall|g: u64| #[trigger] self.is_group_joined(caller@, g) ==> exists|j: int| 0 <= j < r@.len() && (#[trigger] r@[j]).0 == g,
    {
        let idx = match self.find_member(caller) {
            Some(i) => i,
            None => {
                return Vec::new();
            },
        };
        let joined = self.members[idx].get_joined();
        let mut ids: Vec<u64> = Vec::new();
        let mut k: usize = 0;
        while k < joined.len()
            invariant
                k <= joined@.len(),
                ids@ == joined@.map_values(|e: (u64, Join)| e.0).take(k as int),
            decreases joined.len() - k,
        {
            ids.push(joined[k].0);
            k = k + 1;
            proof {
                assert(ids@ =~= joined@.map_values(|e: (u64, Join)| e.0).take(k as int));
            }
        }
        proof {
            assert(ids@ =~= joined@.map_values(|e: (u64, Join)| e.0));
        }
        let r = self.get_groups_by_id(&ids);
        proof {
            let m = self.members@[idx as int];
            assert(m == self.member_of(caller@));
            assert forall|j: int| 0 <= j < r@.len() implies self.is_group_joined(caller@, (#[trigger] r@[j]).0)
                && *r@[j].1 == self.groups@[r@[j].0] by {
                assert(ids@.contains(r@[j].0));
                assert(ids@.to_set().contains(r@[j].0));
            }
            assert forall|g: u64| #[trigger] self.is_group_joined(caller@, g) implies exists|j: int| 0 <= j < r@.len() && (#[trigger] r@[j]).0 == g by {
                assert(ids@.to_set().contains(g));
                assert(ids@.contains(g));
                assert(self.groups@.contains_key(g)) by {
                    assert(self.members@[idx as int].joined@.contains_key(g));
                }
            }
        }
        r
    }
}

} // verus!
