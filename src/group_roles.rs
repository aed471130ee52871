//! Custom roles of a group, role assignment, and effective permissions.

use vstd::prelude::*;

use crate::engine::{only_member_role, GroupCalls};
use crate::error::ApiError;
use crate::group::Group;
use crate::member::{contains_role, holds_role, member_role, owner_role, without_role, Member};
use crate::principal::Principal;
use crate::role::{
    names_grant, position_of_role, read_only_permissions, roles_grant, Permission, PermissionActionType, PermissionType, Role,
};

verus! {

broadcast use vstd::std_specs::hash::group_hash_axioms, vstd::seq_lib::group_seq_properties;

/// `after` is `before` once `role` is taken out of its roles in `g`, with
/// "member" given where no role would be left.
pub open spec fn role_stripped(before: Member, after: Member, g: u64, role: Seq<char>) -> bool {
    &&& after.principal == before.principal
    &&& after.invites@ == before.invites@
    &&& after.joined@.dom() == before.joined@.dom()
    &&& forall|h: u64| h != g ==> #[trigger] after.joined@.get(h) == before.joined@.get(h)
    &&& before.joined@.contains_key(g) ==> if without_role(before.roles_in(g), role).len() == 0 {
        only_member_role(after.roles_in(g))
    } else {
        after.roles_in(g) == without_role(before.roles_in(g), role)
    }
    &&& !before.joined@.contains_key(g) ==> after.joined@ == before.joined@
}

impl GroupCalls {
    /// Whether `name` resolves against the implicit roles and the custom
    /// roles of group `g`.
    pub open spec fn role_known(self, g: u64, name: Seq<char>) -> bool {
        name == owner_role() || name == member_role()
            || exists|j: int| 0 <= j < self.groups@[g].roles@.len() && (#[trigger] self.groups@[g].roles@[j]).name@ == name
    }

    fn is_role_known(&self, group: &Group, name: &String) -> (r: bool)
        ensures
            forall|g: u64| self.groups@.contains_key(g) && self.groups@[g] == *group ==> r == self.role_known(g, name@),
    {
        proof {
            reveal_strlit("owner");
            reveal_strlit("member");
        }
        if *name == "owner".to_owned() || *name == "member".to_owned() {
            return true;
        }
        position_of_role(&group.roles, name).is_some()
    }

    /// Group `g` is the only group that changed, and nothing else did.
    pub open spec fn only_group_changed(old: GroupCalls, new: GroupCalls, g: u64) -> bool {
        &&& new.groups@.dom() == old.groups@.dom()
        &&& forall|h: u64| h != g ==> #[trigger] new.groups@.get(h) == old.groups@.get(h)
        &&& new.members == old.members
        &&& new.transfer_requests@ == old.transfer_requests@
        &&& new.next_group_id == old.next_group_id
    }

    /// Adds a custom role with read access only. Its name must differ from
    /// the implicit roles and from the group's custom roles.
    pub fn add_role_to_group(&mut self, group_id: u64, role_name: String, color: String, index: u64) -> (r: Result<Role, ApiError>)
        requires
            old(self).wf(),
        ensures
            final(self).wf(),
            r is Err <==> (!old(self).has_group(group_id) || old(self).role_known(group_id, role_name@)),
            r matches Err(e) ==> *final(self) == *old(self)
                && e == if !old(self).has_group(group_id) { ApiError::NotFound } else { ApiError::Duplicate },
            r matches Ok(role) ==> {
                let before = old(self).groups@[group_id];
                let after = final(self).groups@[group_id];
                &&& Self::only_group_changed(*old(self), *final(self), group_id)
                &&& role.name == role_name && !role.protected && role.color == color && role.index == Some(index)
                &&& after.roles@.len() == before.roles@.len() + 1
                &&& after.roles@.take(before.roles@.len() as int) == before.roles@
                &&& after.roles@.last().name == role_name
                &&& after.roles@.last().permissions@ == role.permissions@
                &&& after.name == before.name && after.owner == before.owner && after.privacy == before.privacy
                &&& after.special_members == before.special_members
            },
    {
        let known = match self.groups.get(&group_id) {
            Some(g) => self.is_role_known(g, &role_name),
            None => {
                return Err(ApiError::NotFound);
            },
        };
        if known {
            return Err(ApiError::Duplicate);
        }
        let mut group = match self.groups.remove(&group_id) {
            Some(g) => g,
            None => {
                return Err(ApiError::NotFound);
            },
        };
        let role = Role::new(role_name, false, read_only_permissions(), color, Some(index));
        let out = role.copy();
        let ghost before_roles = group.roles@;
        group.roles.push(role);
        self.groups.insert(group_id, group);
        proof {
            assert(self.groups@.dom() =~= old(self).groups@.dom());
            assert(self.groups@[group_id].roles@.take(before_roles.len() as int) =~= before_roles);
        }
        Ok(out)
    }

    /// Removes a custom role. Every member loses it; a member left with no
    /// role gets "member". `Ok(false)` where the group has no such role.
    pub fn remove_group_role(&mut self, group_id: u64, role_name: String) -> (r: Result<bool, ApiError>)
        requires
            old(self).wf(),
        ensures
            final(self).wf(),
            r is Err <==> !old(self).has_group(group_id),
            r matches Err(e) ==> e == ApiError::NotFound && *final(self) == *old(self),
            r == Ok::<bool, ApiError>(false) <==> (old(self).has_group(group_id)
                && forall|j: int| 0 <= j < old(self).groups@[group_id].roles@.len()
                    ==> (#[trigger] old(self).groups@[group_id].roles@[j]).name@ != role_name@),
            r == Ok::<bool, ApiError>(false) ==> *final(self) == *old(self),
            r == Ok::<bool, ApiError>(true) ==> {
                let before = old(self).groups@[group_id];
                let after = final(self).groups@[group_id];
                &&& final(self).groups@.dom() == old(self).groups@.dom()
                &&& forall|h: u64| h != group_id ==> #[trigger] final(self).groups@.get(h) == old(self).groups@.get(h)
                &&& exists|k: int| 0 <= k < before.roles@.len() && before.roles@[k].name@ == role_name@
                    && (forall|j: int| 0 <= j < k ==> (#[trigger] before.roles@[j]).name@ != role_name@)
                    && after.roles@ == before.roles@.remove(k)
                &&& final(self).transfer_requests@ == old(self).transfer_requests@
                &&& final(self).members@.len() == old(self).members@.len()
                &&& forall|j: int| 0 <= j < old(self).members@.len() ==>
                    role_stripped(old(self).members@[j], #[trigger] final(self).members@[j], group_id, role_name@)
            },
    {
        let k = match self.groups.get(&group_id) {
            Some(g) => position_of_role(&g.roles, &role_name),
            None => {
                return Err(ApiError::NotFound);
            },
        };
        let k = match k {
            Some(k) => k,
            None => {
                return Ok(false);
            },
        };
        if !self.groups.contains_key(&group_id) {
            return Err(ApiError::NotFound);
        }
        let mut group = match self.groups.remove(&group_id) {
            Some(g) => g,
            None => {
                return Err(ApiError::NotFound);
            },
        };
        group.roles.remove(k);
        self.groups.insert(group_id, group);
        proof {
            assert(self.groups@.dom() =~= old(self).groups@.dom());
            assert(self.groups@[group_id].roles@ == old(self).groups@[group_id].roles@.remove(k as int));
        }
        let ghost mid = self.groups@;
        let mut i: usize = 0;
        while i < self.members.len()
            invariant
                i <= self.members@.len(),
                self.members@.len() == old(self).members@.len(),
                self.groups@ == mid,
                self.groups@.dom() == old(self).groups@.dom(),
                self.transfer_requests@ == old(self).transfer_requests@,
                self.next_group_id == old(self).next_group_id,
                old(self).wf(),
                forall|j: int| 0 <= j < i ==> role_stripped(old(self).members@[j], #[trigger] self.members@[j], group_id, role_name@),
                forall|j: int| i <= j < self.members@.len() ==> #[trigger] self.members@[j] == old(self).members@[j],
            decreases self.members.len() - i,
        {
            let mut m = self.members[i].copy();
            m.remove_role_keeping_member(&group_id, &role_name);
            self.members.set(i, m);
            i = i + 1;
        }
        proof {
            assert forall|a: int, b: int|
                0 <= a < self.members@.len() && 0 <= b < self.members@.len()
                    && (#[trigger] self.members@[a]).principal@ == (#[trigger] self.members@[b]).principal@
                implies a == b by {
                assert(role_stripped(old(self).members@[a], self.members@[a], group_id, role_name@));
                assert(role_stripped(old(self).members@[b], self.members@[b], group_id, role_name@));
            }
            assert forall|a: int| 0 <= a < self.members@.len() implies (#[trigger] self.members@[a]).wf() by {
                assert(old(self).members@[a].wf());
                assert(role_stripped(old(self).members@[a], self.members@[a], group_id, role_name@));
            }
            assert forall|a: int, g: u64| 0 <= a < self.members@.len() && #[trigger] self.members@[a].joined@.contains_key(g)
                implies self.groups@.contains_key(g) by {
                assert(role_stripped(old(self).members@[a], self.members@[a], group_id, role_name@));
                assert(old(self).members@[a].joined@.contains_key(g));
            }
            assert forall|a: int, g: u64| 0 <= a < self.members@.len() && #[trigger] self.members@[a].invites@.contains_key(g)
                implies self.groups@.contains_key(g) by {
                assert(role_stripped(old(self).members@[a], self.members@[a], group_id, role_name@));
                assert(old(self).members@[a].invites@.contains_key(g));
            }
        }
        Ok(true)
    }

    /// The custom roles of a group.
    pub fn get_group_roles(&self, group_id: u64) -> (r: Result<&Vec<Role>, ApiError>)
        ensures
            r is Err <==> !self.has_group(group_id),
            r matches Err(e) ==> e == ApiError::NotFound,
            r matches Ok(roles) ==> *roles == self.groups@[group_id].roles,
    {
        match self.groups.get(&group_id) {
            Some(g) => Ok(&g.roles),
            None => Err(ApiError::NotFound),
        }
    }

    /// Replaces the permissions of a custom role. `Ok(false)` where the
    /// group has no such role.
    pub fn edit_role_permissions(&mut self, group_id: u64, role_name: String, permissions: Vec<Permission>) -> (r: Result<bool, ApiError>)
        requires
            old(self).wf(),
        ensures
            final(self).wf(),
            r is Err <==> !old(self).has_group(group_id),
            r matches Err(e) ==> e == ApiError::NotFound && *final(self) == *old(self),
            r == Ok::<bool, ApiError>(false) <==> (old(self).has_group(group_id)
                && forall|j: int| 0 <= j < old(self).groups@[group_id].roles@.len()
                    ==> (#[trigger] old(self).groups@[group_id].roles@[j]).name@ != role_name@),
            r == Ok::<bool, ApiError>(false) ==> *final(self) == *old(self),
            r == Ok::<bool, ApiError>(true) ==> {
                let before = old(self).groups@[group_id];
                let after = final(self).groups@[group_id];
                &&& Self::only_group_changed(*old(self), *final(self), group_id)
                &&& after.roles@.len() == before.roles@.len()
                &&& exists|k: int| 0 <= k < before.roles@.len() && before.roles@[k].name@ == role_name@
                    && (forall|j: int| 0 <= j < k ==> (#[trigger] before.roles@[j]).name@ != role_name@)
                    && after.roles@[k].permissions@ == permissions@
                    && after.roles@[k].name == before.roles@[k].name
                    && (forall|j: int| 0 <= j < before.roles@.len() && j != k ==> #[trigger] after.roles@[j] == before.roles@[j])
            },
    {
        let k = match self.groups.get(&group_id) {
            Some(g) => position_of_role(&g.roles, &role_name),
            None => {
                return Err(ApiError::NotFound);
            },
        };
        let k = match k {
            Some(k) => k,
            None => {
                return Ok(false);
            },
        };
        let mut group = match self.groups.remove(&group_id) {
            Some(g) => g,
            None => {
                return Err(ApiError::NotFound);
            },
        };
        let old_role = group.roles[k].copy();
        let role = Role {
            name: old_role.name,
            protected: old_role.protected,
            permissions,
            color: old_role.color,
            index: old_role.index,
        };
        group.roles.set(k, role);
        self.groups.insert(group_id, group);
        proof {
            assert(self.groups@.dom() =~= old(self).groups@.dom());
        }
        Ok(true)
    }

    /// Why a role change of `p` in `g` naming `role` is refused, if it is.
    pub open spec fn member_role_error(self, p: Seq<char>, g: u64, role: Seq<char>) -> Option<ApiError> {
        if !self.has_group(g) {
            Some(ApiError::NotFound)
        } else if !self.role_known(g, role) {
            Some(ApiError::BadRequest)
        } else if !self.has_member(p) {
            Some(ApiError::NotFound)
        } else {
            None
        }
    }

    /// Sets the roles of a member in a group to exactly `role`.
    pub fn add_group_role_to_member(&mut self, role: String, member_principal: &Principal, group_id: u64) -> (r: Result<Member, ApiError>)
        requires
            old(self).wf(),
        ensures
            final(self).wf(),
            r is Err <==> old(self).member_role_error(member_principal@, group_id, role@) is Some,
            r matches Err(e) ==> old(self).member_role_error(member_principal@, group_id, role@) == Some(e)
                && *final(self) == *old(self),
            r matches Ok(m) ==> {
                let idx = old(self).index_of(member_principal@);
                let before = old(self).members@[idx];
                let after = final(self).members@[idx];
                &&& Self::only_record_changed(*old(self), *final(self), idx)
                &&& after.invites@ == before.invites@
                &&& after.joined@.dom() == before.joined@.dom()
                &&& forall|h: u64| h != group_id ==> #[trigger] after.joined@.get(h) == before.joined@.get(h)
                &&& before.joined@.contains_key(group_id) ==> after.roles_in(group_id) == seq![role]
                &&& m.joined@ == after.joined@ && m.invites@ == after.invites@
            },
    {
        let known = match self.groups.get(&group_id) {
            Some(g) => self.is_role_known(g, &role),
            None => {
                return Err(ApiError::NotFound);
            },
        };
        if !known {
            return Err(ApiError::BadRequest);
        }
        let idx = match self.find_member(member_principal) {
            Some(i) => i,
            None => {
                return Err(ApiError::NotFound);
            },
        };
        let mut m = self.members[idx].copy();
        let mut roles: Vec<String> = Vec::new();
        roles.push(role);
        proof {
            assert(roles@ =~= seq![role]);
        }
        m.replace_roles(&group_id, roles);
        let out = m.copy();
        self.put_member(idx, m);
        Ok(out)
    }

    /// Takes `role` from a member in a group; where no role would be left,
    /// the member gets "member".
    pub fn remove_group_role_from_member(&mut self, role: String, member_principal: &Principal, group_id: u64) -> (r: Result<Member, ApiError>)
        requires
            old(self).wf(),
        ensures
            final(self).wf(),
            r is Err <==> old(self).member_role_error(member_principal@, group_id, role@) is Some,
            r matches Err(e) ==> old(self).member_role_error(member_principal@, group_id, role@) == Some(e)
                && *final(self) == *old(self),
            r matches Ok(m) ==> {
                let idx = old(self).index_of(member_principal@);
                &&& Self::only_record_changed(*old(self), *final(self), idx)
                &&& role_stripped(old(self).members@[idx], final(self).members@[idx], group_id, role@)
                &&& m.joined@ == final(self).members@[idx].joined@ && m.invites@ == final(self).members@[idx].invites@
            },
    {
        let known = match self.groups.get(&group_id) {
            Some(g) => self.is_role_known(g, &role),
            None => {
                return Err(ApiError::NotFound);
            },
        };
        if !known {
            return Err(ApiError::BadRequest);
        }
        let idx = match self.find_member(member_principal) {
            Some(i) => i,
            None => {
                return Err(ApiError::NotFound);
            },
        };
        let mut m = self.members[idx].copy();
        m.remove_role_keeping_member(&group_id, &role);
        let out = m.copy();
        self.put_member(idx, m);
        Ok(out)
    }
}


impl GroupCalls {
    /// The effective permissions of `p` in `g`: the union of the permission
    /// sets of the roles `p` holds there. "owner" grants everything,
    /// "member" grants read access, and a custom role what its permission
    /// set says.
    pub open spec fn spec_has_permission(self, p: Seq<char>, g: u64, ptype: PermissionType, action: PermissionActionType) -> bool {
        &&& self.has_group(g)
        &&& self.is_group_joined(p, g)
        &&& {
            let names = self.member_of(p).roles_in(g);
            ||| holds_role(names, owner_role())
            ||| (holds_role(names, member_role()) && action == PermissionActionType::Read)
            ||| names_grant(self.groups@[g].roles@, names, ptype, action)
        }
    }

    /// Whether `p` holds `action` on `ptype` in group `g`.
    pub fn has_permission(&self, p: &Principal, group_id: u64, ptype: PermissionType, action: PermissionActionType) -> (r: bool)
        requires
            self.wf(),
        ensures
            r == self.spec_has_permission(p@, group_id, ptype, action),
    {
        let group = match self.groups.get(&group_id) {
            Some(g) => g,
            None => {
                return false;
            },
        };
        let idx = match self.find_member(p) {
            Some(i) => i,
            None => {
                return false;
            },
        };
        if !self.members[idx].is_group_joined(&group_id) {
            return false;
        }
        proof {
            reveal_strlit("owner");
            reveal_strlit("member");
        }
        let names = self.members[idx].get_roles(group_id);
        if contains_role(&names, &"owner".to_owned()) {
            return true;
        }
        if contains_role(&names, &"member".to_owned()) && action == PermissionActionType::Read {
            return true;
        }
        roles_grant(&group.roles, &names, ptype, action)
    }
}

} // verus!
