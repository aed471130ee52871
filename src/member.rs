//! The member-side record of a principal.

use std::collections::HashMap;
use vstd::prelude::*;
use vstd::std_specs::iter::IteratorSpec;

use crate::principal::Principal;

verus! {

broadcast use vstd::std_specs::hash::group_hash_axioms;

/// Who started a pending membership: the group (`OwnerRequest`) or the
/// prospective member (`UserRequest`).
#[derive(Clone, Copy, Debug, PartialEq, Eq, Structural)]
pub enum InviteType {
    OwnerRequest,
    UserRequest,
}

/// A membership of a group: the role names held, with timestamps.
#[derive(Clone, Debug)]
pub struct Join {
    pub roles: Vec<String>,
    pub updated_at: u64,
    pub created_at: u64,
}

/// A pending membership of a group.
#[derive(Clone, Copy, Debug)]
pub struct Invite {
    pub invite_type: InviteType,
    pub notification_id: Option<u64>,
    pub updated_at: u64,
    pub created_at: u64,
}

/// The member-side record of a principal: the groups it joined and the
/// groups it holds a pending invite for.
#[derive(Clone, Debug)]
pub struct Member {
    pub principal: Principal,
    pub profile_identifier: Principal,
    pub joined: HashMap<u64, Join>,
    pub invites: HashMap<u64, Invite>,
}

/// A joined membership as handed out to callers.
#[derive(Clone, Debug)]
pub struct JoinedMemberResponse {
    pub group_id: u64,
    pub principal: Principal,
    pub roles: Vec<String>,
}

/// A pending membership as handed out to callers.
#[derive(Clone, Debug)]
pub struct InviteMemberResponse {
    pub group_id: u64,
    pub principal: Principal,
    pub invite: Option<Invite>,
}

pub open spec fn owner_role() -> Seq<char> {
    "owner"@
}

pub open spec fn admin_role() -> Seq<char> {
    "admin"@
}

pub open spec fn moderator_role() -> Seq<char> {
    "moderator"@
}

pub open spec fn member_role() -> Seq<char> {
    "member"@
}

/// Whether a list of role names holds `role`.
pub open spec fn holds_role(roles: Seq<String>, role: Seq<char>) -> bool {
    exists|i: int| 0 <= i < roles.len() && (#[trigger] roles[i])@ == role
}

/// The list of role names with every occurrence of `role` taken out.
pub open spec fn without_role(roles: Seq<String>, role: Seq<char>) -> Seq<String>
    decreases roles.len(),
{
    if roles.len() == 0 {
        roles
    } else {
        let rest = without_role(roles.drop_last(), role);
        if roles.last()@ == role {
            rest
        } else {
            rest.push(roles.last())
        }
    }
}

pub proof fn lemma_without_role(roles: Seq<String>, role: Seq<char>)
    ensures
        !holds_role(without_role(roles, role), role),
        forall|r: Seq<char>| r != role ==> (holds_role(without_role(roles, role), r) == holds_role(roles, r)),
    decreases roles.len(),
{
    if roles.len() > 0 {
        let front = roles.drop_last();
        lemma_without_role(front, role);
        let rest = without_role(front, role);
        let w = without_role(roles, role);
        assert forall|i: int| 0 <= i < rest.len() implies w[i] == rest[i] by {}
        assert forall|r: Seq<char>| r != role implies (holds_role(w, r) == holds_role(roles, r)) by {
            if holds_role(roles, r) {
                let i = choose|i: int| 0 <= i < roles.len() && (#[trigger] roles[i])@ == r;
                if i < roles.len() - 1 {
                    assert(front[i] == roles[i]);
                    assert(holds_role(front, r));
                    assert(holds_role(rest, r));
                    let j = choose|j: int| 0 <= j < rest.len() && (#[trigger] rest[j])@ == r;
                    assert(w[j] == rest[j]);
                    assert(holds_role(w, r));
                } else {
                    assert(w[rest.len() as int] == roles.last());
                    assert(holds_role(w, r));
                }
            }
            if holds_role(w, r) {
                let i = choose|i: int| 0 <= i < w.len() && (#[trigger] w[i])@ == r;
                if i < rest.len() {
                    assert(holds_role(rest, r));
                    assert(holds_role(front, r));
                    let j = choose|j: int| 0 <= j < front.len() && (#[trigger] front[j])@ == r;
                    assert(roles[j] == front[j]);
                    assert(holds_role(roles, r));
                } else {
                    assert(roles[roles.len() - 1] == roles.last());
                    assert(holds_role(roles, r));
                }
            }
        }
        assert forall|i: int| 0 <= i < w.len() implies (#[trigger] w[i])@ != role by {
            if i < rest.len() {
                assert(w[i] == rest[i]);
            }
        }
    }
}

/// A fresh copy of a list of role names.
pub fn copy_roles(roles: &Vec<String>) -> (r: Vec<String>)
    ensures
        r@ == roles@,
{
    let mut out: Vec<String> = Vec::new();
    let mut i: usize = 0;
    while i < roles.len()
        invariant
            i <= roles.len(),
            out@ == roles@.take(i as int),
        decreases roles.len() - i,
    {
        out.push(roles[i].clone());
        i = i + 1;
        proof {
            assert(out@ =~= roles@.take(i as int));
        }
    }
    proof {
        assert(out@ =~= roles@);
    }
    out
}

/// Whether `role` is among `roles`.
pub fn contains_role(roles: &Vec<String>, role: &String) -> (r: bool)
    ensures
        r == holds_role(roles@, role@),
{
    let mut i: usize = 0;
    while i < roles.len()
        invariant
            i <= roles.len(),
            forall|j: int| 0 <= j < i ==> (#[trigger] roles@[j])@ != role@,
        decreases roles.len() - i,
    {
        if roles[i] == *role {
            return true;
        }
        i = i + 1;
    }
    false
}

impl Join {
    pub fn new(roles: Vec<String>, now: u64) -> (r: Join)
        ensures
            r.roles == roles,
            r.updated_at == now,
            r.created_at == now,
    {
        Join { roles, updated_at: now, created_at: now }
    }

    /// A fresh copy of the record.
    pub fn copy(&self) -> (r: Join)
        ensures
            r.roles@ == self.roles@,
            r.updated_at == self.updated_at,
            r.created_at == self.created_at,
    {
        Join { roles: copy_roles(&self.roles), updated_at: self.updated_at, created_at: self.created_at }
    }
}

impl Member {
    /// The group ids that this member joined.
    pub open spec fn joined_groups(self) -> Set<u64> {
        self.joined@.dom()
    }

    /// The role names held in a joined group, empty where not joined.
    pub open spec fn roles_in(self, group_id: u64) -> Seq<String> {
        if self.joined@.contains_key(group_id) {
            self.joined@[group_id].roles@
        } else {
            Seq::empty()
        }
    }

    /// A principal never holds a join and an invite for one group at once.
    pub open spec fn wf(self) -> bool {
        forall|g: u64| !(#[trigger] self.joined@.contains_key(g) && self.invites@.contains_key(g))
    }

    /// A fresh copy of the record.
    pub fn copy(&self) -> (r: Member)
        ensures
            r.principal == self.principal,
            r.profile_identifier == self.profile_identifier,
            r.joined@ == self.joined@,
            r.invites@ == self.invites@,
    {
        Member {
            principal: self.principal.copy(),
            profile_identifier: self.profile_identifier.copy(),
            joined: self.joined.clone(),
            invites: self.invites.clone(),
        }
    }

    /// A member record of the anonymous identity, with no groups.
    pub fn default() -> (r: Member)
        ensures
            r.principal@ == "2vxsx-fae"@,
            r.profile_identifier@ == "2vxsx-fae"@,
            r.joined@ == Map::<u64, Join>::empty(),
            r.invites@ == Map::<u64, Invite>::empty(),
            r.wf(),
    {
        Member {
            principal: Principal::anonymous(),
            profile_identifier: Principal::anonymous(),
            joined: HashMap::new(),
            invites: HashMap::new(),
        }
    }

    pub fn new(principal: Principal, profile_identifier: Principal) -> (r: Member)
        ensures
            r.principal == principal,
            r.profile_identifier == profile_identifier,
            r.joined@ == Map::<u64, Join>::empty(),
            r.invites@ == Map::<u64, Invite>::empty(),
            r.wf(),
    {
        Member { principal, profile_identifier, joined: HashMap::new(), invites: HashMap::new() }
    }

    /// Records a membership of `group_id` holding `roles`.
    pub fn add_joined(&mut self, group_id: u64, roles: Vec<String>, now: u64)
        ensures
            final(self).joined@ == old(self).joined@.insert(group_id, Join::new_spec(roles, now)),
            final(self).invites@ == old(self).invites@,
            final(self).principal == old(self).principal,
            final(self).profile_identifier == old(self).profile_identifier,
    {
        self.joined.insert(group_id, Join { roles, updated_at: now, created_at: now });
    }

    /// Every joined group with its record, each group once.
    pub fn get_joined(&self) -> (r: Vec<(u64, Join)>)
        ensures
            r@.map_values(|e: (u64, Join)| e.0).to_set() == self.joined@.dom(),
            r@.map_values(|e: (u64, Join)| e.0).no_duplicates(),
            forall|i: int| 0 <= i < r@.len() ==> self.joined@.contains_key((#[trigger] r@[i]).0)
                && r@[i].1.roles@ == self.joined@[r@[i].0].roles@,
    {
        let mut out: Vec<(u64, Join)> = Vec::new();
        for k in it: self.joined.keys()
            invariant
                it.seq().unref().to_set() == self.joined@.dom(),
                it.seq().no_duplicates(),
                it.seq() == vstd::std_specs::hash::spec_keys_iter(&self.joined).remaining(),
                out@.map_values(|e: (u64, Join)| e.0) == it.seq().unref().take(it.index()),
                forall|i: int| 0 <= i < out@.len() ==> self.joined@.contains_key((#[trigger] out@[i]).0)
                    && out@[i].1.roles@ == self.joined@[out@[i].0].roles@,
            ensures
                out@.map_values(|e: (u64, Join)| e.0) == vstd::std_specs::hash::spec_keys_iter(&self.joined).remaining().unref(),
                forall|i: int| 0 <= i < out@.len() ==> self.joined@.contains_key((#[trigger] out@[i]).0)
                    && out@[i].1.roles@ == self.joined@[out@[i].0].roles@,
        {
            assert(it.seq().unref().take(it.index() + 1) =~= it.seq().unref().take(it.index()).push(*k));
            assert(it.seq().unref().to_set().contains(*k));
            match self.joined.get(k) {
                Some(j) => {
                    out.push((*k, j.copy()));
                },
                None => {},
            }
            assert(out@.map_values(|e: (u64, Join)| e.0) =~= it.seq().unref().take(it.index()).push(*k));
        }
        out
    }

    pub fn remove_joined(&mut self, group_id: u64)
        ensures
            final(self).joined@ == old(self).joined@.remove(group_id),
            final(self).invites@ == old(self).invites@,
            final(self).principal == old(self).principal,
            final(self).profile_identifier == old(self).profile_identifier,
    {
        self.joined.remove(&group_id);
    }
}

impl Member {
    /// Appends `role` to the roles of a joined group; nothing happens where
    /// the group is not joined.
    pub fn add_group_role(&mut self, group_id: &u64, role: &String)
        ensures
            final(self).joined@.dom() == old(self).joined@.dom(),
            final(self).roles_in(*group_id) == if old(self).joined@.contains_key(*group_id) {
                old(self).roles_in(*group_id).push(*role)
            } else {
                Seq::<String>::empty()
            },
            forall|g: u64| g != *group_id ==> #[trigger] final(self).joined@.get(g) == old(self).joined@.get(g),
            final(self).invites@ == old(self).invites@,
            final(self).principal == old(self).principal,
            final(self).profile_identifier == old(self).profile_identifier,
    {
        match self.joined.remove(group_id) {
            Some(j) => {
                let mut j = j;
                j.roles.push(role.clone());
                self.joined.insert(*group_id, j);
                proof {
                    assert(final(self).joined@.dom() =~= old(self).joined@.dom());
                }
            },
            None => {},
        }
    }

    /// Takes every occurrence of `role` out of the roles of a joined group.
    pub fn remove_group_role(&mut self, group_id: &u64, role: &String)
        ensures
            final(self).joined@.dom() == old(self).joined@.dom(),
            final(self).roles_in(*group_id) == without_role(old(self).roles_in(*group_id), role@),
            forall|g: u64| g != *group_id ==> #[trigger] final(self).joined@.get(g) == old(self).joined@.get(g),
            final(self).invites@ == old(self).invites@,
            final(self).principal == old(self).principal,
            final(self).profile_identifier == old(self).profile_identifier,
    {
        match self.joined.remove(group_id) {
            Some(j) => {
                let mut kept: Vec<String> = Vec::new();
                let mut i: usize = 0;
                while i < j.roles.len()
                    invariant
                        i <= j.roles.len(),
                        kept@ == without_role(j.roles@.take(i as int), role@),
                    decreases j.roles.len() - i,
                {
                    proof {
                        assert(j.roles@.take(i as int + 1).drop_last() =~= j.roles@.take(i as int));
                    }
                    if j.roles[i] != *role {
                        kept.push(j.roles[i].clone());
                    }
                    i = i + 1;
                }
                proof {
                    assert(j.roles@.take(i as int) =~= j.roles@);
                }
                self.joined.insert(*group_id, Join { roles: kept, updated_at: j.updated_at, created_at: j.created_at });
                proof {
                    assert(final(self).joined@.dom() =~= old(self).joined@.dom());
                }
            },
            None => {
                proof {
                    assert(without_role(Seq::<String>::empty(), role@) == Seq::<String>::empty());
                }
            },
        }
    }

    /// Sets the roles of a joined group to exactly `roles`.
    pub fn replace_roles(&mut self, group_id: &u64, roles: Vec<String>)
        ensures
            final(self).joined@.dom() == old(self).joined@.dom(),
            old(self).joined@.contains_key(*group_id) ==> final(self).roles_in(*group_id) == roles@,
            forall|g: u64| g != *group_id ==> #[trigger] final(self).joined@.get(g) == old(self).joined@.get(g),
            !old(self).joined@.contains_key(*group_id) ==> final(self).joined@ == old(self).joined@,
            final(self).invites@ == old(self).invites@,
            final(self).principal == old(self).principal,
            final(self).profile_identifier == old(self).profile_identifier,
    {
        match self.joined.remove(group_id) {
            Some(j) => {
                self.joined.insert(*group_id, Join { roles, updated_at: j.updated_at, created_at: j.created_at });
                proof {
                    assert(final(self).joined@.dom() =~= old(self).joined@.dom());
                }
            },
            None => {},
        }
    }

    /// Records a pending membership of `group_id`.
    pub fn add_invite(&mut self, group_id: u64, invite_type: InviteType, notification_id: Option<u64>, now: u64)
        ensures
            final(self).invites@ == old(self).invites@.insert(
                group_id,
                Invite { invite_type, notification_id, updated_at: now, created_at: now },
            ),
            final(self).joined@ == old(self).joined@,
            final(self).principal == old(self).principal,
            final(self).profile_identifier == old(self).profile_identifier,
    {
        self.invites.insert(group_id, Invite { invite_type, notification_id, updated_at: now, created_at: now });
    }

    pub fn get_invite(&self, group_id: u64) -> (r: Option<Invite>)
        ensures
            r == self.invites@.get(group_id),
    {
        match self.invites.get(&group_id) {
            Some(i) => Some(*i),
            None => None,
        }
    }

    pub fn remove_invite(&mut self, group_id: u64)
        ensures
            final(self).invites@ == old(self).invites@.remove(group_id),
            final(self).joined@ == old(self).joined@,
            final(self).principal == old(self).principal,
            final(self).profile_identifier == old(self).profile_identifier,
    {
        self.invites.remove(&group_id);
    }

    /// Turns the pending membership of `group_id` into a membership with the
    /// single role "member".
    pub fn turn_invite_into_joined(&mut self, group_id: u64, now: u64)
        ensures
            final(self).invites@ == old(self).invites@.remove(group_id),
            final(self).joined@.dom() == old(self).joined@.dom().insert(group_id),
            final(self).roles_in(group_id).len() == 1,
            final(self).roles_in(group_id)[0]@ == member_role(),
            forall|g: u64| g != group_id ==> #[trigger] final(self).joined@.get(g) == old(self).joined@.get(g),
            final(self).principal == old(self).principal,
            final(self).profile_identifier == old(self).profile_identifier,
    {
        self.invites.remove(&group_id);
        let mut roles: Vec<String> = Vec::new();
        roles.push("member".to_owned());
        self.joined.insert(group_id, Join { roles, updated_at: now, created_at: now });
        proof {
            reveal_strlit("member");
            assert(final(self).joined@.dom() =~= old(self).joined@.dom().insert(group_id));
        }
    }

    pub fn has_group_role(&self, group_id: &u64, role: &String) -> (r: bool)
        ensures
            r == holds_role(self.roles_in(*group_id), role@),
    {
        match self.joined.get(group_id) {
            Some(j) => contains_role(&j.roles, role),
            None => false,
        }
    }

    pub fn is_group_owner(&self, group_id: &u64) -> (r: bool)
        ensures
            r == holds_role(self.roles_in(*group_id), owner_role()),
    {
        self.has_group_role(group_id, &"owner".to_owned())
    }

    pub fn is_group_admin(&self, group_id: &u64) -> (r: bool)
        ensures
            r == holds_role(self.roles_in(*group_id), admin_role()),
    {
        self.has_group_role(group_id, &"admin".to_owned())
    }

    pub fn is_group_moderator(&self, group_id: &u64) -> (r: bool)
        ensures
            r == holds_role(self.roles_in(*group_id), moderator_role()),
    {
        self.has_group_role(group_id, &"moderator".to_owned())
    }

    pub fn is_group_member(&self, group_id: &u64) -> (r: bool)
        ensures
            r == holds_role(self.roles_in(*group_id), member_role()),
    {
        self.has_group_role(group_id, &"member".to_owned())
    }

    pub fn is_group_invited(&self, group_id: &u64) -> (r: bool)
        ensures
            r == self.invites@.contains_key(*group_id),
    {
        self.invites.contains_key(group_id)
    }

    pub fn is_group_joined(&self, group_id: &u64) -> (r: bool)
        ensures
            r == self.joined@.contains_key(*group_id),
    {
        self.joined.contains_key(group_id)
    }

    /// Whether the member asked to join the group and awaits an answer.
    pub fn has_pending_join_request(&self, group_id: u64) -> (r: bool)
        ensures
            r == (self.invites@.contains_key(group_id)
                && self.invites@[group_id].invite_type == InviteType::UserRequest),
    {
        match self.invites.get(&group_id) {
            Some(i) => i.invite_type == InviteType::UserRequest,
            None => false,
        }
    }

    /// Whether the group invited the member and awaits an answer.
    pub fn has_pending_group_invite(&self, group_id: u64) -> (r: bool)
        ensures
            r == (self.invites@.contains_key(group_id)
                && self.invites@[group_id].invite_type == InviteType::OwnerRequest),
    {
        match self.invites.get(&group_id) {
            Some(i) => i.invite_type == InviteType::OwnerRequest,
            None => false,
        }
    }

    /// The role names held in a group, empty where not joined.
    pub fn get_roles(&self, group_id: u64) -> (r: Vec<String>)
        ensures
            r@ == self.roles_in(group_id),
    {
        match self.joined.get(&group_id) {
            Some(j) => copy_roles(&j.roles),
            None => Vec::new(),
        }
    }
}

/// The groups in which a member holds the role "owner".
pub open spec fn owned_groups(m: Member) -> Set<u64> {
    m.joined@.dom().filter(|g: u64| holds_role(m.roles_in(g), owner_role()))
}

impl Member {
    /// The groups this member owns, each once.
    pub fn get_owned(&self) -> (r: Vec<u64>)
        ensures
            r@.to_set() == owned_groups(*self),
            r@.no_duplicates(),
            r@.len() == owned_groups(*self).len(),
    {
        let mut out: Vec<u64> = Vec::new();
        let owner = "owner".to_owned();
        proof {
            reveal_strlit("owner");
        }
        for k in it: self.joined.keys()
            invariant
                owner@ == owner_role(),
                it.seq().unref().to_set() == self.joined@.dom(),
                it.seq().no_duplicates(),
                out@.no_duplicates(),
                out@.to_set() == it.seq().unref().take(it.index()).to_set().filter(
                    |x: u64| holds_role(self.roles_in(x), owner_role()),
                ),
        {
            let ghost i = it.index();
            let ghost ks = it.seq().unref();
            proof {
                assert(ks.take(i + 1) =~= ks.take(i).push(*k));
                assert(ks.to_set().contains(*k));
                assert(!ks.take(i).contains(*k)) by {
                    if ks.take(i).contains(*k) {
                        let j = choose|j: int| 0 <= j < ks.take(i).len() && ks.take(i)[j] == *k;
                        assert(ks[j] == ks[i]);
                    }
                }
            }
            let ghost before = out@;
            if self.has_group_role(k, &owner) {
                out.push(*k);
                proof {
                    assert(!before.contains(*k)) by {
                        if before.contains(*k) {
                            assert(before.to_set().contains(*k));
                        }
                    }
                    before.lemma_push_to_set_commute(*k);
                }
            }
            proof {
                ks.take(i).lemma_push_to_set_commute(*k);
                assert(out@.to_set() =~= ks.take(i + 1).to_set().filter(
                    |x: u64| holds_role(self.roles_in(x), owner_role()),
                ));
            }
        }
        proof {
            let ks = vstd::std_specs::hash::spec_keys_iter(&self.joined).remaining().unref();
            assert(ks.take(ks.len() as int) =~= ks);
            assert(out@.to_set() =~= owned_groups(*self));
            out@.unique_seq_to_set();
        }
        out
    }

    /// Whether joining `group_id` would make this the member's first group:
    /// no other group is joined.
    pub fn is_first_join(&self, group_id: u64) -> (r: bool)
        ensures
            r == self.joined@.dom().remove(group_id).is_empty(),
    {
        let n = self.joined.len();
        let has = self.joined.contains_key(&group_id);
        proof {
            if has {
                assert(self.joined@.dom().remove(group_id).len() == self.joined@.dom().len() - 1);
            } else {
                assert(self.joined@.dom().remove(group_id) =~= self.joined@.dom());
            }
            if self.joined@.dom().remove(group_id).len() == 0 {
                assert(self.joined@.dom().remove(group_id) =~= Set::<u64>::empty());
            }
            if self.joined@.dom().remove(group_id) =~= Set::<u64>::empty() {
                assert(self.joined@.dom().remove(group_id).len() == 0);
            }
        }
        n == 0 || (n == 1 && has)
    }

    /// Takes every occurrence of `role` out of the roles of a joined group;
    /// where that leaves none, the role "member" is given instead, so that a
    /// member never holds zero roles.
    pub fn remove_role_keeping_member(&mut self, group_id: &u64, role: &String)
        ensures
            final(self).joined@.dom() == old(self).joined@.dom(),
            old(self).joined@.contains_key(*group_id) ==> if without_role(old(self).roles_in(*group_id), role@).len() == 0 {
                final(self).roles_in(*group_id).len() == 1 && final(self).roles_in(*group_id)[0]@ == member_role()
            } else {
                final(self).roles_in(*group_id) == without_role(old(self).roles_in(*group_id), role@)
            },
            !old(self).joined@.contains_key(*group_id) ==> final(self).joined@ == old(self).joined@,
            forall|g: u64| g != *group_id ==> #[trigger] final(self).joined@.get(g) == old(self).joined@.get(g),
            final(self).invites@ == old(self).invites@,
            final(self).principal == old(self).principal,
            final(self).profile_identifier == old(self).profile_identifier,
    {
        if !self.joined.contains_key(group_id) {
            return;
        }
        self.remove_group_role(group_id, role);
        let left = match self.joined.get(group_id) {
            Some(j) => j.roles.len(),
            None => 0,
        };
        if left == 0 {
            let mut roles: Vec<String> = Vec::new();
            roles.push("member".to_owned());
            proof {
                reveal_strlit("member");
            }
            self.replace_roles(group_id, roles);
        }
    }
}

impl JoinedMemberResponse {
    pub fn new(principal: Principal, member: Member, group_id: u64) -> (r: JoinedMemberResponse)
        ensures
            r.group_id == group_id,
            r.principal == principal,
            r.roles@ == member.roles_in(group_id),
    {
        JoinedMemberResponse { group_id, principal, roles: member.get_roles(group_id) }
    }
}

impl InviteMemberResponse {
    pub fn new(principal: Principal, member: Member, group_id: u64) -> (r: InviteMemberResponse)
        ensures
            r.group_id == group_id,
            r.principal == principal,
            r.invite == member.invites@.get(group_id),
    {
        InviteMemberResponse { group_id, principal, invite: member.get_invite(group_id) }
    }
}

impl Join {
    pub open spec fn new_spec(roles: Vec<String>, now: u64) -> Join {
        Join { roles, updated_at: now, created_at: now }
    }
}

} // verus!
