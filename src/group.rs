//! Groups, their field limits and their relations.

use vstd::prelude::*;

use crate::error::ApiError;
use crate::principal::Principal;
use crate::privacy::{gate_admits, validate_gate, GateEvidence, Privacy};
use crate::role::Role;
use crate::text::{grapheme_count, str_len};

verus! {

/// A group as it is stored.
#[derive(Clone, Debug)]
pub struct Group {
    pub name: String,
    pub description: String,
    pub website: String,
    pub tags: Vec<u32>,
    pub owner: Principal,
    pub created_by: Principal,
    pub privacy: Privacy,
    pub privacy_gated_type_amount: Option<u64>,
    pub roles: Vec<Role>,
    pub wallets: Vec<(Principal, String)>,
    pub special_members: Vec<(Principal, String)>,
    pub created_on: u64,
    pub updated_on: u64,
}

/// The fields a caller gives to create a group.
#[derive(Clone, Debug)]
pub struct PostGroup {
    pub name: String,
    pub description: String,
    pub website: String,
    pub tags: Vec<u32>,
    pub privacy: Privacy,
    pub privacy_gated_type_amount: Option<u64>,
}

/// The fields a caller gives to edit a group.
#[derive(Clone, Debug)]
pub struct UpdateGroup {
    pub name: String,
    pub description: String,
    pub website: String,
    pub tags: Vec<u32>,
    pub privacy: Privacy,
    pub privacy_gated_type_amount: Option<u64>,
}

/// A pending hand-over of a group from its owner to a member.
#[derive(Clone, Debug)]
pub struct GroupTransferRequest {
    pub from: Principal,
    pub to: Principal,
    pub created_on: u64,
}

/// The relation that marks a principal as banned from a group.
pub open spec fn banned_relation() -> Seq<char> {
    "Blocked"@
}

/// The pairs of `s` whose principal is not `p`, in order.
pub open spec fn without_key(s: Seq<(Principal, String)>, p: Seq<char>) -> Seq<(Principal, String)>
    decreases s.len(),
{
    if s.len() == 0 {
        s
    } else {
        let rest = without_key(s.drop_last(), p);
        if s.last().0@ == p {
            rest
        } else {
            rest.push(s.last())
        }
    }
}

pub open spec fn has_pair(s: Seq<(Principal, String)>, p: Seq<char>, v: Seq<char>) -> bool {
    exists|i: int| 0 <= i < s.len() && (#[trigger] s[i]).0@ == p && s[i].1@ == v
}

/// A copy of `s` without the pairs of principal `p`.
fn remove_key(s: &Vec<(Principal, String)>, p: &Principal) -> (r: Vec<(Principal, String)>)
    ensures
        r@.len() <= s@.len(),
        forall|i: int| 0 <= i < r@.len() ==> (#[trigger] r@[i]).0@ != p@,
        forall|i: int| 0 <= i < r@.len() ==> #[trigger] r@[i].0@ == without_key(s@, p@)[i].0@ && r@[i].1@ == without_key(s@, p@)[i].1@,
        r@.len() == without_key(s@, p@).len(),
{
    let mut out: Vec<(Principal, String)> = Vec::new();
    let mut i: usize = 0;
    while i < s.len()
        invariant
            i <= s.len(),
            out@.len() == without_key(s@.take(i as int), p@).len(),
            out@.len() <= i,
            forall|j: int| 0 <= j < out@.len() ==> (#[trigger] out@[j]).0@ != p@,
            forall|j: int| 0 <= j < out@.len() ==> #[trigger] out@[j].0@ == without_key(s@.take(i as int), p@)[j].0@
                && out@[j].1@ == without_key(s@.take(i as int), p@)[j].1@,
        decreases s.len() - i,
    {
        proof {
            assert(s@.take(i as int + 1).drop_last() =~= s@.take(i as int));
        }
        if !s[i].0.same(p) {
            out.push((s[i].0.copy(), s[i].1.clone()));
        }
        i = i + 1;
    }
    proof {
        assert(s@.take(i as int) =~= s@);
    }
    out
}

/// Whether `s` pairs `p` with `v`.
fn holds_pair(s: &Vec<(Principal, String)>, p: &Principal, v: &String) -> (r: bool)
    ensures
        r == has_pair(s@, p@, v@),
{
    let mut i: usize = 0;
    while i < s.len()
        invariant
            i <= s.len(),
            forall|j: int| 0 <= j < i ==> !((#[trigger] s@[j]).0@ == p@ && s@[j].1@ == v@),
        decreases s.len() - i,
    {
        if s[i].0.same(p) && s[i].1 == *v {
            return true;
        }
        i = i + 1;
    }
    false
}

impl Group {
    /// A new group made from `post`, owned and created by `caller`.
    pub fn from_post(post: PostGroup, caller: &Principal, now: u64) -> (r: Group)
        ensures
            r.name == post.name,
            r.description == post.description,
            r.website == post.website,
            r.tags == post.tags,
            r.privacy == post.privacy,
            r.privacy_gated_type_amount == post.privacy_gated_type_amount,
            r.owner@ == caller@,
            r.created_by@ == caller@,
            r.roles@.len() == 0,
            r.wallets@.len() == 0,
            r.special_members@.len() == 0,
            r.created_on == now,
            r.updated_on == now,
    {
        Group {
            name: post.name,
            description: post.description,
            website: post.website,
            tags: post.tags,
            owner: caller.copy(),
            created_by: caller.copy(),
            privacy: post.privacy,
            privacy_gated_type_amount: post.privacy_gated_type_amount,
            roles: Vec::new(),
            wallets: Vec::new(),
            special_members: Vec::new(),
            created_on: now,
            updated_on: now,
        }
    }

    /// Replaces the editable fields.
    pub fn update(&mut self, update: UpdateGroup, now: u64)
        ensures
            final(self).name == update.name,
            final(self).description == update.description,
            final(self).website == update.website,
            final(self).tags == update.tags,
            final(self).privacy == update.privacy,
            final(self).privacy_gated_type_amount == update.privacy_gated_type_amount,
            final(self).owner == old(self).owner,
            final(self).created_by == old(self).created_by,
            final(self).roles == old(self).roles,
            final(self).wallets == old(self).wallets,
            final(self).special_members == old(self).special_members,
            final(self).created_on == old(self).created_on,
            final(self).updated_on == now,
    {
        self.name = update.name;
        self.description = update.description;
        self.website = update.website;
        self.tags = update.tags;
        self.privacy = update.privacy;
        self.privacy_gated_type_amount = update.privacy_gated_type_amount;
        self.updated_on = now;
    }

    /// Whether `p` is marked as banned.
    pub open spec fn spec_is_banned(self, p: Seq<char>) -> bool {
        has_pair(self.special_members@, p, banned_relation())
    }

    pub fn is_banned_member(&self, p: &Principal) -> (r: bool)
        ensures
            r == self.spec_is_banned(p@),
    {
        proof {
            reveal_strlit("Blocked");
        }
        holds_pair(&self.special_members, p, &"Blocked".to_owned())
    }

    /// Relates `p` to the group with `relation`, replacing an earlier one.
    pub fn add_special_member(&mut self, p: Principal, relation: String)
        ensures
            final(self).special_members@.len() == without_key(old(self).special_members@, p@).len() + 1,
            final(self).special_members@.last().0 == p,
            final(self).special_members@.last().1 == relation,
            forall|i: int| 0 <= i < final(self).special_members@.len() - 1 ==> #[trigger] final(self).special_members@[i].0@
                == without_key(old(self).special_members@, p@)[i].0@
                && final(self).special_members@[i].1@ == without_key(old(self).special_members@, p@)[i].1@,
            final(self).spec_is_banned(p@) == (relation@ == banned_relation()),
            final(self).owner == old(self).owner,
            final(self).privacy == old(self).privacy,
            final(self).privacy_gated_type_amount == old(self).privacy_gated_type_amount,
            final(self).roles == old(self).roles,
            final(self).wallets == old(self).wallets,
            final(self).name == old(self).name,
    {
        let mut kept = remove_key(&self.special_members, &p);
        let ghost k = kept@;
        kept.push((p, relation));
        self.special_members = kept;
        proof {
            let s = self.special_members@;
            if self.spec_is_banned(p@) {
                let i = choose|i: int| 0 <= i < s.len() && (#[trigger] s[i]).0@ == p@ && s[i].1@ == banned_relation();
                if i < s.len() - 1 {
                    assert(s[i] == k[i]);
                }
            }
            if relation@ == banned_relation() {
                assert(s[s.len() - 1] == s.last());
            }
        }
    }

    /// Takes every relation of `p` out.
    pub fn remove_special_member_from_group(&mut self, p: &Principal)
        ensures
            final(self).special_members@.len() == without_key(old(self).special_members@, p@).len(),
            forall|i: int| 0 <= i < final(self).special_members@.len() ==> #[trigger] final(self).special_members@[i].0@
                == without_key(old(self).special_members@, p@)[i].0@
                && final(self).special_members@[i].1@ == without_key(old(self).special_members@, p@)[i].1@,
            !final(self).spec_is_banned(p@),
            final(self).owner == old(self).owner,
            final(self).privacy == old(self).privacy,
            final(self).privacy_gated_type_amount == old(self).privacy_gated_type_amount,
            final(self).roles == old(self).roles,
            final(self).wallets == old(self).wallets,
            final(self).name == old(self).name,
    {
        self.special_members = remove_key(&self.special_members, p);
    }

    /// Links a wallet with its description, replacing an earlier link.
    pub fn add_wallet(&mut self, wallet: Principal, description: String)
        ensures
            final(self).wallets@.len() == without_key(old(self).wallets@, wallet@).len() + 1,
            final(self).wallets@.last().0 == wallet,
            final(self).wallets@.last().1 == description,
            forall|i: int| 0 <= i < final(self).wallets@.len() - 1 ==> #[trigger] final(self).wallets@[i].0@
                == without_key(old(self).wallets@, wallet@)[i].0@
                && final(self).wallets@[i].1@ == without_key(old(self).wallets@, wallet@)[i].1@,
            final(self).special_members == old(self).special_members,
            final(self).roles == old(self).roles,
    {
        let mut kept = remove_key(&self.wallets, &wallet);
        kept.push((wallet, description));
        self.wallets = kept;
    }

    /// Unlinks a wallet.
    pub fn remove_wallet(&mut self, wallet: &Principal)
        ensures
            final(self).wallets@.len() == without_key(old(self).wallets@, wallet@).len(),
            forall|i: int| 0 <= i < final(self).wallets@.len() ==> #[trigger] final(self).wallets@[i].0@
                == without_key(old(self).wallets@, wallet@)[i].0@
                && final(self).wallets@[i].1@ == without_key(old(self).wallets@, wallet@)[i].1@,
            final(self).special_members == old(self).special_members,
            final(self).roles == old(self).roles,
    {
        self.wallets = remove_key(&self.wallets, wallet);
    }
}

impl GroupTransferRequest {
    /// A fresh copy of the request.
    pub fn copy(&self) -> (r: GroupTransferRequest)
        ensures
            r == *self,
    {
        GroupTransferRequest { from: self.from.copy(), to: self.to.copy(), created_on: self.created_on }
    }

    pub fn new(from: Principal, to: Principal, now: u64) -> (r: GroupTransferRequest)
        ensures
            r.from == from,
            r.to == to,
            r.created_on == now,
    {
        GroupTransferRequest { from, to, created_on: now }
    }
}

pub const NAME_MIN: usize = 3;
pub const NAME_MAX: usize = 64;
pub const DESCRIPTION_MAX: usize = 2500;
pub const WEBSITE_MAX: usize = 200;
pub const TAGS_MAX: usize = 25;

/// The field limits of a group: a name of 3 to 64 graphemes, a description
/// of at most 2500, a website of at most 200, and at most 25 tags.
pub open spec fn group_fields_valid(name: Seq<char>, description: Seq<char>, website: Seq<char>, tag_count: nat) -> bool {
    &&& NAME_MIN <= grapheme_count(name) <= NAME_MAX
    &&& grapheme_count(description) <= DESCRIPTION_MAX
    &&& grapheme_count(website) <= WEBSITE_MAX
    &&& tag_count <= TAGS_MAX
}

pub struct GroupValidation;

impl GroupValidation {
    fn validate_fields(name: &String, description: &String, website: &String, tag_count: usize) -> (r: Result<(), ApiError>)
        ensures
            r is Ok == group_fields_valid(name@, description@, website@, tag_count as nat),
            r is Err ==> r == Err::<(), ApiError>(ApiError::BadRequest),
    {
        let name_len = str_len(name.as_str());
        let description_len = str_len(description.as_str());
        let website_len = str_len(website.as_str());
        if name_len < NAME_MIN || name_len > NAME_MAX || description_len > DESCRIPTION_MAX
            || website_len > WEBSITE_MAX || tag_count > TAGS_MAX {
            Err(ApiError::BadRequest)
        } else {
            Ok(())
        }
    }

    /// Whether `privacy` admits a principal for whom the ownership services
    /// reported `ev`: every mode but a gate admits; a gate admits when at
    /// least `required` of its items pass.
    pub fn validate_group_privacy(privacy: &Privacy, required: Option<u64>, ev: &GateEvidence) -> (r: Result<(), ApiError>)
        ensures
            r is Ok == match *privacy {
                Privacy::Gated(gate) => gate_admits(gate, *ev, match required { Some(n) => n, None => 0 }),
                _ => true,
            },
            r is Err ==> r == Err::<(), ApiError>(ApiError::Unauthorized),
    {
        match privacy {
            Privacy::Gated(gate) => {
                let n = match required {
                    Some(n) => n,
                    None => 0,
                };
                if validate_gate(gate, ev, n) {
                    Ok(())
                } else {
                    Err(ApiError::Unauthorized)
                }
            },
            _ => Ok(()),
        }
    }

    /// Checks the field limits of a new group.
    pub fn validate_post_group(post_group: &PostGroup) -> (r: Result<(), ApiError>)
        ensures
            r is Ok == group_fields_valid(post_group.name@, post_group.description@, post_group.website@, post_group.tags@.len()),
            r is Err ==> r == Err::<(), ApiError>(ApiError::BadRequest),
    {
        Self::validate_fields(&post_group.name, &post_group.description, &post_group.website, post_group.tags.len())
    }

    /// Checks the field limits of an edit.
    pub fn validate_update_group(update_group: &UpdateGroup) -> (r: Result<(), ApiError>)
        ensures
            r is Ok == group_fields_valid(update_group.name@, update_group.description@, update_group.website@, update_group.tags@.len()),
            r is Err ==> r == Err::<(), ApiError>(ApiError::BadRequest),
    {
        Self::validate_fields(&update_group.name, &update_group.description, &update_group.website, update_group.tags.len())
    }
}

} // verus!
