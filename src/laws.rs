//! Properties that hold across operations of the registry.

use vstd::prelude::*;

use crate::engine::{only_member_role, GroupCalls};
use crate::group_roles::role_stripped;
use crate::error::ApiError;
use crate::member::{without_role, Member};
use crate::privacy::GateEvidence;

verus! {

/// The two sides of the registry agree: `p` is on the roster of `g` exactly
/// when the record of `p` holds a join of `g`, and among the invitees of `g`
/// exactly when it holds an invite of `g`. Every operation keeps `wf`, so
/// this holds after any sequence of them.
pub proof fn lemma_roster_agrees(s: GroupCalls, p: Seq<char>, g: u64)
    requires
        s.wf(),
    ensures
        s.roster(g).contains(p) <==> s.is_group_joined(p, g),
        s.invitees(g).contains(p) <==> s.is_group_invited(p, g),
{
    if s.roster(g).contains(p) {
        let i = choose|i: int| 0 <= i < s.members@.len()
            && (#[trigger] s.members@[i]).principal@ == p && s.members@[i].joined@.contains_key(g);
        s.lemma_index_of(i);
    }
    if s.is_group_joined(p, g) {
        let i = s.index_of(p);
        assert(s.members@[i].principal@ == p);
    }
    if s.invitees(g).contains(p) {
        let i = choose|i: int| 0 <= i < s.members@.len()
            && (#[trigger] s.members@[i]).principal@ == p && s.members@[i].invites@.contains_key(g);
        s.lemma_index_of(i);
    }
    if s.is_group_invited(p, g) {
        let i = s.index_of(p);
        assert(s.members@[i].principal@ == p);
    }
}

/// No principal holds a join and an invite of the same group at once.
pub proof fn lemma_no_join_and_invite(s: GroupCalls, p: Seq<char>, g: u64)
    requires
        s.wf(),
    ensures
        !(s.is_group_joined(p, g) && s.is_group_invited(p, g)),
{
    if s.has_member(p) {
        let i = s.index_of(p);
        assert(s.members@[i].wf());
    }
}

/// A join request from a principal banned from an existing group is refused
/// as unauthorized, whatever the group's privacy and whatever the ownership services
/// answered.
pub proof fn lemma_banned_join_refused(s: GroupCalls, p: Seq<char>, g: u64, ev: GateEvidence)
    requires
        s.has_group(g),
        s.groups@[g].spec_is_banned(p),
    ensures
        s.join_error(p, g, ev) == Some(ApiError::Unauthorized),
{
}

/// Once a group is deleted, answering a join request for it is refused as
/// not found, so no join is half made.
pub proof fn lemma_answer_after_delete(before: GroupCalls, after: GroupCalls, p: Seq<char>, g: u64)
    requires
        after.groups@ == before.groups@.remove(g),
    ensures
        after.user_request_error(p, g) == Some(ApiError::NotFound),
{
}

/// Taking a role from a member never leaves it without a role: where no
/// role would be left it holds exactly "member".
pub proof fn lemma_role_removal_keeps_a_role(before: Member, after: Member, g: u64, role: Seq<char>)
    requires
        role_stripped(before, after, g, role),
        before.joined@.contains_key(g),
    ensures
        after.roles_in(g).len() >= 1,
        without_role(before.roles_in(g), role).len() == 0 ==> only_member_role(after.roles_in(g)),
{
}

} // verus!
