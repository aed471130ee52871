//! Roles and permission sets.

use vstd::prelude::*;

use crate::member::{holds_role, member_role, owner_role};

verus! {

/// The kind of object a permission is about.
#[derive(Clone, Copy, Debug, PartialEq, Eq, Structural)]
pub enum PermissionType {
    Group,
    Member,
    Invite,
    Event,
    Attendee,
    Report,
}

/// What a permission allows on its object.
#[derive(Clone, Copy, Debug, PartialEq, Eq, Structural)]
pub enum PermissionActionType {
    Read,
    Write,
    Delete,
}

/// The actions a role may take on one kind of object.
#[derive(Clone, Copy, Debug, PartialEq, Eq, Structural)]
pub struct Permission {
    pub name: PermissionType,
    pub read: bool,
    pub write: bool,
    pub delete: bool,
}

/// A named role of a group with its permission set.
#[derive(Clone, Debug)]
pub struct Role {
    pub name: String,
    pub protected: bool,
    pub permissions: Vec<Permission>,
    pub color: String,
    pub index: Option<u64>,
}

pub open spec fn allows(p: Permission, action: PermissionActionType) -> bool {
    match action {
        PermissionActionType::Read => p.read,
        PermissionActionType::Write => p.write,
        PermissionActionType::Delete => p.delete,
    }
}

/// Whether a permission set grants `action` on `ptype`.
pub open spec fn grants(perms: Seq<Permission>, ptype: PermissionType, action: PermissionActionType) -> bool {
    exists|k: int| 0 <= k < perms.len() && (#[trigger] perms[k]).name == ptype && allows(perms[k], action)
}

/// Whether some role named in `names` resolves against `roles` to a role
/// that grants `action` on `ptype`.
pub open spec fn names_grant(
    roles: Seq<Role>,
    names: Seq<String>,
    ptype: PermissionType,
    action: PermissionActionType,
) -> bool {
    exists|j: int|
        0 <= j < roles.len() && holds_role(names, (#[trigger] roles[j]).name@) && grants(roles[j].permissions@, ptype, action)
}

pub open spec fn all_types() -> Seq<PermissionType> {
    seq![
        PermissionType::Group,
        PermissionType::Member,
        PermissionType::Invite,
        PermissionType::Event,
        PermissionType::Attendee,
        PermissionType::Report,
    ]
}

fn all_permission_types() -> (r: Vec<PermissionType>)
    ensures
        r@ == all_types(),
{
    let r = vec![
        PermissionType::Group,
        PermissionType::Member,
        PermissionType::Invite,
        PermissionType::Event,
        PermissionType::Attendee,
        PermissionType::Report,
    ];
    proof {
        assert(r@ =~= all_types());
    }
    r
}

/// One permission per object kind, each allowing exactly what is asked.
fn uniform_permissions(read: bool, write: bool, delete: bool) -> (r: Vec<Permission>)
    ensures
        r@.len() == all_types().len(),
        forall|k: int| 0 <= k < r@.len() ==> #[trigger] r@[k] == (Permission { name: all_types()[k], read, write, delete }),
{
    let types = all_permission_types();
    let mut out: Vec<Permission> = Vec::new();
    let mut i: usize = 0;
    while i < types.len()
        invariant
            i <= types.len(),
            types@ == all_types(),
            out@.len() == i,
            forall|k: int| 0 <= k < i ==> #[trigger] out@[k] == (Permission { name: all_types()[k], read, write, delete }),
        decreases types.len() - i,
    {
        out.push(Permission { name: types[i], read, write, delete });
        i = i + 1;
    }
    out
}

/// Read access to every kind of object, nothing more.
pub fn read_only_permissions() -> (r: Vec<Permission>)
    ensures
        forall|t: PermissionType| #[trigger] grants(r@, t, PermissionActionType::Read),
        forall|t: PermissionType| !#[trigger] grants(r@, t, PermissionActionType::Write),
        forall|t: PermissionType| !#[trigger] grants(r@, t, PermissionActionType::Delete),
{
    let r = uniform_permissions(true, false, false);
    proof {
        assert forall|t: PermissionType| #[trigger] grants(r@, t, PermissionActionType::Read) by {
            lemma_type_listed(t);
            let k = choose|k: int| 0 <= k < all_types().len() && all_types()[k] == t;
            assert(r@[k].name == t);
        }
    }
    r
}

/// Every action on every kind of object.
pub fn full_permissions() -> (r: Vec<Permission>)
    ensures
        forall|t: PermissionType, a: PermissionActionType| #[trigger] grants(r@, t, a),
{
    let r = uniform_permissions(true, true, true);
    proof {
        assert forall|t: PermissionType, a: PermissionActionType| #[trigger] grants(r@, t, a) by {
            lemma_type_listed(t);
            let k = choose|k: int| 0 <= k < all_types().len() && all_types()[k] == t;
            assert(r@[k].name == t);
        }
    }
    r
}

proof fn lemma_type_listed(t: PermissionType)
    ensures
        exists|k: int| 0 <= k < all_types().len() && all_types()[k] == t,
{
    match t {
        PermissionType::Group => assert(all_types()[0] == t),
        PermissionType::Member => assert(all_types()[1] == t),
        PermissionType::Invite => assert(all_types()[2] == t),
        PermissionType::Event => assert(all_types()[3] == t),
        PermissionType::Attendee => assert(all_types()[4] == t),
        PermissionType::Report => assert(all_types()[5] == t),
    }
}

/// The implicit roles every group has: "owner" with every permission and
/// "member" with read access only.
pub open spec fn is_default_roles(r: Seq<Role>) -> bool {
    &&& r.len() == 2
    &&& r[0].name@ == owner_role()
    &&& r[0].protected
    &&& forall|t: PermissionType, a: PermissionActionType| #[trigger] grants(r[0].permissions@, t, a)
    &&& r[1].name@ == member_role()
    &&& r[1].protected
    &&& forall|t: PermissionType| #[trigger] grants(r[1].permissions@, t, PermissionActionType::Read)
    &&& forall|t: PermissionType| !#[trigger] grants(r[1].permissions@, t, PermissionActionType::Write)
    &&& forall|t: PermissionType| !#[trigger] grants(r[1].permissions@, t, PermissionActionType::Delete)
}

pub fn default_roles() -> (r: Vec<Role>)
    ensures
        is_default_roles(r@),
{
    let owner = Role {
        name: "owner".to_owned(),
        protected: true,
        permissions: full_permissions(),
        color: "#000000".to_owned(),
        index: Some(0),
    };
    let member = Role {
        name: "member".to_owned(),
        protected: true,
        permissions: read_only_permissions(),
        color: "#000000".to_owned(),
        index: Some(1),
    };
    proof {
        reveal_strlit("owner");
        reveal_strlit("member");
    }
    vec![owner, member]
}

impl Role {
    pub fn new(name: String, protected: bool, permissions: Vec<Permission>, color: String, index: Option<u64>) -> (r: Role)
        ensures
            r == (Role { name, protected, permissions, color, index }),
    {
        Role { name, protected, permissions, color, index }
    }

    /// A fresh copy of the role.
    pub fn copy(&self) -> (r: Role)
        ensures
            r.name == self.name,
            r.protected == self.protected,
            r.permissions@ == self.permissions@,
            r.color == self.color,
            r.index == self.index,
    {
        let mut permissions: Vec<Permission> = Vec::new();
        let mut i: usize = 0;
        while i < self.permissions.len()
            invariant
                i <= self.permissions.len(),
                permissions@ == self.permissions@.take(i as int),
            decreases self.permissions.len() - i,
        {
            permissions.push(self.permissions[i]);
            i = i + 1;
            proof {
                assert(permissions@ =~= self.permissions@.take(i as int));
            }
        }
        proof {
            assert(permissions@ =~= self.permissions@);
        }
        Role { name: self.name.clone(), protected: self.protected, permissions, color: self.color.clone(), index: self.index }
    }

    /// Whether this role grants `action` on `ptype`.
    pub fn grants(&self, ptype: PermissionType, action: PermissionActionType) -> (r: bool)
        ensures
            r == grants(self.permissions@, ptype, action),
    {
        let mut k: usize = 0;
        while k < self.permissions.len()
            invariant
                k <= self.permissions.len(),
                forall|j: int| 0 <= j < k ==> !((#[trigger] self.permissions@[j]).name == ptype && allows(self.permissions@[j], action)),
            decreases self.permissions.len() - k,
        {
            let p = self.permissions[k];
            let ok = match action {
                PermissionActionType::Read => p.read,
                PermissionActionType::Write => p.write,
                PermissionActionType::Delete => p.delete,
            };
            if p.name == ptype && ok {
                return true;
            }
            k = k + 1;
        }
        false
    }
}

/// The position of the first role named `name`.
pub fn position_of_role(roles: &Vec<Role>, name: &String) -> (r: Option<usize>)
    ensures
        r is None <==> forall|j: int| 0 <= j < roles@.len() ==> (#[trigger] roles@[j]).name@ != name@,
        r matches Some(k) ==> k < roles@.len() && roles@[k as int].name@ == name@
            && forall|j: int| 0 <= j < k ==> (#[trigger] roles@[j]).name@ != name@,
{
    let mut j: usize = 0;
    while j < roles.len()
        invariant
            j <= roles.len(),
            forall|i: int| 0 <= i < j ==> (#[trigger] roles@[i]).name@ != name@,
        decreases roles.len() - j,
    {
        if roles[j].name == *name {
            return Some(j);
        }
        j = j + 1;
    }
    None
}

/// Whether the role names in `names`, resolved against `roles`, grant
/// `action` on `ptype`.
pub fn roles_grant(roles: &Vec<Role>, names: &Vec<String>, ptype: PermissionType, action: PermissionActionType) -> (r: bool)
    ensures
        r == names_grant(roles@, names@, ptype, action),
{
    let mut j: usize = 0;
    while j < roles.len()
        invariant
            j <= roles.len(),
            forall|i: int| 0 <= i < j ==> !(holds_role(names@, (#[trigger] roles@[i]).name@) && grants(roles@[i].permissions@, ptype, action)),
        decreases roles.len() - j,
    {
        if crate::member::contains_role(names, &roles[j].name) && roles[j].grants(ptype, action) {
            return true;
        }
        j = j + 1;
    }
    false
}

} // verus!
