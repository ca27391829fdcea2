//! Users of the web interface and what they may do.

use vstd::prelude::*;

use crate::ids::Uuid;
use crate::text::{text_eq, texts};

verus! {

/// Membership of an organization, with a role.
#[derive(Debug, Clone)]
pub struct OrgMembership {
    pub org_id: Uuid,
    /// "admin", "write", "read"
    pub role: String,
    /// Permissions beyond the role. An organization's admin has all of them
    /// without being listed here.
    pub permissions: Vec<String>,
}

impl OrgMembership {
    /// A membership without permissions beyond its role.
    pub fn new(org_id: Uuid, role: &str) -> (r: OrgMembership)
        ensures
            r.org_id == org_id,
            r.role@ == role@,
            r.permissions@.len() == 0,
    {
        OrgMembership { org_id, role: role.to_owned(), permissions: Vec::new() }
    }

    /// Whether the role is that of an admin.
    pub open spec fn is_admin(self) -> bool {
        self.role@ == "admin"@
    }

    /// Whether the role lets its holder write.
    pub open spec fn writes(self) -> bool {
        self.is_admin() || self.role@ == "write"@
    }

    /// Whether a permission is listed.
    pub open spec fn grants(self, permission: Seq<char>) -> bool {
        texts(self.permissions@).contains(permission)
    }

    /// Whether the role is that of an admin.
    fn has_admin_role(&self) -> (r: bool)
        ensures
            r == self.is_admin(),
    {
        text_eq(self.role.as_str(), "admin")
    }

    /// Whether a permission is listed.
    fn lists_permission(&self, permission: &str) -> (r: bool)
        ensures
            r == self.grants(permission@),
    {
        let mut i: usize = 0;
        while i < self.permissions.len()
            invariant
                i <= self.permissions@.len(),
                forall|k: int| 0 <= k < i ==> texts(self.permissions@)[k] != permission@,
            decreases self.permissions.len() - i,
        {
            if text_eq(self.permissions[i].as_str(), permission) {
                proof {
                    assert(texts(self.permissions@)[i as int] == permission@);
                }
                return true;
            }
            i = i + 1;
        }
        false
    }
}

/// A user of the web interface.
#[derive(Debug, Clone)]
pub struct WebUser {
    pub id: Uuid,
    pub email: String,
    pub name: String,
    pub is_admin: bool,
    pub org_memberships: Vec<OrgMembership>,
    /// The admin who acts as this user, if one does.
    pub impersonating_from: Option<Uuid>,
}

/// The organization of each membership.
pub open spec fn orgs_of(memberships: Seq<OrgMembership>) -> Seq<Uuid> {
    memberships.map_values(|m: OrgMembership| m.org_id)
}

impl WebUser {
    /// Whether the user administers an organization: as an admin of it, or of
    /// everything.
    pub open spec fn administers(self, org_id: Uuid) -> bool {
        self.is_admin || exists|i: int|
            0 <= i < self.org_memberships@.len() && (#[trigger] self.org_memberships@[i]).org_id
                == org_id && self.org_memberships@[i].is_admin()
    }

    /// Whether a membership lists a permission in an organization.
    pub open spec fn granted(self, org_id: Uuid, permission: Seq<char>) -> bool {
        exists|i: int|
            0 <= i < self.org_memberships@.len() && (#[trigger] self.org_memberships@[i]).org_id
                == org_id && self.org_memberships@[i].grants(permission)
    }

    /// The organizations that the user belongs to, in any role.
    pub fn org_ids(&self) -> (r: Vec<Uuid>)
        ensures
            r@ == orgs_of(self.org_memberships@),
    {
        let mut out: Vec<Uuid> = Vec::new();
        let mut i: usize = 0;
        while i < self.org_memberships.len()
            invariant
                i <= self.org_memberships@.len(),
                out@ == orgs_of(self.org_memberships@.take(i as int)),
            decreases self.org_memberships.len() - i,
        {
            out.push(self.org_memberships[i].org_id);
            i = i + 1;
            proof {
                assert(out@ =~= orgs_of(self.org_memberships@.take(i as int)));
            }
        }
        proof {
            assert(self.org_memberships@.take(i as int) =~= self.org_memberships@);
        }
        out
    }

    /// The organizations where the user has the write or the admin role.
    pub fn write_org_ids(&self) -> (r: Vec<Uuid>)
        ensures
            r@ == orgs_of(self.org_memberships@.filter(|m: OrgMembership| m.writes())),
    {
        let ghost keeps = |m: OrgMembership| m.writes();
        let ghost all = self.org_memberships@;
        let mut out: Vec<Uuid> = Vec::new();
        let mut i: usize = 0;
        proof {
            reveal(Seq::filter);
            assert(out@ =~= orgs_of(all.take(0).filter(keeps)));
        }
        while i < self.org_memberships.len()
            invariant
                i <= self.org_memberships@.len(),
                all == self.org_memberships@,
                keeps == (|m: OrgMembership| m.writes()),
                out@ == orgs_of(all.take(i as int).filter(keeps)),
            decreases self.org_memberships.len() - i,
        {
            let m = &self.org_memberships[i];
            let ghost kept = all.take(i as int).filter(keeps);
            proof {
                reveal(Seq::filter);
                assert(all.take(i + 1).drop_last() =~= all.take(i as int));
                assert(orgs_of(kept.push(*m)) =~= orgs_of(kept).push(m.org_id));
            }
            if m.has_admin_role() || text_eq(m.role.as_str(), "write") {
                out.push(m.org_id);
            }
            i = i + 1;
        }
        proof {
            assert(all.take(i as int) =~= all);
        }
        out
    }

    /// Whether the user holds a permission in an organization. An admin holds
    /// all of them.
    pub fn has_org_permission(&self, org_id: &Uuid, permission: &str) -> (r: bool)
        ensures
            r == (self.administers(*org_id) || self.granted(*org_id, permission@)),
    {
        if self.is_org_admin(org_id) {
            return true;
        }
        let mut i: usize = 0;
        while i < self.org_memberships.len()
            invariant
                i <= self.org_memberships@.len(),
                forall|k: int|
                    0 <= k < i ==> !((#[trigger] self.org_memberships@[k]).org_id == *org_id
                        && self.org_memberships@[k].grants(permission@)),
            decreases self.org_memberships.len() - i,
        {
            let m = &self.org_memberships[i];
            if m.org_id == *org_id && m.lists_permission(permission) {
                return true;
            }
            i = i + 1;
        }
        false
    }

    /// The organizations where the user holds a permission, by role or by
    /// listing.
    pub fn permitted_org_ids(&self, permission: &str) -> (r: Vec<Uuid>)
        ensures
            r@ == orgs_of(
                self.org_memberships@.filter(
                    |m: OrgMembership| m.is_admin() || m.grants(permission@),
                ),
            ),
    {
        let ghost keeps = |m: OrgMembership| m.is_admin() || m.grants(permission@);
        let ghost all = self.org_memberships@;
        let mut out: Vec<Uuid> = Vec::new();
        let mut i: usize = 0;
        proof {
            reveal(Seq::filter);
            assert(out@ =~= orgs_of(all.take(0).filter(keeps)));
        }
        while i < self.org_memberships.len()
            invariant
                i <= self.org_memberships@.len(),
                all == self.org_memberships@,
                keeps == (|m: OrgMembership| m.is_admin() || m.grants(permission@)),
                out@ == orgs_of(all.take(i as int).filter(keeps)),
            decreases self.org_memberships.len() - i,
        {
            let m = &self.org_memberships[i];
            let ghost kept = all.take(i as int).filter(keeps);
            proof {
                reveal(Seq::filter);
                assert(all.take(i + 1).drop_last() =~= all.take(i as int));
                assert(orgs_of(kept.push(*m)) =~= orgs_of(kept).push(m.org_id));
            }
            if m.has_admin_role() || m.lists_permission(permission) {
                out.push(m.org_id);
            }
            i = i + 1;
        }
        proof {
            assert(all.take(i as int) =~= all);
        }
        out
    }

    /// Whether the user administers an organization.
    pub fn is_org_admin(&self, org_id: &Uuid) -> (r: bool)
        ensures
            r == self.administers(*org_id),
    {
        if self.is_admin {
            return true;
        }
        let mut i: usize = 0;
        while i < self.org_memberships.len()
            invariant
                i <= self.org_memberships@.len(),
                !self.is_admin,
                forall|k: int|
                    0 <= k < i ==> !((#[trigger] self.org_memberships@[k]).org_id == *org_id
                        && self.org_memberships@[k].is_admin()),
            decreases self.org_memberships.len() - i,
        {
            let m = &self.org_memberships[i];
            if m.org_id == *org_id && m.has_admin_role() {
                return true;
            }
            i = i + 1;
        }
        false
    }

    /// Refuses users who do not administer everything.
    pub fn require_admin_str(&self) -> (r: Result<(), &'static str>)
        ensures
            if self.is_admin {
                r is Ok
            } else {
                r matches Err(e) && e@ == "admin access required"@
            },
    {
        if self.is_admin {
            Ok(())
        } else {
            Err("admin access required")
        }
    }

    /// Refuses users who do not administer an organization.
    pub fn require_org_admin_str(&self, org_id: &Uuid) -> (r: Result<(), &'static str>)
        ensures
            if self.administers(*org_id) {
                r is Ok
            } else {
                r matches Err(e) && e@ == "organization admin access required"@
            },
    {
        if self.is_org_admin(org_id) {
            Ok(())
        } else {
            Err("organization admin access required")
        }
    }
}

/// An admin of an organization holds every permission in it without being
/// granted any.
pub proof fn admins_hold_every_permission(user: WebUser, org_id: Uuid, at: int)
    requires
        0 <= at < user.org_memberships@.len(),
        user.org_memberships@[at].org_id == org_id,
        user.org_memberships@[at].is_admin(),
    ensures
        user.administers(org_id),
        orgs_of(user.org_memberships@.filter(|m: OrgMembership| m.writes())).contains(org_id),
{
    let keeps = |m: OrgMembership| m.writes();
    let m = user.org_memberships@[at];
    user.org_memberships@.lemma_filter_contains(keeps, at);
    let kept = user.org_memberships@.filter(keeps);
    let k = choose|k: int| 0 <= k < kept.len() && kept[k] == m;
    assert(orgs_of(kept)[k] == org_id);
}

/// For a user who does not administer everything, the organizations where a
/// permission is held are those in which it is held.
pub proof fn permitted_orgs_are_those_with_the_permission(
    user: WebUser,
    org_id: Uuid,
    permission: Seq<char>,
)
    requires
        !user.is_admin,
    ensures
        orgs_of(
            user.org_memberships@.filter(|m: OrgMembership| m.is_admin() || m.grants(permission)),
        ).contains(org_id) <==> user.administers(org_id) || user.granted(org_id, permission),
{
    let keeps = |m: OrgMembership| m.is_admin() || m.grants(permission);
    let all = user.org_memberships@;
    let kept = all.filter(keeps);
    if orgs_of(kept).contains(org_id) {
        let k = choose|k: int| 0 <= k < orgs_of(kept).len() && orgs_of(kept)[k] == org_id;
        all.lemma_filter_pred(keeps, k);
        assert(kept.contains(kept[k]));
        all.lemma_filter_contains_rev(keeps, kept[k]);
        let i = choose|i: int| 0 <= i < all.len() && all[i] == kept[k];
        assert(all[i].org_id == org_id);
    }
    if user.administers(org_id) || user.granted(org_id, permission) {
        let i = choose|i: int|
            0 <= i < all.len() && (#[trigger] all[i]).org_id == org_id && keeps(all[i]);
        all.lemma_filter_contains(keeps, i);
        let k = choose|k: int| 0 <= k < kept.len() && kept[k] == all[i];
        assert(orgs_of(kept)[k] == org_id);
    }
}

/// The role of an admin, or of who may write, goes by its name; a permission is
/// granted where it is listed.
pub proof fn roles_go_by_their_names(m: OrgMembership, permission: Seq<char>)
    ensures
        m.is_admin() <==> m.role@ == "admin"@,
        m.writes() <==> m.role@ == "admin"@ || m.role@ == "write"@,
        m.grants(permission) <==> exists|i: int|
            0 <= i < m.permissions@.len() && (#[trigger] m.permissions@[i])@ == permission,
{
    let all = texts(m.permissions@);
    if m.grants(permission) {
        let k = choose|k: int| 0 <= k < all.len() && all[k] == permission;
        assert(m.permissions@[k]@ == permission);
    }
    if exists|i: int| 0 <= i < m.permissions@.len() && (#[trigger] m.permissions@[i])@ == permission {
        let i = choose|i: int|
            0 <= i < m.permissions@.len() && (#[trigger] m.permissions@[i])@ == permission;
        assert(all[i] == permission);
    }
}

/// A user administers an organization as an admin of everything, or with the
/// role of an admin in it, and not otherwise; what is listed for a user in one
/// organization is granted in that one.
pub proof fn users_act_by_their_memberships(user: WebUser, org_id: Uuid, permission: Seq<char>)
    ensures
        user.is_admin ==> user.administers(org_id),
        !user.is_admin ==> (user.administers(org_id) <==> exists|i: int|
            0 <= i < user.org_memberships@.len() && (#[trigger] user.org_memberships@[i]).org_id
                == org_id && user.org_memberships@[i].role@ == "admin"@),
        user.granted(org_id, permission) <==> exists|i: int|
            0 <= i < user.org_memberships@.len() && (#[trigger] user.org_memberships@[i]).org_id
                == org_id && user.org_memberships@[i].grants(permission),
{
}

/// The organizations of memberships are listed one by one, in their order.
pub proof fn organizations_are_listed_in_order(memberships: Seq<OrgMembership>)
    ensures
        orgs_of(memberships).len() == memberships.len(),
        forall|i: int|
            0 <= i < memberships.len() ==> #[trigger] orgs_of(memberships)[i]
                == memberships[i].org_id,
{
}

}
