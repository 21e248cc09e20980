//! Content-management records: roles, resources, and the default table of
//! permissions.

use vstd::prelude::*;

verus! {

/// The kinds of content that the venue manages.
#[derive(Clone, Copy, Debug, PartialEq, Eq, Structural)]
pub enum ContentType {
    MenuItem,
    Cocktail,
    Wine,
    Special,
    Event,
    StaffNote,
    Checklist,
}

/// Where a scheduled piece of content stands.
#[derive(Clone, Copy, Debug, PartialEq, Eq, Structural)]
pub enum ScheduleStatus {
    Pending,
    Published,
    Expired,
    Cancelled,
}

/// What an audit entry records.
#[derive(Clone, Copy, Debug, PartialEq, Eq, Structural)]
pub enum AuditAction {
    Create,
    Update,
    Delete,
    Publish,
    Unpublish,
    Archive,
    Restore,
    PriceChange,
    StockUpdate,
    UserLogin,
}

/// The roles of the staff.
#[derive(Clone, Copy, Debug, PartialEq, Eq, Structural)]
pub enum UserRole {
    Owner,
    Manager,
    Bartender,
    Server,
    Host,
    Kitchen,
}

/// What a permission is about.
#[derive(Clone, Copy, Debug, PartialEq, Eq, Structural)]
pub enum ResourceType {
    Menu,
    Cocktails,
    Wine,
    Specials,
    Staff,
    Reports,
    Settings,
    Inventory,
}

/// What a role may do with a resource.
#[derive(Clone, Copy, Debug, PartialEq, Eq, Structural)]
pub enum Action {
    Read,
    Create,
    Update,
    Delete,
    Publish,
    ViewCost,
    ManageUsers,
    ViewAudit,
}

/// The actions that one role may take on one resource.
#[derive(Debug)]
pub struct CMSPermission {
    pub role: UserRole,
    pub resource: ResourceType,
    pub actions: Vec<Action>,
}

/// Mathematical value of a [`CMSPermission`].
pub struct PermissionView {
    pub role: UserRole,
    pub resource: ResourceType,
    pub actions: Seq<Action>,
}

impl View for CMSPermission {
    type V = PermissionView;

    open spec fn view(&self) -> PermissionView {
        PermissionView { role: self.role, resource: self.resource, actions: self.actions@ }
    }
}

impl Clone for CMSPermission {
    fn clone(&self) -> (r: Self)
        ensures
            r@ == self@,
    {
        let actions = self.actions.clone();
        assert(actions@ =~= self.actions@);
        CMSPermission { role: self.role, resource: self.resource, actions }
    }
}

/// The mathematical values of a list of permissions, in order.
pub open spec fn permission_views(s: Seq<CMSPermission>) -> Seq<PermissionView> {
    s.map_values(|p: CMSPermission| p@)
}

/// The table grants `action` on `resource` to `role`.
pub open spec fn grants(
    table: Seq<PermissionView>,
    role: UserRole,
    resource: ResourceType,
    action: Action,
) -> bool {
    exists|i: int|
        0 <= i < table.len() && (#[trigger] table[i]).role == role && table[i].resource
            == resource && table[i].actions.contains(action)
}

/// The permissions that a new venue starts with: the owner has every
/// action on the menu but the management of users, the manager may read,
/// create, update, publish and see costs there, the bartender may read the
/// cocktails, and the server may read the menu.
pub open spec fn default_table() -> Seq<PermissionView> {
    seq![
        PermissionView {
            role: UserRole::Owner,
            resource: ResourceType::Menu,
            actions: seq![
                Action::Read,
                Action::Create,
                Action::Update,
                Action::Delete,
                Action::Publish,
                Action::ViewCost,
                Action::ViewAudit,
            ],
        },
        PermissionView {
            role: UserRole::Manager,
            resource: ResourceType::Menu,
            actions: seq![
                Action::Read,
                Action::Create,
                Action::Update,
                Action::Publish,
                Action::ViewCost,
            ],
        },
        PermissionView {
            role: UserRole::Bartender,
            resource: ResourceType::Cocktails,
            actions: seq![Action::Read],
        },
        PermissionView {
            role: UserRole::Server,
            resource: ResourceType::Menu,
            actions: seq![Action::Read],
        },
    ]
}

impl CMSPermission {
    /// The permissions that a new venue starts with.
    pub fn default_permissions() -> (perms: Vec<CMSPermission>)
        ensures
            permission_views(perms@) == default_table(),
    {
        let perms = vec![
            CMSPermission {
                role: UserRole::Owner,
                resource: ResourceType::Menu,
                actions: vec![
                    Action::Read,
                    Action::Create,
                    Action::Update,
                    Action::Delete,
                    Action::Publish,
                    Action::ViewCost,
                    Action::ViewAudit,
                ],
            },
            CMSPermission {
                role: UserRole::Manager,
                resource: ResourceType::Menu,
                actions: vec![
                    Action::Read,
                    Action::Create,
                    Action::Update,
                    Action::Publish,
                    Action::ViewCost,
                ],
            },
            CMSPermission {
                role: UserRole::Bartender,
                resource: ResourceType::Cocktails,
                actions: vec![Action::Read],
            },
            CMSPermission {
                role: UserRole::Server,
                resource: ResourceType::Menu,
                actions: vec![Action::Read],
            },
        ];
        proof {
            let got = permission_views(perms@);
            let want = default_table();
            assert(got.len() == want.len());
            assert(got[0].actions =~= want[0].actions);
            assert(got[1].actions =~= want[1].actions);
            assert(got[2].actions =~= want[2].actions);
            assert(got[3].actions =~= want[3].actions);
            assert(got =~= want);
        }
        perms
    }
}

/// In the default table every role that is named may read its resource,
/// and nobody but the owner may delete or see the audit trail.
pub proof fn lemma_default_table_grants()
    ensures
        forall|i: int|
            0 <= i < default_table().len() ==> (#[trigger] default_table()[i]).actions.contains(
                Action::Read,
            ),
        forall|role: UserRole, resource: ResourceType|
            grants(default_table(), role, resource, Action::Delete) ==> role == UserRole::Owner,
        forall|role: UserRole, resource: ResourceType|
            grants(default_table(), role, resource, Action::ViewAudit) ==> role
                == UserRole::Owner,
        forall|role: UserRole, resource: ResourceType|
            !grants(default_table(), role, resource, Action::ManageUsers),
{
    let t = default_table();
    assert(t[0].actions[0] == Action::Read);
    assert(t[1].actions[0] == Action::Read);
    assert(t[2].actions[0] == Action::Read);
    assert(t[3].actions[0] == Action::Read);
}

} // verus!
