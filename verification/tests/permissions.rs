use eighty_six::cms::{Action, CMSPermission, ResourceType, UserRole};

#[test]
fn the_default_table_has_four_entries() {
    let table = CMSPermission::default_permissions();
    assert_eq!(table.len(), 4);
    assert_eq!(table[0].role, UserRole::Owner);
    assert_eq!(table[0].resource, ResourceType::Menu);
    assert_eq!(
        table[0].actions,
        vec![
            Action::Read,
            Action::Create,
            Action::Update,
            Action::Delete,
            Action::Publish,
            Action::ViewCost,
            Action::ViewAudit
        ]
    );
    assert_eq!(table[1].role, UserRole::Manager);
    assert_eq!(table[1].resource, ResourceType::Menu);
    assert_eq!(
        table[1].actions,
        vec![Action::Read, Action::Create, Action::Update, Action::Publish, Action::ViewCost]
    );
    assert_eq!(table[2].role, UserRole::Bartender);
    assert_eq!(table[2].resource, ResourceType::Cocktails);
    assert_eq!(table[2].actions, vec![Action::Read]);
    assert_eq!(table[3].role, UserRole::Server);
    assert_eq!(table[3].resource, ResourceType::Menu);
    assert_eq!(table[3].actions, vec![Action::Read]);
}

#[test]
fn nobody_manages_users_by_default_and_only_the_owner_deletes() {
    let table = CMSPermission::default_permissions();
    for p in table.iter() {
        assert!(p.actions.contains(&Action::Read));
        assert!(!p.actions.contains(&Action::ManageUsers));
        if p.actions.contains(&Action::Delete) || p.actions.contains(&Action::ViewAudit) {
            assert_eq!(p.role, UserRole::Owner);
        }
    }
}

#[test]
fn cloning_a_permission_keeps_it() {
    let table = CMSPermission::default_permissions();
    let copy = table[1].clone();
    assert_eq!(copy.role, UserRole::Manager);
    assert_eq!(copy.resource, ResourceType::Menu);
    assert_eq!(copy.actions, table[1].actions);
}
