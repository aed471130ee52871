use catalyze::engine::{GroupCalls, USER_GROUP_CREATION_LIMIT};
use catalyze::group::{GroupValidation, PostGroup, UpdateGroup};
use catalyze::principal::Principal;
use catalyze::privacy::{GateEvidence, Privacy};
use catalyze::role::{Permission, PermissionActionType, PermissionType};
use catalyze::ApiError;

fn pr(text: &str) -> Principal {
    Principal::from_text(text.to_string())
}

fn post(name: &str, privacy: Privacy) -> PostGroup {
    PostGroup {
        name: name.to_string(),
        description: String::new(),
        website: String::new(),
        tags: vec![],
        privacy,
        privacy_gated_type_amount: None,
    }
}

fn update(name: &str) -> UpdateGroup {
    UpdateGroup {
        name: name.to_string(),
        description: "new".to_string(),
        website: "https://example.org".to_string(),
        tags: vec![1, 2],
        privacy: Privacy::Private,
        privacy_gated_type_amount: None,
    }
}

fn ev() -> GateEvidence {
    GateEvidence { has_account: false, balances: vec![], neurons: vec![] }
}

fn registry(names: &[&str]) -> GroupCalls {
    let mut reg = GroupCalls::new();
    for n in names {
        reg.add_member(pr(n), pr(n)).unwrap();
    }
    reg
}

#[test]
fn create_group_makes_creator_owner() {
    let mut reg = registry(&["o"]);
    let g = reg.add_group(&pr("o"), post("Alpha", Privacy::Public), 42).unwrap();
    let group = reg.get_group(g).unwrap();
    assert_eq!(group.name, "Alpha");
    assert_eq!(group.owner, pr("o"));
    assert_eq!(group.created_on, 42);
    let o = reg.get_member(&pr("o")).unwrap();
    assert!(o.is_group_owner(&g));
    assert!(!o.is_group_member(&g));
    assert_eq!(o.get_owned(), vec![g]);
    assert_eq!(reg.get_group_count_data(&g), 1);
}

#[test]
fn create_group_errors() {
    let mut reg = registry(&["o"]);
    assert_eq!(reg.add_group(&pr("o"), post("Al", Privacy::Public), 1), Err(ApiError::BadRequest));
    let mut long = post("Alpha", Privacy::Public);
    long.tags = vec![0; 26];
    assert_eq!(reg.add_group(&pr("o"), long, 1), Err(ApiError::BadRequest));
    reg.add_group(&pr("o"), post("Alpha", Privacy::Public), 1).unwrap();
    assert_eq!(reg.add_group(&pr("o"), post("ALPHA", Privacy::Public), 1), Err(ApiError::Duplicate));
    assert_eq!(reg.add_group(&pr("nobody"), post("Beta", Privacy::Public), 1), Err(ApiError::NotFound));
    reg.next_group_id = u64::MAX;
    assert_eq!(reg.add_group(&pr("o"), post("Gamma", Privacy::Public), 1), Err(ApiError::Unsupported));
}

#[test]
fn creation_limit() {
    let mut reg = registry(&["o"]);
    for i in 0..USER_GROUP_CREATION_LIMIT {
        reg.add_group(&pr("o"), post(&format!("Group number {}", i), Privacy::Public), 1).unwrap();
    }
    assert_eq!(reg.add_group(&pr("o"), post("One too many", Privacy::Public), 1), Err(ApiError::BadRequest));
}

#[test]
fn validation_counts_graphemes() {
    let ok = post("Halló", Privacy::Public);
    assert_eq!(GroupValidation::validate_post_group(&ok), Ok(()));
    let short = post("é\u{301}a", Privacy::Public);
    assert_eq!(GroupValidation::validate_post_group(&short), Err(ApiError::BadRequest));
    let too_long = post(&"x".repeat(65), Privacy::Public);
    assert_eq!(GroupValidation::validate_post_group(&too_long), Err(ApiError::BadRequest));
    let mut desc = post("Alpha", Privacy::Public);
    desc.description = "d".repeat(2501);
    assert_eq!(GroupValidation::validate_post_group(&desc), Err(ApiError::BadRequest));
    assert_eq!(GroupValidation::validate_update_group(&update("Beta")), Ok(()));
}

#[test]
fn edit_group_replaces_fields() {
    let mut reg = registry(&["o"]);
    let g = reg.add_group(&pr("o"), post("Alpha", Privacy::Public), 1).unwrap();
    reg.edit_group(g, update("Beta"), 5).unwrap();
    let group = reg.get_group(g).unwrap();
    assert_eq!(group.name, "Beta");
    assert_eq!(group.website, "https://example.org");
    assert_eq!(group.updated_on, 5);
    assert!(matches!(group.privacy, Privacy::Private));
    assert_eq!(reg.edit_group(g + 1, update("Gamma"), 5), Err(ApiError::NotFound));
    assert_eq!(reg.edit_group(g, update("G"), 5), Err(ApiError::BadRequest));
}

#[test]
fn wallets() {
    let mut reg = registry(&["o"]);
    let g = reg.add_group(&pr("o"), post("Alpha", Privacy::Public), 1).unwrap();
    reg.add_wallet_to_group(g, pr("w1"), "main".to_string()).unwrap();
    reg.add_wallet_to_group(g, pr("w1"), "renamed".to_string()).unwrap();
    reg.add_wallet_to_group(g, pr("w2"), "side".to_string()).unwrap();
    assert_eq!(reg.get_group(g).unwrap().wallets, vec![(pr("w1"), "renamed".to_string()), (pr("w2"), "side".to_string())]);
    reg.remove_wallet_from_group(g, &pr("w1")).unwrap();
    assert_eq!(reg.get_group(g).unwrap().wallets, vec![(pr("w2"), "side".to_string())]);
    assert_eq!(reg.add_wallet_to_group(99, pr("w1"), String::new()), Err(ApiError::NotFound));
}

#[test]
fn removing_a_role_falls_back_to_member() {
    let mut reg = registry(&["o", "a", "b"]);
    let g = reg.add_group(&pr("o"), post("Alpha", Privacy::Public), 1).unwrap();
    reg.join_group(&pr("a"), g, &ev(), None, 2).unwrap();
    reg.join_group(&pr("b"), g, &ev(), None, 2).unwrap();
    let role = reg.add_role_to_group(g, "moderator".to_string(), "#fff".to_string(), 3).unwrap();
    assert!(!role.protected);
    assert_eq!(reg.add_role_to_group(g, "moderator".to_string(), "#000".to_string(), 4).unwrap_err(), ApiError::Duplicate);
    assert_eq!(reg.add_role_to_group(g, "owner".to_string(), "#000".to_string(), 4).unwrap_err(), ApiError::Duplicate);

    let a = reg.add_group_role_to_member("moderator".to_string(), &pr("a"), g).unwrap();
    assert_eq!(a.get_roles(g), vec!["moderator".to_string()]);
    assert!(a.is_group_moderator(&g));
    let mut b = reg.get_member(&pr("b")).unwrap().copy();
    b.add_group_role(&g, &"moderator".to_string());
    assert_eq!(b.get_roles(g), vec!["member".to_string(), "moderator".to_string()]);
    reg.add_group_role_to_member("moderator".to_string(), &pr("b"), g).unwrap();
    reg.add_group_role_to_member("member".to_string(), &pr("b"), g).unwrap();

    assert_eq!(reg.remove_group_role(g, "moderator".to_string()), Ok(true));
    assert_eq!(reg.get_member_roles(&pr("a"), g).unwrap(), vec!["member".to_string()]);
    assert_eq!(reg.get_member_roles(&pr("b"), g).unwrap(), vec!["member".to_string()]);
    assert_eq!(reg.get_member_roles(&pr("o"), g).unwrap(), vec!["owner".to_string()]);
    assert!(reg.get_group_roles(g).unwrap().is_empty());
    assert_eq!(reg.remove_group_role(g, "moderator".to_string()), Ok(false));
    assert_eq!(reg.remove_group_role(77, "moderator".to_string()), Err(ApiError::NotFound));
}

#[test]
fn role_changes_on_members() {
    let mut reg = registry(&["o", "a"]);
    let g = reg.add_group(&pr("o"), post("Alpha", Privacy::Public), 1).unwrap();
    reg.join_group(&pr("a"), g, &ev(), None, 2).unwrap();
    assert_eq!(reg.add_group_role_to_member("ghost".to_string(), &pr("a"), g).unwrap_err(), ApiError::BadRequest);
    assert_eq!(reg.add_group_role_to_member("member".to_string(), &pr("zz"), g).unwrap_err(), ApiError::NotFound);
    assert_eq!(reg.add_group_role_to_member("member".to_string(), &pr("a"), 9).unwrap_err(), ApiError::NotFound);
    let a = reg.remove_group_role_from_member("member".to_string(), &pr("a"), g).unwrap();
    assert_eq!(a.get_roles(g), vec!["member".to_string()]);
    reg.add_group_role_to_member("owner".to_string(), &pr("a"), g).unwrap();
    let a = reg.remove_group_role_from_member("owner".to_string(), &pr("a"), g).unwrap();
    assert_eq!(a.get_roles(g), vec!["member".to_string()]);
}

#[test]
fn permissions_follow_roles() {
    let mut reg = registry(&["o", "a", "x"]);
    let g = reg.add_group(&pr("o"), post("Alpha", Privacy::Public), 1).unwrap();
    reg.join_group(&pr("a"), g, &ev(), None, 2).unwrap();
    let inv = PermissionType::Invite;
    assert!(reg.has_permission(&pr("o"), g, inv, PermissionActionType::Write));
    assert!(reg.has_permission(&pr("a"), g, inv, PermissionActionType::Read));
    assert!(!reg.has_permission(&pr("a"), g, inv, PermissionActionType::Write));
    assert!(!reg.has_permission(&pr("x"), g, inv, PermissionActionType::Read));
    assert_eq!(reg.get_higher_role_members(g), vec![pr("o")]);

    reg.add_role_to_group(g, "inviter".to_string(), "#123".to_string(), 2).unwrap();
    let perms = vec![Permission { name: PermissionType::Invite, read: true, write: true, delete: false }];
    assert_eq!(reg.edit_role_permissions(g, "inviter".to_string(), perms), Ok(true));
    assert_eq!(reg.edit_role_permissions(g, "nobody".to_string(), vec![]), Ok(false));
    reg.add_group_role_to_member("inviter".to_string(), &pr("a"), g).unwrap();
    assert!(reg.has_permission(&pr("a"), g, inv, PermissionActionType::Write));
    assert!(!reg.has_permission(&pr("a"), g, PermissionType::Event, PermissionActionType::Write));
    let writers = reg.get_group_members_by_permission(g, inv, PermissionActionType::Write).unwrap();
    assert_eq!(writers.len(), 2);
    assert_eq!(reg.get_group_members_by_permission(5, inv, PermissionActionType::Write).unwrap_err(), ApiError::NotFound);
}

#[test]
fn get_group_member_errors() {
    let mut reg = registry(&["o", "a"]);
    let g = reg.add_group(&pr("o"), post("Alpha", Privacy::Public), 1).unwrap();
    assert_eq!(reg.get_group_member(&pr("a"), g).unwrap_err(), ApiError::BadRequest);
    assert_eq!(reg.get_group_member(&pr("zz"), g).unwrap_err(), ApiError::NotFound);
    let m = reg.get_group_member(&pr("o"), g).unwrap();
    assert_eq!(m.roles, vec!["owner".to_string()]);
    assert_eq!(reg.add_member(pr("a"), pr("a")), Err(ApiError::Duplicate));
}

#[test]
fn transfer_decline_when_recipient_left() {
    let mut reg = registry(&["o", "m"]);
    let g = reg.add_group(&pr("o"), post("Alpha", Privacy::Public), 1).unwrap();
    reg.join_group(&pr("m"), g, &ev(), None, 2).unwrap();
    reg.create_transfer_group_ownership_request(g, pr("o"), pr("m"), 3).unwrap();
    assert_eq!(reg.get_from_group_transfer_requests(&pr("o")).len(), 1);
    assert_eq!(reg.get_to_group_transfer_requests(&pr("m"))[0].0, g);
    reg.leave_group(&pr("m"), g).unwrap();
    assert_eq!(
        reg.accept_or_decline_transfer_group_ownership_request(&pr("m"), g, false),
        Err(ApiError::BadRequest)
    );
    assert!(reg.get_to_group_transfer_requests(&pr("m")).is_empty());
    assert_eq!(reg.get_member_roles(&pr("o"), g).unwrap(), vec!["owner".to_string()]);
    assert_eq!(reg.get_group(g).unwrap().owner, pr("o"));
}

#[test]
fn transfer_accept_swaps_roles() {
    let mut reg = registry(&["o", "m"]);
    let g = reg.add_group(&pr("o"), post("Alpha", Privacy::Public), 1).unwrap();
    reg.join_group(&pr("m"), g, &ev(), None, 2).unwrap();
    assert_eq!(reg.create_transfer_group_ownership_request(g, pr("m"), pr("o"), 3), Err(ApiError::Unauthorized));
    reg.create_transfer_group_ownership_request(g, pr("o"), pr("m"), 3).unwrap();
    assert_eq!(reg.create_transfer_group_ownership_request(g, pr("o"), pr("m"), 3), Err(ApiError::Duplicate));
    assert_eq!(
        reg.accept_or_decline_transfer_group_ownership_request(&pr("o"), g, true),
        Err(ApiError::Unauthorized)
    );
    assert_eq!(reg.accept_or_decline_transfer_group_ownership_request(&pr("m"), g, true), Ok(true));
    assert_eq!(reg.get_group(g).unwrap().owner, pr("m"));
    assert_eq!(reg.get_member_roles(&pr("o"), g).unwrap(), vec!["member".to_string()]);
    assert_eq!(reg.get_member_roles(&pr("m"), g).unwrap(), vec!["owner".to_string()]);
    assert!(reg.get_from_group_transfer_requests(&pr("o")).is_empty());
    assert_eq!(
        reg.accept_or_decline_transfer_group_ownership_request(&pr("m"), g, true),
        Err(ApiError::NotFound)
    );
    reg.leave_group(&pr("o"), g).unwrap();
}

#[test]
fn transfer_decline_keeps_roles() {
    let mut reg = registry(&["o", "m"]);
    let g = reg.add_group(&pr("o"), post("Alpha", Privacy::Public), 1).unwrap();
    reg.join_group(&pr("m"), g, &ev(), None, 2).unwrap();
    reg.create_transfer_group_ownership_request(g, pr("o"), pr("m"), 3).unwrap();
    assert_eq!(reg.accept_or_decline_transfer_group_ownership_request(&pr("m"), g, false), Ok(true));
    assert_eq!(reg.get_member_roles(&pr("o"), g).unwrap(), vec!["owner".to_string()]);
    assert_eq!(reg.get_member_roles(&pr("m"), g).unwrap(), vec!["member".to_string()]);
    assert_eq!(reg.cancel_transfer_group_ownership_request(g, &pr("o")), Err(ApiError::NotFound));
    reg.create_transfer_group_ownership_request(g, pr("o"), pr("m"), 4).unwrap();
    assert_eq!(reg.cancel_transfer_group_ownership_request(g, &pr("m")), Err(ApiError::Unauthorized));
    assert_eq!(reg.cancel_transfer_group_ownership_request(g, &pr("o")), Ok(true));
    assert_eq!(reg.create_transfer_group_ownership_request(g, pr("o"), pr("zz"), 5), Err(ApiError::NotFound));
    assert_eq!(reg.transfer_group_ownership(g, &pr("m"), &pr("o")), Err(ApiError::Unauthorized));
}

#[test]
fn lookups_by_name_and_id() {
    let mut reg = registry(&["o", "a"]);
    let g1 = reg.add_group(&pr("o"), post("Rust Lovers", Privacy::Public), 1).unwrap();
    let g2 = reg.add_group(&pr("o"), post("Other", Privacy::Private), 1).unwrap();
    let (id, group) = reg.get_group_by_name(&"rust-lovers".to_string()).unwrap();
    assert_eq!(id, g1);
    assert_eq!(group.name, "Rust Lovers");
    assert_eq!(reg.get_group_by_name(&"RUST LOVERS".to_string()).unwrap().0, g1);
    assert_eq!(reg.get_group_by_name(&"rustlovers".to_string()).unwrap_err(), ApiError::NotFound);
    let found: Vec<u64> = reg.get_groups_by_id(&vec![g2, 99, g1]).iter().map(|(i, _)| *i).collect();
    assert_eq!(found, vec![g2, g1]);
    let (owner, privacy) = reg.get_group_owner_and_privacy(g2).unwrap();
    assert_eq!(*owner, pr("o"));
    assert!(matches!(privacy, Privacy::Private));
    assert_eq!(reg.get_group_owner_and_privacy(99).unwrap_err(), ApiError::NotFound);

    reg.join_group(&pr("a"), g1, &ev(), None, 2).unwrap();
    reg.join_group(&pr("a"), g2, &ev(), Some(5), 2).unwrap();
    let mine: Vec<u64> = reg.get_self_groups(&pr("a")).iter().map(|(i, _)| *i).collect();
    assert_eq!(mine, vec![g1]);
    assert!(reg.get_self_groups(&pr("zz")).is_empty());
    assert!(reg.has_pending_join_request(&pr("a"), g2));
    assert!(!reg.has_pending_invite(&pr("a"), g2));
    assert_eq!(reg.get_member(&pr("a")).unwrap().get_invite(g2).unwrap().notification_id, Some(5));

    let (joined, invite) = reg.get_group_caller_data(&pr("a"), g1);
    assert_eq!(joined.unwrap().roles, vec!["member".to_string()]);
    assert!(invite.is_none());
    let (joined, invite) = reg.get_group_caller_data(&pr("a"), g2);
    assert!(joined.is_none());
    assert_eq!(invite.unwrap().group_id, g2);

    let mut all = reg.get_groups_for_members(&vec![pr("a"), pr("o"), pr("zz")]);
    all.sort_by_key(|r| (r.principal.text.clone(), r.group_id));
    let pairs: Vec<(String, u64)> = all.iter().map(|r| (r.principal.text.clone(), r.group_id)).collect();
    assert_eq!(pairs, vec![("a".to_string(), g1), ("o".to_string(), g1), ("o".to_string(), g2)]);
}

#[test]
fn first_join_signal() {
    let mut reg = registry(&["o", "a"]);
    let g1 = reg.add_group(&pr("o"), post("First", Privacy::Public), 1).unwrap();
    let g2 = reg.add_group(&pr("o"), post("Second", Privacy::Public), 1).unwrap();
    assert!(reg.get_member(&pr("a")).unwrap().is_first_join(g1));
    reg.join_group(&pr("a"), g1, &ev(), None, 2).unwrap();
    assert!(reg.get_member(&pr("a")).unwrap().is_first_join(g1));
    assert!(!reg.get_member(&pr("a")).unwrap().is_first_join(g2));
    assert!(!reg.get_member(&pr("o")).unwrap().is_first_join(g1));
}
