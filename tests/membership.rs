use catalyze::engine::GroupCalls;
use catalyze::group::PostGroup;
use catalyze::member::InviteType;
use catalyze::principal::Principal;
use catalyze::privacy::{GateEvidence, GatedType, Privacy, TokenGated};
use catalyze::ApiError;

fn pr(text: &str) -> Principal {
    Principal::from_text(text.to_string())
}

fn post(name: &str, privacy: Privacy) -> PostGroup {
    PostGroup {
        name: name.to_string(),
        description: "a group".to_string(),
        website: String::new(),
        tags: vec![],
        privacy,
        privacy_gated_type_amount: None,
    }
}

fn no_evidence() -> GateEvidence {
    GateEvidence { has_account: false, balances: vec![], neurons: vec![] }
}

fn registry(names: &[&str]) -> GroupCalls {
    let mut reg = GroupCalls::new();
    for n in names {
        reg.add_member(pr(n), pr(n)).unwrap();
    }
    reg
}

fn roster(reg: &GroupCalls, g: u64) -> Vec<String> {
    reg.get_group_members(g).unwrap().iter().map(|m| m.principal.text.clone()).collect()
}

#[test]
fn private_group_scenario() {
    let mut reg = registry(&["owner-o", "user-a"]);
    let g = reg.add_group(&pr("owner-o"), post("Alpha", Privacy::Private), 10).unwrap();
    assert_eq!(roster(&reg, g), vec!["owner-o".to_string()]);

    let resp = reg.join_group(&pr("user-a"), g, &no_evidence(), None, 11).unwrap();
    assert!(resp.roles.is_empty());
    let a = reg.get_member(&pr("user-a")).unwrap();
    assert!(a.has_pending_join_request(g));
    assert!(!a.is_group_joined(&g));

    let m = reg.accept_or_decline_user_request_group_invite(&pr("user-a"), g, true, 12).unwrap();
    assert!(m.is_group_joined(&g));
    assert!(!m.is_group_invited(&g));
    assert_eq!(m.get_roles(g), vec!["member".to_string()]);
    assert_eq!(reg.get_member_roles(&pr("user-a"), g).unwrap(), vec!["member".to_string()]);
    assert_eq!(reg.get_group_count_data(&g), 2);

    reg.leave_group(&pr("user-a"), g).unwrap();
    assert!(!reg.get_member(&pr("user-a")).unwrap().is_group_joined(&g));
    assert_eq!(roster(&reg, g), vec!["owner-o".to_string()]);

    assert_eq!(reg.leave_group(&pr("owner-o"), g), Err(ApiError::BadRequest));
    assert_eq!(roster(&reg, g), vec!["owner-o".to_string()]);
}

#[test]
fn public_group_join_gives_member_role() {
    let mut reg = registry(&["o", "a"]);
    let g = reg.add_group(&pr("o"), post("Open house", Privacy::Public), 1).unwrap();
    let resp = reg.join_group(&pr("a"), g, &no_evidence(), None, 2).unwrap();
    assert_eq!(resp.roles, vec!["member".to_string()]);
    assert_eq!(resp.group_id, g);
    assert_eq!(reg.join_group(&pr("a"), g, &no_evidence(), None, 3).unwrap_err(), ApiError::BadRequest);
}

#[test]
fn invite_only_refuses_self_join() {
    let mut reg = registry(&["o", "a"]);
    let g = reg.add_group(&pr("o"), post("Closed", Privacy::InviteOnly), 1).unwrap();
    assert_eq!(reg.join_group(&pr("a"), g, &no_evidence(), None, 2).unwrap_err(), ApiError::BadRequest);
    let m = reg.invite_to_group(&pr("a"), g, Some(7), 3).unwrap();
    assert!(m.has_pending_group_invite(g));
    assert_eq!(m.get_invite(g).unwrap().notification_id, Some(7));
    assert_eq!(reg.invite_to_group(&pr("a"), g, None, 4).unwrap_err(), ApiError::BadRequest);
    let m = reg.accept_or_decline_owner_request_group_invite(&pr("a"), g, true, 5).unwrap();
    assert_eq!(m.get_roles(g), vec!["member".to_string()]);
    assert_eq!(reg.invite_to_group(&pr("a"), g, None, 6).unwrap_err(), ApiError::BadRequest);
}

#[test]
fn owner_invite_decline_drops_invite() {
    let mut reg = registry(&["o", "a"]);
    let g = reg.add_group(&pr("o"), post("Closed", Privacy::InviteOnly), 1).unwrap();
    reg.invite_to_group(&pr("a"), g, None, 2).unwrap();
    let invites = reg.get_group_invites(g).unwrap();
    assert_eq!(invites.len(), 1);
    assert_eq!(invites[0].invite.unwrap().invite_type, InviteType::OwnerRequest);
    let m = reg.accept_or_decline_owner_request_group_invite(&pr("a"), g, false, 3).unwrap();
    assert!(!m.is_group_invited(&g) && !m.is_group_joined(&g));
    assert!(reg.get_group_invites(g).unwrap().is_empty());
    assert_eq!(
        reg.accept_or_decline_owner_request_group_invite(&pr("a"), g, true, 4).unwrap_err(),
        ApiError::NotFound
    );
}

#[test]
fn banned_join_is_unauthorized_in_every_mode() {
    let modes = vec![Privacy::Public, Privacy::Private, Privacy::InviteOnly, Privacy::Gated(GatedType::Token(vec![]))];
    for (i, mode) in modes.into_iter().enumerate() {
        let mut reg = registry(&["o", "bad"]);
        let g = reg.add_group(&pr("o"), post(&format!("Group {}", i), mode), 1).unwrap();
        reg.add_special_member_to_group(g, pr("bad"), "Blocked".to_string()).unwrap();
        assert_eq!(reg.get_banned_group_members(g), vec![pr("bad")]);
        assert_eq!(reg.join_group(&pr("bad"), g, &no_evidence(), None, 2).unwrap_err(), ApiError::Unauthorized);
        reg.remove_special_member_from_group(g, &pr("bad")).unwrap();
        assert!(reg.get_banned_group_members(g).is_empty());
    }
}

#[test]
fn accept_after_group_deleted_is_not_found() {
    let mut reg = registry(&["o", "a", "b"]);
    let g = reg.add_group(&pr("o"), post("Alpha", Privacy::Private), 1).unwrap();
    reg.join_group(&pr("a"), g, &no_evidence(), None, 2).unwrap();
    reg.invite_to_group(&pr("b"), g, None, 2).unwrap();
    reg.delete_group(g).unwrap();
    assert_eq!(
        reg.accept_or_decline_user_request_group_invite(&pr("a"), g, true, 3).unwrap_err(),
        ApiError::NotFound
    );
    let a = reg.get_member(&pr("a")).unwrap();
    assert!(!a.is_group_joined(&g) && !a.is_group_invited(&g));
    assert!(!reg.get_member(&pr("b")).unwrap().is_group_invited(&g));
    assert!(!reg.get_member(&pr("o")).unwrap().is_group_joined(&g));
    assert_eq!(reg.get_group(g).unwrap_err(), ApiError::NotFound);
    assert_eq!(reg.delete_group(g), Err(ApiError::NotFound));
}

#[test]
fn sides_agree_after_operations() {
    let mut reg = registry(&["o", "a", "b", "c"]);
    let g = reg.add_group(&pr("o"), post("Mixed", Privacy::Public), 1).unwrap();
    reg.join_group(&pr("a"), g, &no_evidence(), None, 2).unwrap();
    reg.join_group(&pr("b"), g, &no_evidence(), None, 2).unwrap();
    reg.invite_to_group(&pr("c"), g, None, 3).unwrap();
    reg.remove_member_from_group(&pr("b"), g).unwrap();
    let listed = roster(&reg, g);
    for name in ["o", "a", "b", "c"] {
        let m = reg.get_member(&pr(name)).unwrap();
        assert_eq!(listed.contains(&name.to_string()), m.is_group_joined(&g));
        assert!(!(m.is_group_joined(&g) && m.is_group_invited(&g)));
    }
    reg.remove_member_invite_from_group(&pr("c"), g).unwrap();
    assert!(reg.get_group_invites(g).unwrap().is_empty());
    assert_eq!(reg.remove_member_invite_from_group(&pr("c"), g), Err(ApiError::BadRequest));
    assert_eq!(reg.remove_member_from_group(&pr("b"), g), Err(ApiError::BadRequest));
    assert_eq!(reg.remove_member_from_group(&pr("nobody"), g), Err(ApiError::NotFound));
}

#[test]
fn withdrawn_request() {
    let mut reg = registry(&["o", "a"]);
    let g = reg.add_group(&pr("o"), post("Alpha", Privacy::Private), 1).unwrap();
    assert_eq!(reg.remove_invite(&pr("a"), g), Err(ApiError::BadRequest));
    reg.join_group(&pr("a"), g, &no_evidence(), None, 2).unwrap();
    reg.remove_invite(&pr("a"), g).unwrap();
    assert!(!reg.get_member(&pr("a")).unwrap().is_group_invited(&g));
    assert_eq!(
        reg.accept_or_decline_user_request_group_invite(&pr("a"), g, true, 3).unwrap_err(),
        ApiError::BadRequest
    );
}

fn token(standard: &str, amount: u64) -> TokenGated {
    TokenGated {
        name: "t".to_string(),
        description: String::new(),
        principal: pr("ledger"),
        amount,
        standard: standard.to_string(),
    }
}

#[test]
fn gated_join_counts_passing_contracts() {
    let mut reg = registry(&["o", "a", "b"]);
    let mut p = post("Holders", Privacy::Gated(GatedType::Token(vec![token("ICRC", 10), token("DIP20", 5), token("ICRC", 1)])));
    p.privacy_gated_type_amount = Some(2);
    let g = reg.add_group(&pr("o"), p, 1).unwrap();
    let two_pass = GateEvidence { has_account: false, balances: vec![Some(10), Some(4), Some(1)], neurons: vec![] };
    let one_pass = GateEvidence { has_account: false, balances: vec![Some(10), Some(4), None], neurons: vec![] };
    assert_eq!(reg.join_group(&pr("b"), g, &one_pass, None, 2).unwrap_err(), ApiError::Unauthorized);
    let resp = reg.join_group(&pr("a"), g, &two_pass, None, 2).unwrap();
    assert_eq!(resp.roles, vec!["member".to_string()]);
}
