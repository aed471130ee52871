use catalyze::group::GroupValidation;
use catalyze::privacy::Privacy;
use catalyze::ApiError;
use catalyze::principal::Principal;
use catalyze::privacy::{
    count_passing_sources, e8s_to_whole_tokens_up, is_neuron_valid, validate_gate, validate_neuron_gated,
    validate_nft_gated, DissolveState, GateEvidence, GatedType, Neuron, NeuronGated, NeuronGatedRules, TokenGated,
};
use catalyze::reward::{
    event_attendee_milestone_from_user_count, event_attendee_points_from_milestone, graph_event_attendee_rewards,
    graph_member_activity_rewards, graph_member_count_rewards, member_activity_milestone_from_user_count,
    member_activity_points_from_milestone, member_count_milestone_from_user_count, member_count_points_from_milestone,
    LinearReward,
};
use catalyze::role::{default_roles, full_permissions, read_only_permissions, PermissionActionType, PermissionType};

fn token(standard: &str, amount: u64) -> TokenGated {
    TokenGated {
        name: "t".to_string(),
        description: String::new(),
        principal: Principal::from_text("ledger".to_string()),
        amount,
        standard: standard.to_string(),
    }
}

fn neuron(state: Option<DissolveState>, created: u64, stake: u64) -> Neuron {
    Neuron { dissolve_state: state, created_timestamp_seconds: created, cached_neuron_stake_e8s: stake }
}

#[test]
fn token_gate_needs_required_count() {
    let gate = GatedType::Token(vec![token("ICRC", 100), token("DIP721", 1), token("EXT", 3)]);
    let first_and_third = GateEvidence { has_account: true, balances: vec![Some(100), Some(0), Some(5)], neurons: vec![] };
    let first_only = GateEvidence { has_account: true, balances: vec![Some(100), Some(0), Some(2)], neurons: vec![] };
    assert_eq!(count_passing_sources(&gate, &first_and_third), 2);
    assert!(validate_gate(&gate, &first_and_third, 2));
    assert_eq!(count_passing_sources(&gate, &first_only), 1);
    assert!(!validate_gate(&gate, &first_only, 2));
    assert!(validate_gate(&gate, &first_only, 0));
}

#[test]
fn token_rules() {
    assert!(validate_nft_gated(&token("ICRC", 5), false, Some(5)));
    assert!(!validate_nft_gated(&token("ICRC", 5), false, Some(4)));
    assert!(!validate_nft_gated(&token("EXT", 1), false, Some(9)));
    assert!(validate_nft_gated(&token("EXT", 1), true, Some(9)));
    assert!(!validate_nft_gated(&token("ERC20", 1), true, Some(9)));
    assert!(!validate_nft_gated(&token("DIP20", 1), true, None));
    assert!(validate_nft_gated(&token("DIP721_LEGACY", 1), true, Some(1)));
}

#[test]
fn neuron_rules() {
    let dissolving = neuron(Some(DissolveState::WhenDissolvedTimestampSeconds(9)), 100, 150_000_000);
    let locked = neuron(Some(DissolveState::DissolveDelaySeconds(500)), 100, 150_000_000);
    assert!(is_neuron_valid(&dissolving, &vec![NeuronGatedRules::IsDisolving(true)]));
    assert!(!is_neuron_valid(&locked, &vec![NeuronGatedRules::IsDisolving(true)]));
    assert!(is_neuron_valid(&locked, &vec![NeuronGatedRules::MinDissolveDelay(500)]));
    assert!(!is_neuron_valid(&locked, &vec![NeuronGatedRules::MinDissolveDelay(501)]));
    assert!(!is_neuron_valid(&dissolving, &vec![NeuronGatedRules::MinDissolveDelay(1)]));
    assert!(is_neuron_valid(&locked, &vec![NeuronGatedRules::MinAge(100)]));
    assert!(!is_neuron_valid(&locked, &vec![NeuronGatedRules::MinAge(101)]));
    assert!(is_neuron_valid(&locked, &vec![NeuronGatedRules::MinStake(200_000_000)]));
    assert!(!is_neuron_valid(&locked, &vec![NeuronGatedRules::MinStake(200_000_001)]));
    assert_eq!(e8s_to_whole_tokens_up(150_000_000), 2);
    assert_eq!(e8s_to_whole_tokens_up(200_000_000), 2);
    assert_eq!(e8s_to_whole_tokens_up(0), 0);
    let rules = vec![NeuronGatedRules::IsDisolving(true), NeuronGatedRules::MinAge(50)];
    assert!(validate_neuron_gated(&rules, &Some(vec![locked, dissolving])));
    assert!(!validate_neuron_gated(&rules, &Some(vec![locked])));
    assert!(!validate_neuron_gated(&rules, &None));
    let gate = GatedType::Neuron(vec![NeuronGated {
        name: "sns".to_string(),
        description: String::new(),
        governance_canister: Principal::from_text("gov".to_string()),
        ledger_canister: Principal::from_text("ledger".to_string()),
        rules,
    }]);
    let ev = GateEvidence { has_account: false, balances: vec![], neurons: vec![Some(vec![dissolving])] };
    assert!(validate_gate(&gate, &ev, 1));
    let failed = GateEvidence { has_account: false, balances: vec![], neurons: vec![] };
    assert!(!validate_gate(&gate, &failed, 1));
}

#[test]
fn reward_formulas() {
    assert_eq!(member_count_points_from_milestone(0), 50);
    assert_eq!(member_count_points_from_milestone(3), 200);
    assert_eq!(member_activity_points_from_milestone(2), 30);
    assert_eq!(event_attendee_points_from_milestone(1), 60);
    assert_eq!(member_count_milestone_from_user_count(100), 3);
    assert_eq!(member_count_milestone_from_user_count(25), 0);
    assert_eq!(member_activity_milestone_from_user_count(17), 2);
    assert_eq!(event_attendee_milestone_from_user_count(50), 2);
    let g = graph_member_count_rewards();
    assert_eq!(g.len(), 20);
    assert_eq!(g[0], (25, 50));
    assert_eq!(g[19], (500, 1000));
    assert_eq!(graph_member_activity_rewards()[1], (10, 20));
    assert_eq!(graph_event_attendee_rewards()[2], (50, 100));
    let r = LinearReward::new(3, 1, 2, 5, 10);
    assert_eq!(r.graph(), vec![(1, 15), (3, 35), (5, 55)]);
    assert_eq!(r.user_count_from_milestone(4), 9);
    assert_eq!(r.points_from_milestone(4), 95);
    assert_eq!(r.milestone_from_user_count(6), 2);
}

#[test]
fn implicit_roles() {
    let roles = default_roles();
    assert_eq!(roles[0].name, "owner");
    assert_eq!(roles[1].name, "member");
    assert!(roles[0].grants(PermissionType::Group, PermissionActionType::Delete));
    assert!(roles[1].grants(PermissionType::Event, PermissionActionType::Read));
    assert!(!roles[1].grants(PermissionType::Event, PermissionActionType::Write));
    assert_eq!(full_permissions().len(), 6);
    assert!(read_only_permissions().iter().all(|p| p.read && !p.write && !p.delete));
}

#[test]
fn group_privacy_check() {
    let none = GateEvidence { has_account: false, balances: vec![], neurons: vec![] };
    assert_eq!(GroupValidation::validate_group_privacy(&Privacy::InviteOnly, None, &none), Ok(()));
    let gate = Privacy::Gated(GatedType::Token(vec![token("ICRC", 3)]));
    assert_eq!(GroupValidation::validate_group_privacy(&gate, Some(1), &none), Err(ApiError::Unauthorized));
    assert_eq!(GroupValidation::validate_group_privacy(&gate, None, &none), Ok(()));
    let rich = GateEvidence { has_account: false, balances: vec![Some(3)], neurons: vec![] };
    assert_eq!(GroupValidation::validate_group_privacy(&gate, Some(1), &rich), Ok(()));
}
