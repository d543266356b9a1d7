//! End-to-end scenarios for the redemption engine.

use airdrop::state::State;
use airdrop::types::{Code, EthAddress, PrincipalId};
use airdrop::{CanisterError, INITIAL_TOKENS, TOKEN_PER_PERSON};

fn admin() -> PrincipalId {
    PrincipalId(1)
}

fn manager() -> PrincipalId {
    PrincipalId(2)
}

fn fresh_state() -> State {
    let mut state = State::new(PrincipalId(99), admin());
    state
        .add_manager(manager(), "manager one".to_string())
        .unwrap();
    state
}

fn seed(state: &mut State, names: &[&str]) {
    let codes: Vec<String> = names.iter().map(|s| s.to_string()).collect();
    state.add_codes(codes).unwrap();
}

fn redeem(
    state: &mut State,
    code: &str,
    who: u64,
    eth: &str,
) -> Result<airdrop::types::Info, CanisterError> {
    state.redeem_code(
        &Code(code.to_string()),
        PrincipalId(who),
        &EthAddress(eth.to_string()),
    )
}

#[test]
fn scenario_root_and_child_redemptions() {
    let mut state = fresh_state();
    seed(&mut state, &["c1", "c2", "c3", "c4"]);

    let info = state.generate_code(manager()).unwrap();
    assert_eq!(info.code.0, "c1");
    assert_eq!(info.codes_generated, 1);
    assert_eq!(info.codes_redeemed, 0);

    // Principal A redeems the root: full deduction, one payout entry, three
    // children at depth one.
    let a = redeem(&mut state, "c1", 10, "0xA").unwrap();
    assert_eq!(a.code.0, "c1");
    assert_eq!(a.principal, PrincipalId(10));
    assert_eq!(a.eth_address.0, "0xA");
    let children = a.children.unwrap();
    assert_eq!(children.len(), 3);
    assert_eq!(children[0].0 .0, "c2");
    assert_eq!(children[1].0 .0, "c3");
    assert_eq!(children[2].0 .0, "c4");
    assert!(children.iter().all(|(_, redeemed)| !redeemed));
    assert_eq!(state.tokens, INITIAL_TOKENS - TOKEN_PER_PERSON);
    assert_eq!(state.airdrop_reward.len(), 1);
    assert_eq!(state.airdrop_reward[0].eth_address.0, "0xA");
    assert_eq!(state.airdrop_reward[0].amount.0, TOKEN_PER_PERSON / 4);
    assert!(!state.airdrop_reward[0].transferred);

    // The root's parent is the manager: its redeemed counter stepped.
    let again = state.generate_code(manager()).unwrap_err();
    assert!(matches!(again, CanisterError::NoMoreCodes));

    // Principal B redeems a depth-one child: still the full deduction, the
    // referrer A already has an address on file, so the ledger gains A's
    // referral reward and B's own.
    seed(&mut state, &["c5", "c6", "c7"]);
    let b = redeem(&mut state, "c2", 11, "0xB").unwrap();
    let grandchildren = b.children.unwrap();
    assert_eq!(grandchildren.len(), 3);
    assert_eq!(grandchildren[0].0 .0, "c5");
    assert_eq!(grandchildren[1].0 .0, "c6");
    assert_eq!(grandchildren[2].0 .0, "c7");
    assert_eq!(state.tokens, INITIAL_TOKENS - 2 * TOKEN_PER_PERSON);
    assert_eq!(state.airdrop_reward.len(), 3);
    assert_eq!(state.airdrop_reward[1].eth_address.0, "0xA");
    assert_eq!(state.airdrop_reward[1].amount.0, TOKEN_PER_PERSON / 4);
    assert_eq!(state.airdrop_reward[2].eth_address.0, "0xB");
    assert_eq!(state.airdrop_reward[2].amount.0, TOKEN_PER_PERSON / 4);

    // Every child sits one level below its parent, and nothing sits below
    // the depth limit.
    let depth_of = |state: &State, code: &str| {
        state
            .codes
            .iter()
            .find(|e| e.code.0 == code)
            .map(|e| e.state.depth)
            .unwrap()
    };
    assert_eq!(depth_of(&state, "c1"), 0);
    for child in ["c2", "c3", "c4"] {
        assert_eq!(depth_of(&state, child), 1);
    }
    for grandchild in ["c5", "c6", "c7"] {
        assert_eq!(depth_of(&state, grandchild), 2);
    }
    assert!(state
        .codes
        .iter()
        .all(|e| e.state.depth <= airdrop::MAXIMUM_DEPTH));
}

#[test]
fn scenario_max_depth_quarter_deduction_no_children() {
    let mut state = fresh_state();
    seed(&mut state, &["c1", "c2", "c3", "c4", "c5", "c6", "c7"]);
    state.generate_code(manager()).unwrap();
    redeem(&mut state, "c1", 10, "0xA").unwrap();
    redeem(&mut state, "c2", 11, "0xB").unwrap();
    let tokens_before = state.tokens;
    let entries_before = state.airdrop_reward.len();

    // c5 sits at the depth limit: quarter deduction, no children, and the
    // parent reward still propagates to B.
    let c = redeem(&mut state, "c5", 12, "0xC").unwrap();
    assert!(c.children.is_none());
    assert_eq!(state.tokens, tokens_before - TOKEN_PER_PERSON / 4);
    assert_eq!(state.airdrop_reward.len(), entries_before + 2);
    assert_eq!(
        state.airdrop_reward[entries_before].eth_address.0,
        "0xB"
    );
    assert_eq!(
        state.airdrop_reward[entries_before + 1].eth_address.0,
        "0xC"
    );
}

#[test]
fn scenario_kill_and_revive() {
    let mut state = fresh_state();
    seed(&mut state, &["c1", "c2", "c3", "c4"]);
    state.generate_code(manager()).unwrap();

    state.kill_canister().unwrap();
    let killed = redeem(&mut state, "c1", 10, "0xA").unwrap_err();
    assert!(matches!(killed, CanisterError::CanisterKilled));
    assert!(matches!(
        state.get_code(PrincipalId(10)).unwrap_err(),
        CanisterError::CanisterKilled
    ));
    assert!(matches!(
        state.has_redeemed(PrincipalId(10)).unwrap_err(),
        CanisterError::CanisterKilled
    ));

    state.bring_caninster_back_to_life().unwrap();
    assert!(redeem(&mut state, "c1", 10, "0xA").is_ok());
}

#[test]
fn second_redemption_by_same_principal_is_refused() {
    let mut state = fresh_state();
    seed(&mut state, &["c1", "c2", "c3", "c4"]);
    state.generate_code(manager()).unwrap();
    redeem(&mut state, "c1", 10, "0xA").unwrap();

    let tokens_before = state.tokens;
    let err = redeem(&mut state, "c2", 10, "0xA").unwrap_err();
    assert!(matches!(err, CanisterError::CannotRegisterMultipleTimes));
    assert_eq!(state.tokens, tokens_before);
    assert_eq!(state.airdrop_reward.len(), 1);
}

#[test]
fn code_errors_are_reported_in_order() {
    let mut state = fresh_state();
    seed(&mut state, &["c1", "c2", "c3", "c4"]);
    state.generate_code(manager()).unwrap();

    assert!(matches!(
        redeem(&mut state, "nope", 10, "0xA").unwrap_err(),
        CanisterError::CodeNotFound
    ));
    redeem(&mut state, "c1", 10, "0xA").unwrap();
    assert!(matches!(
        redeem(&mut state, "c1", 11, "0xB").unwrap_err(),
        CanisterError::CodeAlreadyRedeemed
    ));
    // A depth-one code needs three pool codes; the pool is empty.
    assert!(matches!(
        redeem(&mut state, "c2", 11, "0xB").unwrap_err(),
        CanisterError::NoMoreCodes
    ));
}

#[test]
fn insufficient_tokens_abort_without_mutation() {
    let mut state = fresh_state();
    seed(&mut state, &["c1", "c2", "c3", "c4"]);
    state.generate_code(manager()).unwrap();
    state.deduct_tokens(INITIAL_TOKENS - 100).unwrap();

    let err = redeem(&mut state, "c1", 10, "0xA").unwrap_err();
    assert!(matches!(err, CanisterError::GeneralError(_)));
    assert_eq!(state.tokens, 100);
    assert!(state.airdrop_reward.is_empty());
    assert!(state.principals_user_eth.is_empty());

    // At the depth limit only a quarter unit is needed; a root code asks for
    // the full unit, which 100 tokens cannot cover.
    assert_eq!(TOKEN_PER_PERSON / 4, 100);
}

#[test]
fn generate_code_draws_fifo_and_counts() {
    let mut state = fresh_state();
    assert!(matches!(
        state.generate_code(manager()).unwrap_err(),
        CanisterError::NoMoreCodes
    ));
    seed(&mut state, &["r1", "r2"]);
    let first = state.generate_code(manager()).unwrap();
    let second = state.generate_code(manager()).unwrap();
    assert_eq!(first.code.0, "r1");
    assert_eq!(second.code.0, "r2");
    assert_eq!(second.codes_generated, 2);
    assert!(state.is_manager(manager()));
    assert!(!state.is_manager(PrincipalId(10)));
}

#[test]
fn get_code_reports_registration_and_children() {
    let mut state = fresh_state();
    seed(&mut state, &["c1", "c2", "c3", "c4"]);
    state.generate_code(manager()).unwrap();

    assert!(matches!(
        state.get_code(PrincipalId(10)).unwrap_err(),
        CanisterError::CodeNotFound
    ));

    redeem(&mut state, "c1", 10, "0xA").unwrap();
    let info = state.get_code(PrincipalId(10)).unwrap();
    assert_eq!(info.code.0, "c1");
    assert_eq!(info.eth_address.0, "0xA");
    let children = info.children.unwrap();
    assert_eq!(children.len(), 3);
    assert!(children.iter().all(|(_, redeemed)| !redeemed));

    // The manager generated c1: that root is its one child on record.
    let minfo = state.get_code(PrincipalId(2));
    assert!(minfo.is_err());
}

#[test]
fn has_redeemed_tracks_queued_rewards() {
    let mut state = fresh_state();
    seed(&mut state, &["c1", "c2", "c3", "c4"]);
    state.generate_code(manager()).unwrap();

    assert!(matches!(
        state.has_redeemed(PrincipalId(10)).unwrap_err(),
        CanisterError::CodeNotFound
    ));
    redeem(&mut state, "c1", 10, "0xA").unwrap();
    assert_eq!(state.has_redeemed(PrincipalId(10)).unwrap(), true);
}

#[test]
fn add_admin_is_idempotent() {
    let mut state = State::new(PrincipalId(99), admin());
    assert_eq!(state.principals_admin.len(), 1);
    state.add_admin(PrincipalId(5)).unwrap();
    state.add_admin(PrincipalId(5)).unwrap();
    assert_eq!(state.principals_admin.len(), 2);
    assert!(state.principals_admin.contains(&PrincipalId(5)));
}

#[test]
fn add_manager_keeps_existing_record() {
    let mut state = State::new(PrincipalId(99), admin());
    state.add_manager(manager(), "first name".to_string()).unwrap();
    state.add_codes(vec!["r1".to_string()]).unwrap();
    state.generate_code(manager()).unwrap();
    state.add_manager(manager(), "second name".to_string()).unwrap();
    assert_eq!(state.principals_managers.len(), 1);
    assert_eq!(state.principals_managers[0].state.name, "first name");
    assert_eq!(state.principals_managers[0].state.codes_generated, 1);
}
