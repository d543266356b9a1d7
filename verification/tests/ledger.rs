//! The payout ledger's export/acknowledge protocol.

use airdrop::state::State;
use airdrop::types::{AirdropAmount, Code, EthAddress, EthAddressAmount, Index, PrincipalId};
use airdrop::CanisterError;

fn state_with_entries(addresses: &[&str]) -> State {
    let mut state = State::new(PrincipalId(99), PrincipalId(1));
    for address in addresses {
        state.add_user_to_airdrop_reward(EthAddress(address.to_string()), AirdropAmount(100));
    }
    state
}

fn entry(address: &str) -> EthAddressAmount {
    EthAddressAmount {
        eth_address: EthAddress(address.to_string()),
        amount: AirdropAmount(100),
        transferred: false,
    }
}

#[test]
fn export_returns_pending_entries_and_cursor() {
    let state = state_with_entries(&["0xA", "0xB", "0xC"]);
    let (cursor, entries) = state.get_airdrop(Index(0)).unwrap();
    assert_eq!(entries.len(), 3);
    assert_eq!(cursor.0, 2);
    assert_eq!(entries[0].eth_address.0, "0xA");
    assert_eq!(entries[2].eth_address.0, "0xC");
}

#[test]
fn export_from_index_skips_earlier_entries() {
    let state = state_with_entries(&["0xA", "0xB", "0xC"]);
    let (cursor, entries) = state.get_airdrop(Index(2)).unwrap();
    assert_eq!(entries.len(), 1);
    assert_eq!(cursor.0, 2);
    assert_eq!(entries[0].eth_address.0, "0xC");
}

#[test]
fn export_past_the_end_returns_nothing() {
    let state = state_with_entries(&["0xA"]);
    let (cursor, entries) = state.get_airdrop(Index(9)).unwrap();
    assert_eq!(entries.len(), 0);
    assert_eq!(cursor.0, 9);
}

#[test]
fn export_twice_returns_identical_results() {
    let state = state_with_entries(&["0xA", "0xB"]);
    let (c1, e1) = state.get_airdrop(Index(0)).unwrap();
    let (c2, e2) = state.get_airdrop(Index(0)).unwrap();
    assert_eq!(c1, c2);
    assert_eq!(e1.len(), e2.len());
    for (a, b) in e1.iter().zip(e2.iter()) {
        assert_eq!(a.eth_address.0, b.eth_address.0);
        assert_eq!(a.amount, b.amount);
        assert_eq!(a.transferred, b.transferred);
    }
}

#[test]
fn acknowledge_marks_every_entry_for_the_address() {
    let mut state = state_with_entries(&["0xA", "0xB", "0xA"]);
    state.put_airdrop(Index(0), &entry("0xA")).unwrap();
    assert!(state.airdrop_reward[0].transferred);
    assert!(!state.airdrop_reward[1].transferred);
    assert!(state.airdrop_reward[2].transferred);
}

#[test]
fn acknowledge_respects_the_floor_index() {
    let mut state = state_with_entries(&["0xA", "0xB", "0xA"]);
    state.put_airdrop(Index(1), &entry("0xA")).unwrap();
    assert!(!state.airdrop_reward[0].transferred);
    assert!(!state.airdrop_reward[1].transferred);
    assert!(state.airdrop_reward[2].transferred);
}

#[test]
fn acknowledge_twice_is_idempotent_and_errorless() {
    let mut state = state_with_entries(&["0xA", "0xB"]);
    assert!(state.put_airdrop(Index(0), &entry("0xA")).is_ok());
    assert!(state.put_airdrop(Index(0), &entry("0xA")).is_ok());
    assert!(state.airdrop_reward[0].transferred);
    assert!(!state.airdrop_reward[1].transferred);
    assert_eq!(state.airdrop_reward.len(), 2);
}

#[test]
fn export_after_partial_acknowledgment() {
    // Two entries, the first already transferred: the export returns only
    // the pending one, with the cursor at its index.
    let mut state = state_with_entries(&["0xA", "0xB"]);
    state.put_airdrop(Index(0), &entry("0xA")).unwrap();
    let (cursor, entries) = state.get_airdrop(Index(0)).unwrap();
    assert_eq!(entries.len(), 1);
    assert_eq!(entries[0].eth_address.0, "0xB");
    assert!(!entries[0].transferred);
    assert_eq!(cursor.0, 1);
}

#[test]
fn ledger_calls_fail_under_emergency_stop() {
    let mut state = state_with_entries(&["0xA"]);
    state.kill_canister().unwrap();
    assert!(matches!(
        state.get_airdrop(Index(0)).unwrap_err(),
        CanisterError::CanisterKilled
    ));
    assert!(matches!(
        state.put_airdrop(Index(0), &entry("0xA")).unwrap_err(),
        CanisterError::CanisterKilled
    ));
    state.bring_caninster_back_to_life().unwrap();
    assert!(state.get_airdrop(Index(0)).is_ok());
}

#[test]
fn pool_draw_is_fifo() {
    let mut state = State::new(PrincipalId(99), PrincipalId(1));
    state
        .add_codes(vec!["one".to_string(), "two".to_string()])
        .unwrap();
    let first: Code = state.get_pre_codes().unwrap();
    let second: Code = state.get_pre_codes().unwrap();
    assert_eq!(first.0, "one");
    assert_eq!(second.0, "two");
    assert!(matches!(
        state.get_pre_codes().unwrap_err(),
        CanisterError::NoMoreCodes
    ));
}
