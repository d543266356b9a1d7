//! Token identity: equality goes by the ledger canister alone.

use airdrop::tokens::{IcrcToken, UserToken, UserTokenId};
use airdrop::types::PrincipalId;

fn icrc(ledger: u64, index: Option<u64>) -> UserToken {
    UserToken::Icrc(IcrcToken {
        ledger_id: PrincipalId(ledger),
        index_id: index.map(PrincipalId),
    })
}

#[test]
fn user_tokens_compare_by_ledger_only() {
    assert_eq!(icrc(5, None), icrc(5, Some(9)));
    assert_ne!(icrc(5, None), icrc(6, None));
}

#[test]
fn user_token_id_extracts_the_ledger() {
    let id = UserTokenId::from(icrc(5, Some(9)));
    assert_eq!(id, UserTokenId::Icrc(PrincipalId(5)));
    assert_ne!(id, UserTokenId::Icrc(PrincipalId(6)));
}

#[test]
fn icrc_tokens_compare_by_ledger_only() {
    let a = IcrcToken { ledger_id: PrincipalId(5), index_id: None };
    let b = IcrcToken { ledger_id: PrincipalId(5), index_id: Some(PrincipalId(9)) };
    assert_eq!(a, b);
}
