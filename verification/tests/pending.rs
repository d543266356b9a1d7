//! The pending-transaction store: adding, reading and pruning.

use airdrop::pending_transactions::{
    BtcUserPendingTransactions, Outpoint, StoredPendingTransaction, Utxo, DAY_IN_NS,
};
use airdrop::types::PrincipalId;

fn utxo_1() -> Utxo {
    Utxo { outpoint: Outpoint { txid: vec![], vout: 0 }, value: 1000, height: 100 }
}

fn utxo_2() -> Utxo {
    Utxo { outpoint: Outpoint { txid: vec![], vout: 1 }, value: 2000, height: 120 }
}

fn utxo_3() -> Utxo {
    Utxo { outpoint: Outpoint { txid: vec![], vout: 2 }, value: 3000, height: 150 }
}

fn utxo_4() -> Utxo {
    Utxo { outpoint: Outpoint { txid: vec![], vout: 2 }, value: 8000, height: 160 }
}

fn principal_1() -> PrincipalId {
    PrincipalId(1)
}

fn principal_2() -> PrincipalId {
    PrincipalId(2)
}

fn address1() -> String {
    "test-address-1".to_string()
}

fn address2() -> String {
    "test-address-2".to_string()
}

#[test]
fn test_get_pending_transactions_empty() {
    let btc_user_pending_transactions = BtcUserPendingTransactions::new(None);
    let principal = principal_1();

    let pending_txs =
        btc_user_pending_transactions.get_pending_transactions(&principal, address1());
    assert!(pending_txs.is_empty());
}

#[test]
fn test_add_pending_transaction_per_address() {
    let mut btc_user_pending_transactions = BtcUserPendingTransactions::new(None);
    let principal = principal_1();
    let tx = StoredPendingTransaction {
        txid: vec![],
        utxos: vec![utxo_1()],
        created_at_timestamp_ns: 1_000_000,
    };

    // Add the pending transaction
    let result = btc_user_pending_transactions.add_pending_transaction(
        principal.clone(),
        address1(),
        tx.clone(),
    );
    assert!(result.is_ok());

    // Check that the transaction was added
    let pending_txs =
        btc_user_pending_transactions.get_pending_transactions(&principal, address1());
    assert_eq!(pending_txs.len(), 1);
    assert_eq!(pending_txs[0], tx);

    // Check that the transaction was added to the proper address
    let pending_txs =
        btc_user_pending_transactions.get_pending_transactions(&principal, address2());
    assert!(pending_txs.is_empty());
}

#[test]
fn test_add_pending_transaction_does_not_add_other_principal() {
    let mut btc_user_pending_transactions = BtcUserPendingTransactions::new(None);
    let principal1 = principal_1();
    let principal2 = principal_2();
    let tx = StoredPendingTransaction {
        txid: vec![],
        utxos: vec![utxo_1()],
        created_at_timestamp_ns: 1_000_000,
    };

    let result = btc_user_pending_transactions.add_pending_transaction(
        principal1.clone(),
        address1(),
        tx.clone(),
    );
    assert!(result.is_ok());

    let pending_txs =
        btc_user_pending_transactions.get_pending_transactions(&principal2, address1());
    assert!(pending_txs.is_empty());
}

#[test]
fn test_add_pending_transaction_max_limit() {
    let mut btc_user_pending_transactions = BtcUserPendingTransactions::new(Some(3));
    let principal = principal_1();

    let tx1 = StoredPendingTransaction {
        txid: vec![1, 2, 3],
        utxos: vec![utxo_1()],
        created_at_timestamp_ns: 1_000_000,
    };
    let tx2 = StoredPendingTransaction {
        txid: vec![4, 5, 6],
        utxos: vec![utxo_2()],
        created_at_timestamp_ns: 2_000_000,
    };
    let tx3 = StoredPendingTransaction {
        txid: vec![7, 8, 9],
        utxos: vec![utxo_3()],
        created_at_timestamp_ns: 3_000_000,
    };
    let tx4 = StoredPendingTransaction {
        txid: vec![10, 11, 12],
        utxos: vec![utxo_4()],
        created_at_timestamp_ns: 4_000_000,
    };

    // Add 3 transactions (the configured maximum)
    btc_user_pending_transactions
        .add_pending_transaction(principal.clone(), address1(), tx1)
        .unwrap();
    btc_user_pending_transactions
        .add_pending_transaction(principal.clone(), address1(), tx2)
        .unwrap();
    btc_user_pending_transactions
        .add_pending_transaction(principal.clone(), address1(), tx3)
        .unwrap();

    // Try adding a 4th transaction and expect an error
    let result =
        btc_user_pending_transactions.add_pending_transaction(principal.clone(), address1(), tx4);
    assert!(result.is_err());
    assert_eq!(result.unwrap_err(), "Maximum pending transactions reached");
}

#[test]
fn test_prune_old_pending_transactions() {
    let mut btc_user_pending_transactions = BtcUserPendingTransactions::new(None);
    let principal = principal_1();

    let yesterday_ns = 1_000_000;
    let now_ns = yesterday_ns + DAY_IN_NS;

    let old_transaction = StoredPendingTransaction {
        txid: vec![1, 2, 3],
        utxos: vec![utxo_1()],
        created_at_timestamp_ns: yesterday_ns,
    };
    btc_user_pending_transactions
        .add_pending_transaction(principal.clone(), address1(), old_transaction.clone())
        .unwrap();

    let valid_transaction = StoredPendingTransaction {
        txid: vec![4, 5, 6],
        utxos: vec![utxo_2()],
        created_at_timestamp_ns: now_ns,
    };
    btc_user_pending_transactions
        .add_pending_transaction(principal.clone(), address1(), valid_transaction.clone())
        .unwrap();

    let pending_txs =
        btc_user_pending_transactions.get_pending_transactions(&principal, address1());
    assert_eq!(pending_txs.len(), 2);

    let all_utxos = &[utxo_1(), utxo_2()];

    btc_user_pending_transactions.prune_pending_transactions(
        principal.clone(),
        all_utxos,
        now_ns + 1,
    );

    let pending_txs =
        btc_user_pending_transactions.get_pending_transactions(&principal, address1());
    assert_eq!(pending_txs.len(), 1);
    assert_eq!(pending_txs[0], valid_transaction);
}

#[test]
fn test_prune_with_available_utxos() {
    let mut btc_user_pending_transactions = BtcUserPendingTransactions::new(None);
    let principal = principal_1();

    let now_ns = 1_000_000_000_000;

    let transaction_1 = StoredPendingTransaction {
        txid: vec![1, 2, 3],
        utxos: vec![utxo_1()],
        created_at_timestamp_ns: now_ns,
    };
    let transaction_2 = StoredPendingTransaction {
        txid: vec![4, 5, 6],
        utxos: vec![utxo_2()],
        created_at_timestamp_ns: now_ns,
    };

    btc_user_pending_transactions
        .add_pending_transaction(principal.clone(), address1(), transaction_1.clone())
        .unwrap();
    btc_user_pending_transactions
        .add_pending_transaction(principal.clone(), address1(), transaction_2.clone())
        .unwrap();

    let pending_txs =
        btc_user_pending_transactions.get_pending_transactions(&principal, address1());
    assert_eq!(pending_txs.len(), 2);

    let available_utxos = &[utxo_1()];
    btc_user_pending_transactions.prune_pending_transactions(
        principal.clone(),
        available_utxos,
        now_ns,
    );

    let pending_txs =
        btc_user_pending_transactions.get_pending_transactions(&principal, address1());
    assert_eq!(pending_txs.len(), 1);
    assert_eq!(pending_txs[0], transaction_1);
}

#[test]
fn test_does_not_prune_with_partial_available_utxos() {
    let mut btc_user_pending_transactions = BtcUserPendingTransactions::new(None);
    let principal = principal_1();

    let now_ns = 1_000_000_000_000;

    let transaction_1 = StoredPendingTransaction {
        txid: vec![1, 2, 3],
        utxos: vec![utxo_1()],
        created_at_timestamp_ns: now_ns,
    };
    let transaction_2 = StoredPendingTransaction {
        txid: vec![4, 5, 6],
        utxos: vec![utxo_2(), utxo_3()],
        created_at_timestamp_ns: now_ns,
    };

    btc_user_pending_transactions
        .add_pending_transaction(principal.clone(), address1(), transaction_1.clone())
        .unwrap();
    btc_user_pending_transactions
        .add_pending_transaction(principal.clone(), address1(), transaction_2.clone())
        .unwrap();

    let pending_txs =
        btc_user_pending_transactions.get_pending_transactions(&principal, address1());
    assert_eq!(pending_txs.len(), 2);

    let available_utxos = &[utxo_1(), utxo_3()];
    btc_user_pending_transactions.prune_pending_transactions(
        principal.clone(),
        available_utxos,
        now_ns,
    );

    let pending_txs =
        btc_user_pending_transactions.get_pending_transactions(&principal, address1());
    assert_eq!(pending_txs.len(), 2);
}
