use tigerbeetle_manager::plan::BalancePlan;
use tigerbeetle_manager::types::{Account, AccountFlags, Transfer, TransferFlags};

#[test]
fn test_balance_plan_empty() {
    let plan = BalancePlan::build(vec![]);
    assert_eq!(plan.genesis_accounts.len(), 0);
    assert_eq!(plan.regular_accounts.len(), 0);
    assert_eq!(plan.synthetic_transfers.len(), 0);
    assert_eq!(plan.windowed_transfers.len(), 0);
}

#[test]
fn test_balance_plan_single_account() {
    let account = Account {
        id: 100,
        ledger: 1,
        code: 10,
        flags: AccountFlags::from(0),
        timestamp: 1000,
        debits_pending: 0,
        debits_posted: 50,
        credits_pending: 0,
        credits_posted: 200,
        user_data_128: 0,
        user_data_64: 0,
        user_data_32: 0,
        reserved: 0,
    };

    let plan = BalancePlan::build(vec![account]);

    // ledger=1: genesis_credit_id = u128::MAX - 1*2 = u128::MAX - 2
    //           genesis_debit_id  = u128::MAX - 1*2 - 1 = u128::MAX - 3
    let expected_credit_genesis = u128::MAX - 2;
    let expected_debit_genesis = u128::MAX - 3;

    // Should have 2 genesis accounts for ledger 1 (credit + debit).
    assert_eq!(plan.genesis_accounts.len(), 2);
    assert_eq!(plan.genesis_accounts[0].ledger, 1);
    assert_eq!(plan.genesis_accounts[0].id, expected_credit_genesis);
    assert_eq!(plan.genesis_accounts[0].timestamp, 1); // 1ns
    assert_eq!(plan.genesis_accounts[1].id, expected_debit_genesis);
    assert_eq!(plan.genesis_accounts[1].timestamp, 2); // 2ns

    // Should have 1 regular account.
    assert_eq!(plan.regular_accounts.len(), 1);
    assert_eq!(plan.regular_accounts[0].id, 100);
    assert_eq!(plan.regular_accounts[0].timestamp, 1000); // Original, > genesis(2)

    // Should have 2 synthetic transfers (credit + debit).
    assert_eq!(plan.synthetic_transfers.len(), 2);

    // First transfer: credit side (debit=genesis_credit, credit=account, amount=200).
    let t0 = &plan.synthetic_transfers[0];
    assert_eq!(t0.debit_account_id, expected_credit_genesis);
    assert_eq!(t0.credit_account_id, 100);
    assert_eq!(t0.amount, 200);
    assert_eq!(t0.timestamp, 1001); // > max account ts (1000)

    // Second transfer: debit side (debit=account, credit=genesis_debit, amount=50).
    let t1 = &plan.synthetic_transfers[1];
    assert_eq!(t1.debit_account_id, 100);
    assert_eq!(t1.credit_account_id, expected_debit_genesis);
    assert_eq!(t1.amount, 50);
    assert_eq!(t1.timestamp, 1002); // Strictly increasing
}

#[test]
fn test_balance_plan_multiple_ledgers() {
    let accounts = vec![
        Account {
            id: 1,
            ledger: 1,
            code: 10,
            flags: AccountFlags::from(0),
            timestamp: 1000,
            debits_posted: 100,
            credits_posted: 0,
            debits_pending: 0,
            credits_pending: 0,
            user_data_128: 0,
            user_data_64: 0,
            user_data_32: 0,
            reserved: 0,
        },
        Account {
            id: 2,
            ledger: 2,
            code: 20,
            flags: AccountFlags::from(0),
            timestamp: 2000,
            debits_posted: 0,
            credits_posted: 500,
            debits_pending: 0,
            credits_pending: 0,
            user_data_128: 0,
            user_data_64: 0,
            user_data_32: 0,
            reserved: 0,
        },
    ];

    let plan = BalancePlan::build(accounts);

    // Should have 4 genesis accounts (2 per ledger: credit + debit).
    assert_eq!(plan.genesis_accounts.len(), 4);
    assert_eq!(plan.genesis_accounts[0].timestamp, 1); // ledger 1 credit genesis
    assert_eq!(plan.genesis_accounts[1].timestamp, 2); // ledger 1 debit genesis
    assert_eq!(plan.genesis_accounts[2].timestamp, 3); // ledger 2 credit genesis
    assert_eq!(plan.genesis_accounts[3].timestamp, 4); // ledger 2 debit genesis

    // Should have 2 regular accounts, sorted by timestamp.
    assert_eq!(plan.regular_accounts.len(), 2);
    assert!(plan.regular_accounts[0].timestamp < plan.regular_accounts[1].timestamp);

    // Should have 2 synthetic transfers (1 per account).
    assert_eq!(plan.synthetic_transfers.len(), 2);
    // Transfer timestamps must be > max account timestamp (2000).
    assert!(plan.synthetic_transfers[0].timestamp > 2000);
    assert!(plan.synthetic_transfers[0].timestamp < plan.synthetic_transfers[1].timestamp);
}

#[test]
fn test_balance_plan_deduplicates_timestamps() {
    // Two accounts with the SAME timestamp — must be deduplicated.
    let accounts = vec![
        Account {
            id: 1,
            ledger: 1,
            code: 10,
            flags: AccountFlags::from(0),
            timestamp: 500,
            debits_posted: 100,
            credits_posted: 0,
            debits_pending: 0,
            credits_pending: 0,
            user_data_128: 0,
            user_data_64: 0,
            user_data_32: 0,
            reserved: 0,
        },
        Account {
            id: 2,
            ledger: 1,
            code: 10,
            flags: AccountFlags::from(0),
            timestamp: 500, // Same timestamp!
            debits_posted: 0,
            credits_posted: 200,
            debits_pending: 0,
            credits_pending: 0,
            user_data_128: 0,
            user_data_64: 0,
            user_data_32: 0,
            reserved: 0,
        },
    ];

    let plan = BalancePlan::build(accounts);

    // Timestamps must be strictly increasing.
    assert_eq!(plan.regular_accounts.len(), 2);
    assert!(plan.regular_accounts[0].timestamp < plan.regular_accounts[1].timestamp);
    // Both must be > last genesis timestamp (2ns for 1 ledger: credit=1, debit=2).
    assert!(plan.regular_accounts[0].timestamp > 2);
}

#[test]
fn test_build_windowed_adjusts_balances() {
    // Account with final balance: debits_posted=300, credits_posted=500.
    // Windowed transfers: debit 100 out, credit 200 in.
    // Expected balance at cutoff: debits_posted=200, credits_posted=300.
    let account = Account {
        id: 10,
        ledger: 1,
        code: 5,
        flags: AccountFlags::from(0),
        timestamp: 1000,
        debits_posted: 300,
        credits_posted: 500,
        debits_pending: 0,
        credits_pending: 0,
        user_data_128: 0,
        user_data_64: 0,
        user_data_32: 0,
        reserved: 0,
    };

    let windowed = vec![
        Transfer {
            id: 1001,
            debit_account_id: 10,
            credit_account_id: 99,
            amount: 100,
            pending_id: 0,
            user_data_128: 0,
            user_data_64: 0,
            user_data_32: 0,
            timeout: 0,
            ledger: 1,
            code: 5,
            flags: TransferFlags::from(0),
            timestamp: 2000,
        },
        Transfer {
            id: 1002,
            debit_account_id: 99,
            credit_account_id: 10,
            amount: 200,
            pending_id: 0,
            user_data_128: 0,
            user_data_64: 0,
            user_data_32: 0,
            timeout: 0,
            ledger: 1,
            code: 5,
            flags: TransferFlags::from(0),
            timestamp: 2001,
        },
    ];

    let cutoff_ts = 1500u64;
    let plan = BalancePlan::build_windowed(vec![account], windowed.clone(), cutoff_ts);

    // Regular account should have adjusted balances.
    assert_eq!(plan.regular_accounts.len(), 1);
    let adj = &plan.regular_accounts[0];
    assert_eq!(adj.debits_posted, 200); // 300 - 100
    assert_eq!(adj.credits_posted, 300); // 500 - 200

    // Synthetic transfers reconstruct the cutoff balances.
    assert_eq!(plan.synthetic_transfers.len(), 2);

    // Windowed transfers stored verbatim.
    assert_eq!(plan.windowed_transfers.len(), 2);
    assert_eq!(plan.windowed_transfers[0].id, 1001);
    assert_eq!(plan.windowed_transfers[1].id, 1002);
}

#[test]
fn test_build_windowed_zeros_window_accounts() {
    // Account created AFTER cutoff_ts — balance should be zeroed out.
    let account = Account {
        id: 20,
        ledger: 1,
        code: 5,
        flags: AccountFlags::from(0),
        timestamp: 3000, // > cutoff_ts
        debits_posted: 50,
        credits_posted: 75,
        debits_pending: 0,
        credits_pending: 0,
        user_data_128: 0,
        user_data_64: 0,
        user_data_32: 0,
        reserved: 0,
    };

    let cutoff_ts = 2000u64;
    let plan = BalancePlan::build_windowed(vec![account], vec![], cutoff_ts);

    // Account balance should be zeroed.
    assert_eq!(plan.regular_accounts.len(), 1);
    assert_eq!(plan.regular_accounts[0].debits_posted, 0);
    assert_eq!(plan.regular_accounts[0].credits_posted, 0);

    // No synthetic transfers (zero balance → no transfers needed).
    assert_eq!(plan.synthetic_transfers.len(), 0);
}
