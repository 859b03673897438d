use tigerbeetle_manager::plan::BalancePlan;
use tigerbeetle_manager::types::{Account, AccountFlags, Transfer, TransferFlags};

fn account(id: u128, ledger: u32, timestamp: u64, debits: u128, credits: u128) -> Account {
    Account {
        id,
        debits_pending: 0,
        debits_posted: debits,
        credits_pending: 0,
        credits_posted: credits,
        user_data_128: 7,
        user_data_64: 8,
        user_data_32: 9,
        reserved: 0,
        ledger,
        code: 4,
        flags: AccountFlags::from(0),
        timestamp,
    }
}

fn window_transfer(id: u128, debit: u128, credit: u128, amount: u128, timestamp: u64) -> Transfer {
    Transfer {
        id,
        debit_account_id: debit,
        credit_account_id: credit,
        amount,
        pending_id: 0,
        user_data_128: 0,
        user_data_64: 0,
        user_data_32: 0,
        timeout: 0,
        ledger: 1,
        code: 1,
        flags: TransferFlags::from(0),
        timestamp,
    }
}

#[test]
fn plan_ledgers_are_sorted_and_distinct() {
    let plan = BalancePlan::build(vec![
        account(1, 3, 100, 0, 1),
        account(2, 1, 101, 0, 1),
        account(3, 3, 102, 0, 1),
        account(4, 2, 103, 0, 1),
    ]);
    let ledgers: Vec<u32> = plan.genesis_accounts.iter().map(|g| g.ledger).collect();
    assert_eq!(ledgers, vec![1, 1, 2, 2, 3, 3]);
    assert_eq!(plan.regular_accounts.len(), 4);
    assert_eq!(plan.total_accounts(), 4 + 6);
}

#[test]
fn regular_accounts_are_the_inputs_retimestamped() {
    let inputs = vec![account(10, 1, 5, 2, 3), account(11, 1, 5, 0, 4), account(12, 1, 1, 6, 0)];
    let plan = BalancePlan::build(inputs.clone());
    // Sorted by timestamp (stable among equals), raised above 2K = 2.
    let ids: Vec<u128> = plan.regular_accounts.iter().map(|a| a.id).collect();
    assert_eq!(ids, vec![12, 10, 11]);
    let ts: Vec<u64> = plan.regular_accounts.iter().map(|a| a.timestamp).collect();
    assert_eq!(ts, vec![3, 5, 6]);
    for r in &plan.regular_accounts {
        let original = inputs.iter().find(|a| a.id == r.id).unwrap();
        assert!(r.timestamp >= original.timestamp);
        let mut cleared = *r;
        cleared.timestamp = original.timestamp;
        assert_eq!(cleared, *original);
    }
}

#[test]
fn each_account_is_touched_once_per_posted_balance() {
    let plan = BalancePlan::build(vec![account(1, 1, 10, 4, 9), account(2, 1, 11, 0, 3), account(3, 1, 12, 0, 0)]);
    assert_eq!(plan.synthetic_transfers.len(), 3);
    let touching = |id: u128| {
        plan.synthetic_transfers
            .iter()
            .filter(|t| t.debit_account_id == id || t.credit_account_id == id)
            .count()
    };
    assert_eq!(touching(1), 2);
    assert_eq!(touching(2), 1);
    assert_eq!(touching(3), 0);
}

#[test]
fn genesis_accounts_carry_the_ledger_totals() {
    let plan = BalancePlan::build(vec![account(1, 1, 10, 4, 9), account(2, 1, 11, 1, 3), account(3, 2, 12, 8, 0)]);
    let debited = |id: u128| -> u128 {
        plan.synthetic_transfers.iter().filter(|t| t.debit_account_id == id).map(|t| t.amount).sum()
    };
    let credited = |id: u128| -> u128 {
        plan.synthetic_transfers.iter().filter(|t| t.credit_account_id == id).map(|t| t.amount).sum()
    };
    assert_eq!(debited(u128::MAX - 2), 12);
    assert_eq!(credited(u128::MAX - 3), 5);
    assert_eq!(debited(u128::MAX - 4), 0);
    assert_eq!(credited(u128::MAX - 5), 8);
}

#[test]
fn window_without_movement_matches_the_snapshot() {
    let inputs = vec![account(1, 1, 10, 4, 9), account(2, 2, 20, 0, 3), account(3, 1, 25, 0, 0)];
    let window = vec![window_transfer(50, 7, 8, 1, 40)];
    let snapshot = BalancePlan::build(inputs.clone());
    let windowed = BalancePlan::build_windowed(inputs, window.clone(), 30);
    assert_eq!(windowed.genesis_accounts, snapshot.genesis_accounts);
    assert_eq!(windowed.regular_accounts, snapshot.regular_accounts);
    assert_eq!(windowed.windowed_transfers, window);
    assert_eq!(windowed.synthetic_transfers.len(), snapshot.synthetic_transfers.len());
    for (w, s) in windowed.synthetic_transfers.iter().zip(snapshot.synthetic_transfers.iter()) {
        let mut retimed = *s;
        retimed.timestamp = w.timestamp;
        assert_eq!(*w, retimed);
    }
    assert_eq!(windowed.synthetic_transfers[0].timestamp, 21);
    assert_eq!(snapshot.synthetic_transfers[0].timestamp, 26);
}

#[test]
fn synthetic_transfers_precede_the_cutoff_when_there_is_room() {
    let plan = BalancePlan::build_windowed(vec![account(1, 1, 10, 4, 9), account(2, 1, 11, 0, 3)], vec![], 1000);
    assert_eq!(plan.synthetic_transfers.len(), 3);
    assert!(plan.synthetic_transfers.iter().all(|t| t.timestamp < 1000));
    assert_eq!(plan.synthetic_transfers[0].timestamp, 12);
}
