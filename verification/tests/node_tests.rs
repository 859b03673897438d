use tigerbeetle_manager::manager::{BackupConfig, ManagerConfig, ManagerState};
use tigerbeetle_manager::node::{
    account_to_proto, check_new_addresses, clamp_limit, config_saved_reply, format_command,
    format_outcome, lagged_notice, ledger_summaries, merge_accounts, migration_accounts_page,
    migration_synthetic_page, parse_cluster_id, plan_for_execution, plan_migration, refuse_pending,
    start_backup_reply, transfer_to_proto, transfers_since, trigger_backup_reply, AccountFilter,
    FormatRequest, MigrationProgress, NodeSettings, StatusReply,
};
use tigerbeetle_manager::node::{migration_accounts_reply, migration_synthetic_reply, CachedMigrationPlan};
use tigerbeetle_manager::error::ReaderError;
use tigerbeetle_manager::reader::lsm_records_or_empty;
use tigerbeetle_manager::plan::SyntheticTransfer;
use tigerbeetle_manager::text::{count_words, parse_u128, trim};
use tigerbeetle_manager::types::{Account, AccountFlags, Transfer, TransferFlags};

fn account(id: u128, ledger: u32, timestamp: u64, debits: u128, credits: u128) -> Account {
    Account {
        id,
        debits_pending: 0,
        debits_posted: debits,
        credits_pending: 0,
        credits_posted: credits,
        user_data_128: 0,
        user_data_64: 0,
        user_data_32: 0,
        reserved: 0,
        ledger,
        code: 1,
        flags: AccountFlags::from(0),
        timestamp,
    }
}

fn transfer(id: u128, timestamp: u64) -> Transfer {
    Transfer {
        id,
        debit_account_id: 1,
        credit_account_id: 2,
        amount: 5,
        pending_id: 0,
        user_data_128: 0,
        user_data_64: 0,
        user_data_32: 0,
        timeout: 0,
        ledger: 1,
        code: 1,
        flags: TransferFlags::from(0),
        timestamp,
    }
}

fn no_filter() -> AccountFilter {
    AccountFilter {
        id: None,
        ledger: None,
        code: None,
        flags: None,
        user_data_32: None,
        user_data_64: None,
        user_data_128: None,
    }
}

fn state() -> ManagerState {
    let config = ManagerConfig {
        exe: String::from("tigerbeetle"),
        args: vec![String::from("start"), String::from("--addresses=3000"), String::from("./0_0.tb")],
        backup_file: String::from("./0_0.tb"),
        bucket: String::from("b"),
    };
    ManagerState::new(&config, None)
}

#[test]
fn page_limit_is_clamped() {
    assert_eq!(clamp_limit(0), 1);
    assert_eq!(clamp_limit(20), 20);
    assert_eq!(clamp_limit(10_000), 500);
}

#[test]
fn records_render_large_values_in_decimal() {
    let mut a = account(u128::MAX, 3, 9, 10, 20);
    a.flags = AccountFlags::from(0x21);
    let r = account_to_proto(&a);
    assert_eq!(r.id, "340282366920938463463374607431768211455");
    assert_eq!(r.debits_posted, "10");
    assert_eq!(r.flags, 0x21);
    assert_eq!(r.ledger, 3);
    let t = transfer(77, 5);
    let r = transfer_to_proto(&t);
    assert_eq!(r.id, "77");
    assert_eq!(r.amount, "5");
    assert_eq!(r.pending_id, "0");
}

#[test]
fn account_drill_down_filters_and_pages() {
    let accounts = vec![account(1, 1, 10, 0, 0), account(2, 2, 20, 0, 0), account(3, 1, 30, 0, 0), account(4, 1, 40, 0, 0)];
    let mut f = no_filter();
    f.ledger = Some(1);
    let (page, total) = migration_accounts_page(&accounts, &Some(f.clone()), 1, 2);
    assert_eq!(total, 3);
    assert_eq!(page.len(), 1);
    assert_eq!(page[0].id, "4");
    f.id = Some(String::from("+3"));
    let (page, total) = migration_accounts_page(&accounts, &Some(f.clone()), 0, 10);
    assert_eq!(total, 1);
    assert_eq!(page[0].id, "3");
    // An id that is not a number filters nothing.
    f.id = Some(String::from("three"));
    let (_, total) = migration_accounts_page(&accounts, &Some(f), 0, 10);
    assert_eq!(total, 3);
    let (page, total) = migration_accounts_page(&accounts, &None, 5, 10);
    assert_eq!(total, 4);
    assert_eq!(page.len(), 0);
}

#[test]
fn synthetic_drill_down_filters_by_ledger() {
    let ts = vec![
        SyntheticTransfer { id: 1, debit_account_id: 8, credit_account_id: 9, amount: 3, ledger: 1, code: 1, timestamp: 5 },
        SyntheticTransfer { id: 2, debit_account_id: 8, credit_account_id: 9, amount: 4, ledger: 2, code: 1, timestamp: 6 },
    ];
    let (page, total) = migration_synthetic_page(&ts, Some(2), 0, 0);
    assert_eq!(total, 1);
    assert_eq!(page.len(), 1);
    assert_eq!(page[0].id, "2");
    assert_eq!(page[0].amount, "4");
    let (_, total) = migration_synthetic_page(&ts, None, 0, 0);
    assert_eq!(total, 2);
}

#[test]
fn drill_down_replies_echo_the_request() {
    let none: Option<CachedMigrationPlan> = None;
    match migration_accounts_reply(&none, &None, 7, 3) {
        Err(m) => assert_eq!(m, "No cached migration plan. Run PlanMigration first."),
        Ok(_) => panic!("expected a refusal"),
    }
    assert!(migration_synthetic_reply(&none, None, u32::MAX, u32::MAX).is_err());
    let cached = Some(CachedMigrationPlan {
        accounts: vec![account(1, 1, 10, 0, 0), account(2, 2, 11, 0, 0), account(3, 1, 12, 0, 0)],
        synthetic_transfers: vec![
            SyntheticTransfer { id: 1, debit_account_id: 8, credit_account_id: 9, amount: 3, ledger: 1, code: 1, timestamp: 5 },
        ],
        windowed_transfers: vec![],
    });
    let reply = migration_accounts_reply(&cached, &None, 1, 2).ok().unwrap();
    assert_eq!((reply.page, reply.limit, reply.total_count), (1, 2, 3));
    assert_eq!(reply.accounts.len(), 1);
    assert_eq!(reply.accounts[0].id, "3");
    let reply = migration_synthetic_reply(&cached, Some(1), 0, 0).ok().unwrap();
    assert_eq!((reply.page, reply.limit, reply.total_count), (0, 0, 1));
    assert_eq!(reply.transfers[0].amount, "3");
}

#[test]
fn checkpointed_records_of_a_merged_read() {
    let listed: Result<Result<Vec<u8>, ReaderError>, ReaderError> = Ok(Ok(vec![4, 5]));
    assert_eq!(lsm_records_or_empty(listed, "accounts"), Ok(vec![4, 5]));
    let never: Result<Result<Vec<u8>, ReaderError>, ReaderError> = Err(ReaderError::NotCheckpointed { sequence: 3 });
    assert_eq!(lsm_records_or_empty(never, "accounts"), Ok(vec![]));
    let bad: Result<Result<Vec<u8>, ReaderError>, ReaderError> = Err(ReaderError::Io(String::from("gone")));
    assert_eq!(lsm_records_or_empty(bad, "transfers"), Err(String::from("iter LSM transfers: I/O error: gone")));
    let broken: Result<Result<Vec<u8>, ReaderError>, ReaderError> =
        Ok(Err(ReaderError::InvalidBlock(String::from("x"))));
    assert_eq!(lsm_records_or_empty(broken, "accounts"), Err(String::from("read LSM accounts: invalid block: x")));
}

#[test]
fn journal_accounts_replace_checkpointed_ones() {
    let lsm = vec![account(1, 1, 10, 5, 0), account(2, 1, 20, 0, 0)];
    let wal = vec![account(1, 1, 10, 9, 0), account(3, 1, 30, 0, 0)];
    let mut merged = merge_accounts(lsm.clone(), wal);
    merged.sort_by_key(|a| a.id);
    assert_eq!(merged.len(), 3);
    assert_eq!(merged[0].debits_posted, 9);
    assert_eq!(merged[2].id, 3);
    // Without journal records the checkpointed list is returned as it is.
    assert_eq!(merge_accounts(lsm.clone(), vec![]), lsm);
}

#[test]
fn window_transfers_are_sorted_and_deduplicated() {
    let lsm = vec![transfer(1, 50), transfer(2, 10), transfer(3, 30)];
    let wal = vec![transfer(3, 40), transfer(4, 20)];
    let out = transfers_since(lsm, wal, 20);
    let ids: Vec<u128> = out.iter().map(|t| t.id).collect();
    assert_eq!(ids, vec![4, 3, 1]);
}

#[test]
fn ledger_summaries_sum_posted_balances() {
    let accounts = vec![account(1, 2, 10, 5, 1), account(2, 1, 20, 7, 0), account(3, 2, 30, u128::MAX - 5, 2)];
    let s = ledger_summaries(&accounts);
    assert_eq!(s.len(), 2);
    assert_eq!(s[0].ledger, 1);
    assert_eq!(s[0].account_count, 1);
    assert_eq!(s[1].ledger, 2);
    assert_eq!(s[1].account_count, 2);
    assert_eq!(s[1].total_debits_posted, u128::MAX.to_string());
    assert_eq!(s[1].total_credits_posted, "3");
}

#[test]
fn migration_plan_summary() {
    let mut pending = account(2, 1, 20, 0, 0);
    pending.credits_pending = 4;
    let accounts = vec![account(1, 1, 10, 5, 7), pending];
    let (summary, cached) = plan_migration(accounts, vec![], 0);
    assert_eq!(summary.accounts, 2);
    assert_eq!(summary.pending_transfers, 1);
    assert!(!summary.safe);
    assert_eq!(summary.pending_accounts[0].id, "2");
    assert_eq!(summary.ledgers, 1);
    assert_eq!(summary.synthetic_transfers, 2);
    assert_eq!(summary.windowed_transfers, 0);
    assert_eq!(cached.accounts.len(), 2);
    assert_eq!(cached.synthetic_transfers.len(), 2);
}

#[test]
fn execution_is_refused_with_pending_balances() {
    let mut pending = account(2, 1, 20, 0, 0);
    pending.debits_pending = 1;
    match plan_for_execution(vec![account(1, 1, 10, 0, 0), pending], vec![], 0) {
        Err(m) => assert_eq!(m, "1 account(s) have non-zero pending balances. Void all pending transfers before migration."),
        Ok(_) => panic!("expected a refusal"),
    }
    let plan = plan_for_execution(vec![account(1, 1, 10, 3, 0)], vec![], 0).ok().unwrap();
    assert_eq!(plan.synthetic_transfers.len(), 1);
    assert_eq!(check_new_addresses(""), Err(String::from("new_addresses must not be empty")));
    assert_eq!(check_new_addresses("3000"), Ok(()));
}

#[test]
fn pending_balances_are_refused_before_any_plan() {
    let mut pending = account(1, 1, u64::MAX, 0, 5);
    pending.debits_pending = 1;
    let message = "1 account(s) have non-zero pending balances. Void all pending transfers before migration.";
    assert_eq!(refuse_pending(&vec![pending]), Err(String::from(message)));
    match plan_for_execution(vec![pending], vec![], 0) {
        Err(m) => assert_eq!(m, message),
        Ok(_) => panic!("expected a refusal"),
    }
    assert_eq!(refuse_pending(&vec![account(2, 1, 10, 3, 0)]), Ok(()));
}

#[test]
fn cluster_ids_parse_as_decimal() {
    assert_eq!(parse_cluster_id("42"), Ok(42));
    assert_eq!(parse_cluster_id("340282366920938463463374607431768211455"), Ok(u128::MAX));
    assert_eq!(
        parse_cluster_id("340282366920938463463374607431768211456"),
        Err(String::from("invalid new_cluster_id \"340282366920938463463374607431768211456\": expected decimal u128"))
    );
    assert_eq!(parse_cluster_id("x1"), Err(String::from("invalid new_cluster_id \"x1\": expected decimal u128")));
    assert_eq!(parse_u128("+7"), Some(7));
    assert_eq!(parse_u128("+"), None);
    assert_eq!(parse_u128(""), None);
    assert_eq!(parse_u128("-1"), None);
}

#[test]
fn cron_schedules_need_five_or_six_fields() {
    assert_eq!(start_backup_reply("  \t "), Err(String::from("cron_schedule must not be empty")));
    assert_eq!(start_backup_reply("0 0 * *"), Err(String::from("Invalid cron pattern: expected 5-6 fields, got 4")));
    assert_eq!(
        start_backup_reply("0 0 0 * * *"),
        Ok(String::from("Backups enabled with schedule '0 0 0 * * *'. An immediate backup has been triggered."))
    );
    assert_eq!(count_words(" a  b\tc \n"), 3);
    assert_eq!(trim("  a b \n"), "a b");
    assert_eq!(trim(" \t "), "");
}

#[test]
fn format_requests() {
    let mut st = state();
    let req = FormatRequest {
        cluster_id: String::from("0"),
        replica: 1,
        replica_count: 3,
        size: String::from("1G"),
        data_file_path: String::new(),
    };
    let cmd = format_command(&req, &st).ok().unwrap();
    assert_eq!(cmd.exe, "tigerbeetle");
    assert_eq!(
        cmd.args,
        vec!["format", "--cluster=0", "--replica=1", "--replica-count=3", "--size=1G", "./0_0.tb"]
    );
    st.process_started(Some(7));
    assert_eq!(
        format_command(&req, &st).err().unwrap(),
        "TigerBeetle process is still running. Stop the node before formatting a data file."
    );
    let (ok, m, path) = format_outcome(&req, "./x", true, Some(0), "", "");
    assert!(ok);
    assert_eq!(path, "./x");
    assert_eq!(m, "Data file formatted successfully: cluster=0 replica=1/3 path=./x");
    let (ok, m, path) = format_outcome(&req, "./x", false, Some(-2), " out\n", "err \n");
    assert!(!ok);
    assert_eq!(path, "");
    assert_eq!(m, "tigerbeetle format failed (exit Some(-2)): out\nerr");
    let (_, m, _) = format_outcome(&req, "./x", false, None, "", "");
    assert_eq!(m, "tigerbeetle format failed (exit None): ");
}

#[test]
fn reply_messages() {
    assert_eq!(trigger_backup_reply("./0_0.tb", "b"), "Backup started for \"./0_0.tb\" \u{2192} s3://b/");
    assert_eq!(config_saved_reply("/etc/c.toml"), "Backup config saved to \"/etc/c.toml\"");
    assert_eq!(config_saved_reply("/etc/it's.toml"), "Backup config saved to \"/etc/it's.toml\"");
    assert_eq!(config_saved_reply("/etc/a\nb.toml"), "Backup config saved to \"/etc/a\\nb.toml\"");
    assert_eq!(lagged_notice(12), "... skipped 12 log entries (slow consumer)");
    let done = MigrationProgress::finished();
    assert_eq!(done.phase, "done");
    assert!(done.done);
}

#[test]
fn status_reports_state() {
    let mut st = state();
    st.enable_backups(String::from("0 0 0 * * *"));
    let r = StatusReply::from_state(&st, -5, None);
    assert_eq!(r.uptime_seconds, 0);
    assert_eq!(r.process.pid, 0);
    assert_eq!(r.process.address, "3000");
    assert!(r.backup.enabled);
    assert_eq!(r.backup.cron_schedule, "0 0 0 * * *");
    assert_eq!(r.backup.last_error, "");
}

#[test]
fn node_settings_fall_back_to_arguments() {
    let cfg = BackupConfig::default();
    let args = vec![String::from("start"), String::from("--addresses=3000"), String::from("./data/1.tb"), String::from("--x")];
    let s = NodeSettings::resolve(&cfg, &args);
    assert_eq!(s.bucket, "tigerbeetle-backups");
    assert_eq!(s.backup_file, "./data/1.tb");
    let s = NodeSettings::resolve(&cfg, &vec![String::from("--a")]);
    assert_eq!(s.backup_file, "./data/0_0.tigerbeetle");
    let mut cfg = BackupConfig::default();
    cfg.backup_file = Some(String::from("/f"));
    cfg.bucket = Some(String::from("bk"));
    let s = NodeSettings::resolve(&cfg, &args);
    assert_eq!(s.backup_file, "/f");
    assert_eq!(s.bucket, "bk");
}
