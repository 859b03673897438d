use tigerbeetle_manager::error::{CompressorError, ManagerError, ReaderError};
use tigerbeetle_manager::import::{
    convert_account, convert_transfer, convert_windowed_transfer, ImportPhase, ImportRun, BATCH_SIZE,
};
use tigerbeetle_manager::manager::{
    BackupConfig, BackupConfigReply, BackupConfigUpdate, LogEntry, LogLevel, ManagerConfig,
    ManagerState, S3BackupStrategy,
};
use tigerbeetle_manager::plan::{BalancePlan, SyntheticTransfer};
use tigerbeetle_manager::supervisor::{LoopAction, LoopEvent, Supervisor};
use tigerbeetle_manager::node::start_backups;
use tigerbeetle_manager::types::{Account, AccountFlags, Transfer, TransferFlags};

fn sample_account(id: u128, flags: u16, timestamp: u64) -> Account {
    Account {
        id,
        debits_pending: 1,
        debits_posted: 2,
        credits_pending: 3,
        credits_posted: 4,
        user_data_128: 5,
        user_data_64: 6,
        user_data_32: 7,
        reserved: 0,
        ledger: 8,
        code: 9,
        flags: AccountFlags::from(flags),
        timestamp,
    }
}

fn plan_with(genesis: usize, regular: usize, synthetic: usize) -> BalancePlan {
    BalancePlan {
        genesis_accounts: vec![sample_account(1, 0, 1); genesis],
        regular_accounts: vec![sample_account(2, 0, 2); regular],
        synthetic_transfers: vec![
            SyntheticTransfer { id: 1, debit_account_id: 1, credit_account_id: 2, amount: 3, ledger: 8, code: 9, timestamp: 10 };
            synthetic
        ],
        windowed_transfers: vec![],
    }
}

#[test]
fn accounts_are_sent_with_kept_flags_and_zero_balances() {
    let a = sample_account(42, 0x003F, 1234);
    let r = convert_account(&a, true);
    assert_eq!(r.id, 42);
    assert_eq!(r.flags.raw(), 0x003F);
    assert_eq!(r.debits_posted, 0);
    assert_eq!(r.credits_pending, 0);
    assert_eq!(r.timestamp, 1234);
    assert_eq!(r.user_data_128, 5);
    let r = convert_account(&sample_account(42, 0x0021, 1234), false);
    assert_eq!(r.flags.raw(), 0x0021);
    assert_eq!(r.timestamp, 0);
}

#[test]
fn transfers_are_sent_imported() {
    let t = SyntheticTransfer { id: 5, debit_account_id: 6, credit_account_id: 7, amount: 8, ledger: 1, code: 2, timestamp: 99 };
    let r = convert_transfer(&t);
    assert_eq!(r.flags.raw(), 0x0100);
    assert_eq!(r.timestamp, 99);
    assert_eq!(r.amount, 8);
    let w = Transfer {
        id: 1,
        debit_account_id: 2,
        credit_account_id: 3,
        amount: 4,
        pending_id: 5,
        user_data_128: 6,
        user_data_64: 7,
        user_data_32: 8,
        timeout: 9,
        ledger: 10,
        code: 11,
        flags: TransferFlags::from(0x0003),
        timestamp: 12,
    };
    let r = convert_windowed_transfer(&w);
    assert_eq!(r.flags.raw(), 0x0103);
    assert_eq!(r.pending_id, 5);
    assert_eq!(r.timeout, 9);
    assert_eq!(r.timestamp, 12);
}

#[test]
fn import_runs_in_batches_by_phase() {
    let plan = plan_with(2, BATCH_SIZE + 1, 0);
    let mut run = ImportRun::new(&plan);
    let b = run.next_batch().unwrap();
    assert_eq!((b.phase, b.start, b.end), (ImportPhase::GenesisAccounts, 0, 2));
    let p = run.on_result(&b, 0).ok().unwrap();
    assert_eq!((p.phase.as_str(), p.imported, p.total), ("genesis_accounts", 2, 2));
    let b = run.next_batch().unwrap();
    assert_eq!((b.phase, b.start, b.end), (ImportPhase::Accounts, 0, BATCH_SIZE));
    run.on_result(&b, 0).ok().unwrap();
    let b = run.next_batch().unwrap();
    assert_eq!((b.phase, b.start, b.end), (ImportPhase::Accounts, BATCH_SIZE, BATCH_SIZE + 1));
    let p = run.on_result(&b, 0).ok().unwrap();
    assert_eq!((p.phase.as_str(), p.imported, p.total), ("accounts", 8001, 8001));
    assert!(run.next_batch().is_none());
}

#[test]
fn refused_records_fail_the_import() {
    let plan = plan_with(0, 0, 3);
    let mut run = ImportRun::new(&plan);
    let b = run.next_batch().unwrap();
    assert_eq!(b.phase, ImportPhase::SyntheticTransfers);
    assert!(!b.phase.creates_accounts());
    assert!(matches!(run.on_result(&b, 2), Err(CompressorError::TransferCreationFailed(2))));
    let plan = plan_with(1, 0, 0);
    let mut run = ImportRun::new(&plan);
    let b = run.next_batch().unwrap();
    assert!(matches!(run.on_result(&b, 1), Err(CompressorError::AccountCreationFailed(1))));
}

#[test]
fn error_descriptions() {
    assert_eq!(CompressorError::AccountCreationFailed(3).to_display_string(), "failed to create 3 account(s)");
    assert_eq!(
        CompressorError::Reader(ReaderError::InvalidSuperblock(String::from("x"))).to_display_string(),
        "reader error: invalid superblock: x"
    );
    assert_eq!(ManagerError::S3(String::from("denied")).to_display_string(), "S3 error: denied");
    assert!(matches!(CompressorError::from(ReaderError::Io(String::from("x"))), CompressorError::Reader(_)));
}

fn config() -> ManagerConfig {
    ManagerConfig {
        exe: String::from("tb"),
        args: vec![String::from("start"), String::from("--addresses=127.0.0.1:3000"), String::from("--addresses=9")],
        backup_file: String::from("/d/0.tb"),
        bucket: String::from("bk"),
    }
}

#[test]
fn manager_state_tracks_backups() {
    let mut st = ManagerState::new(&config(), Some(String::from("* * * * *")));
    assert_eq!(st.address, "127.0.0.1:3000");
    assert!(st.backups_enabled);
    assert!(!st.process_running);
    assert_eq!(st.backup_job_target(), Some((String::from("/d/0.tb"), String::from("bk"))));
    st.backup_succeeded(String::from("t1"));
    st.backup_failed(String::from("boom"));
    assert_eq!(st.last_backup_at, Some(String::from("t1")));
    assert_eq!(st.last_backup_error, Some(String::from("boom")));
    st.disable_backups();
    assert_eq!(st.backup_job_target(), None);
    assert_eq!(st.cron_schedule, None);
    let st2 = ManagerState::new(&ManagerConfig { args: vec![], ..config() }, None);
    assert_eq!(st2.address, "");
    assert!(!st2.backups_enabled);
}

#[test]
fn backup_config_updates_only_given_fields() {
    let mut cfg = BackupConfig::default();
    cfg.bucket = Some(String::from("old"));
    cfg.cron_schedule = Some(String::from("0 0 * * *"));
    let upd = BackupConfigUpdate {
        aws_endpoint_url: String::from("https://s3"),
        aws_access_key_id: String::new(),
        aws_secret_access_key: String::new(),
        aws_default_region: String::from("eu"),
        aws_request_checksum_calculation: String::new(),
        aws_response_checksum_validation: String::new(),
        bucket: String::new(),
        backup_file: String::from("/f"),
    };
    cfg.apply_update(&upd);
    assert_eq!(cfg.aws_endpoint_url, Some(String::from("https://s3")));
    assert_eq!(cfg.aws_access_key_id, None);
    assert_eq!(cfg.bucket, Some(String::from("old")));
    assert_eq!(cfg.backup_file, Some(String::from("/f")));
    assert_eq!(cfg.cron_schedule, Some(String::from("0 0 * * *")));
    let env = cfg.env_assignments();
    assert_eq!(
        env,
        vec![
            (String::from("AWS_ENDPOINT_URL"), String::from("https://s3")),
            (String::from("AWS_DEFAULT_REGION"), String::from("eu")),
            (String::from("AWS_REGION"), String::from("eu")),
        ]
    );
    let mut st = ManagerState::new(&config(), None);
    st.apply_backup_config(&cfg);
    assert_eq!(st.bucket, "old");
    assert_eq!(st.backup_file, "/f");
    let reply = BackupConfigReply::from_config(Some(&cfg));
    assert!(reply.config_file_configured);
    assert_eq!(reply.aws_access_key_id, "");
    assert_eq!(reply.backup_file, "/f");
    let reply = BackupConfigReply::from_config(None);
    assert!(!reply.config_file_configured);
    assert_eq!(reply.bucket, "");
}

#[test]
fn backup_object_names() {
    assert_eq!(S3BackupStrategy::compressed_path("0_0.tigerbeetle"), "/tmp/0_0.tigerbeetle.zst");
    assert_eq!(
        S3BackupStrategy::object_key("2024-01-02T03:04:05Z", "0_0.tigerbeetle.zst"),
        "backup/2024-01-02T03:04:05Z/0_0.tigerbeetle.zst"
    );
    assert_eq!(S3BackupStrategy::new(None).config_file, None);
    let e = LogEntry::from_output_line(String::from("t"), String::from("line"), true);
    assert_eq!(e.level, LogLevel::Error);
    let e = LogEntry::from_output_line(String::from("t"), String::from("line"), false);
    assert_eq!(e.level, LogLevel::Info);
}

#[test]
fn backup_schedule_changes_state_only_when_accepted() {
    let mut state = ManagerState::new(&config(), None);
    let before = state.clone();
    assert!(start_backups(&mut state, String::from("0 0 * *")).is_err());
    assert_eq!(state.backups_enabled, before.backups_enabled);
    assert_eq!(state.cron_schedule, before.cron_schedule);
    let m = start_backups(&mut state, String::from("0 0 * * *")).ok().unwrap();
    assert_eq!(m, "Backups enabled with schedule '0 0 * * *'. An immediate backup has been triggered.");
    assert!(state.backups_enabled);
    assert_eq!(state.cron_schedule, Some(String::from("0 0 * * *")));
    state.record_backup_outcome(Ok(String::from("2024-01-01T00:00:00Z")));
    assert_eq!(state.last_backup_at, Some(String::from("2024-01-01T00:00:00Z")));
    assert_eq!(state.last_backup_error, None);
    state.record_backup_outcome(Err(String::from("denied")));
    assert_eq!(state.last_backup_at, Some(String::from("2024-01-01T00:00:00Z")));
    assert_eq!(state.last_backup_error, Some(String::from("denied")));
}

#[test]
fn supervisor_stops_the_scheduler_before_leaving() {
    let mut state = ManagerState::new(&config(), Some(String::from("0 * * * *")));
    let (mut sup, first) = Supervisor::start(&mut state, Some(42), Some(String::from("0 * * * *")));
    assert!(state.process_running);
    assert_eq!(state.pid, Some(42));
    assert_eq!(first, vec![LoopAction::StartScheduler(String::from("0 * * * *"))]);
    sup.scheduler_started(true);
    assert_eq!(
        sup.on_event(LoopEvent::CronChanged(Some(String::from("5 * * * *")))),
        vec![LoopAction::StopScheduler, LoopAction::StartScheduler(String::from("5 * * * *"))]
    );
    sup.scheduler_started(true);
    assert_eq!(sup.on_event(LoopEvent::Shutdown(false)), vec![]);
    assert_eq!(
        sup.on_event(LoopEvent::Shutdown(true)),
        vec![LoopAction::StopScheduler, LoopAction::KillChild, LoopAction::Exit]
    );
    let (mut sup, first) = Supervisor::start(&mut state, None, None);
    assert!(first.is_empty());
    assert_eq!(sup.on_event(LoopEvent::CronChanged(None)), vec![]);
    assert_eq!(sup.on_event(LoopEvent::ChildExited), vec![LoopAction::Exit]);
    let (mut sup, _) = Supervisor::start(&mut state, None, None);
    assert_eq!(sup.on_event(LoopEvent::CronChannelClosed), vec![LoopAction::Exit]);
}

#[test]
fn selected_phases_import_only_their_records() {
    let plan = plan_with(2, 3, 4);
    let mut run = ImportRun::new_selected(&plan, [false, false, true, false]);
    let b = run.next_batch().unwrap();
    assert_eq!((b.phase, b.start, b.end), (ImportPhase::SyntheticTransfers, 0, 4));
    run.on_result(&b, 0).ok().unwrap();
    assert!(run.next_batch().is_none());
}

#[test]
fn window_replay_restores_final_balances() {
    let mut a = sample_account(10, 0, 1000);
    a.debits_pending = 0;
    a.credits_pending = 0;
    a.debits_posted = 300;
    a.credits_posted = 500;
    let out = Transfer {
        id: 1001,
        debit_account_id: 10,
        credit_account_id: 99,
        amount: 100,
        pending_id: 0,
        user_data_128: 0,
        user_data_64: 0,
        user_data_32: 0,
        timeout: 0,
        ledger: 8,
        code: 5,
        flags: TransferFlags::from(0),
        timestamp: 2000,
    };
    let inc = Transfer { id: 1002, debit_account_id: 99, credit_account_id: 10, amount: 200, timestamp: 2001, ..out };
    let window = vec![out, inc];
    let plan = BalancePlan::build_windowed(vec![a], window.clone(), 1500);
    let credited: u128 = plan.synthetic_transfers.iter().filter(|t| t.credit_account_id == 10).map(|t| t.amount).sum();
    let debited: u128 = plan.synthetic_transfers.iter().filter(|t| t.debit_account_id == 10).map(|t| t.amount).sum();
    let window_credits: u128 = window.iter().filter(|t| t.credit_account_id == 10).map(|t| t.amount).sum();
    let window_debits: u128 = window.iter().filter(|t| t.debit_account_id == 10).map(|t| t.amount).sum();
    assert_eq!(credited + window_credits, 500);
    assert_eq!(debited + window_debits, 300);
    // Synthetic transfers come after every account with a balance.
    assert!(plan.synthetic_transfers.iter().all(|t| t.timestamp > plan.regular_accounts[0].timestamp));
}
