//! Importing a balance plan into a fresh cluster: the records sent, the
//! batch schedule and the progress reports.
//!
//! The cluster's account and transfer records share the 128-byte layout of
//! [`Account`] and [`Transfer`], so the records to send are values of those
//! types. Phases run in order: genesis accounts, regular accounts,
//! synthetic transfers, windowed transfers, each in consecutive batches of
//! at most [`BATCH_SIZE`] records.

use vstd::prelude::*;
use vstd::string::StringExecFns;
use crate::error::CompressorError;
use crate::plan::{BalancePlan, SyntheticTransfer};
use crate::types::{Account, AccountFlags, Transfer, TransferFlags};

verus! {

/// Maximum number of records in one create request (the cluster's message
/// size limit allows about 8,190).
pub const BATCH_SIZE: usize = 8000;

/// `imported` bit of account flags.
pub const ACCOUNT_IMPORTED: u16 = 0x0010;
/// Account flag bits carried over on import: linked, the two balance
/// limits, history and closed.
pub const ACCOUNT_KEPT_FLAGS: u16 = 0x002F;
/// `imported` bit of transfer flags.
pub const TRANSFER_IMPORTED: u16 = 0x0100;
/// Transfer flag bits carried over on a windowed replay (all eight defined
/// below `imported`).
pub const TRANSFER_KEPT_FLAGS: u16 = 0x00FF;

/// Flags an account is created with: its own kept flags, plus `imported`
/// when asked.
pub open spec fn import_account_flags(f: u16, imported: bool) -> u16 {
    (if imported { ACCOUNT_IMPORTED } else { 0u16 }) | (f & ACCOUNT_KEPT_FLAGS)
}

/// The account record sent to the cluster for `acc`: identity, ledger,
/// code, user data and kept flags; zero balances; its own timestamp
/// when imported, else 0 (the cluster assigns one).
pub open spec fn spec_convert_account(acc: Account, imported: bool) -> Account {
    Account {
        id: acc.id,
        debits_pending: 0,
        debits_posted: 0,
        credits_pending: 0,
        credits_posted: 0,
        user_data_128: acc.user_data_128,
        user_data_64: acc.user_data_64,
        user_data_32: acc.user_data_32,
        reserved: 0,
        ledger: acc.ledger,
        code: acc.code,
        flags: AccountFlags(import_account_flags(acc.flags.0, imported)),
        timestamp: if imported { acc.timestamp } else { 0 },
    }
}

/// Build the account record sent to the cluster for `acc`.
pub fn convert_account(acc: &Account, imported: bool) -> (r: Account)
    ensures
        r == spec_convert_account(*acc, imported),
{
    let base: u16 = if imported { ACCOUNT_IMPORTED } else { 0 };
    Account {
        id: acc.id,
        debits_pending: 0,
        debits_posted: 0,
        credits_pending: 0,
        credits_posted: 0,
        user_data_128: acc.user_data_128,
        user_data_64: acc.user_data_64,
        user_data_32: acc.user_data_32,
        reserved: 0,
        ledger: acc.ledger,
        code: acc.code,
        flags: AccountFlags(base | (acc.flags.0 & ACCOUNT_KEPT_FLAGS)),
        timestamp: if imported { acc.timestamp } else { 0 },
    }
}

/// The transfer record sent to the cluster for a synthetic transfer: flag
/// `imported` alone, its own timestamp, no pending id, user data or timeout.
pub open spec fn spec_convert_transfer(t: SyntheticTransfer) -> Transfer {
    Transfer {
        id: t.id,
        debit_account_id: t.debit_account_id,
        credit_account_id: t.credit_account_id,
        amount: t.amount,
        pending_id: 0,
        user_data_128: 0,
        user_data_64: 0,
        user_data_32: 0,
        timeout: 0,
        ledger: t.ledger,
        code: t.code,
        flags: TransferFlags(TRANSFER_IMPORTED),
        timestamp: t.timestamp,
    }
}

/// Build the transfer record sent to the cluster for a synthetic transfer.
pub fn convert_transfer(t: &SyntheticTransfer) -> (r: Transfer)
    ensures
        r == spec_convert_transfer(*t),
{
    Transfer {
        id: t.id,
        debit_account_id: t.debit_account_id,
        credit_account_id: t.credit_account_id,
        amount: t.amount,
        pending_id: 0,
        user_data_128: 0,
        user_data_64: 0,
        user_data_32: 0,
        timeout: 0,
        ledger: t.ledger,
        code: t.code,
        flags: TransferFlags(TRANSFER_IMPORTED),
        timestamp: t.timestamp,
    }
}

/// The transfer record replayed for a windowed transfer: every field kept,
/// `imported` added to its defined flags.
pub open spec fn spec_convert_windowed_transfer(t: Transfer) -> Transfer {
    Transfer { flags: TransferFlags(TRANSFER_IMPORTED | (t.flags.0 & TRANSFER_KEPT_FLAGS)), ..t }
}

/// Build the transfer record replayed for a windowed transfer.
pub fn convert_windowed_transfer(t: &Transfer) -> (r: Transfer)
    ensures
        r == spec_convert_windowed_transfer(*t),
{
    Transfer {
        id: t.id,
        debit_account_id: t.debit_account_id,
        credit_account_id: t.credit_account_id,
        amount: t.amount,
        pending_id: t.pending_id,
        user_data_128: t.user_data_128,
        user_data_64: t.user_data_64,
        user_data_32: t.user_data_32,
        timeout: t.timeout,
        ledger: t.ledger,
        code: t.code,
        flags: TransferFlags(TRANSFER_IMPORTED | (t.flags.0 & TRANSFER_KEPT_FLAGS)),
        timestamp: t.timestamp,
    }
}

/// A phase of an import.
#[derive(Debug, Clone, Copy, PartialEq, Eq)]
pub enum ImportPhase {
    /// Genesis accounts of the plan.
    GenesisAccounts,
    /// Regular accounts of the plan.
    Accounts,
    /// Synthetic transfers of the plan.
    SyntheticTransfers,
    /// Windowed transfers of the plan.
    WindowedTransfers,
}

/// The phase at position `i` of the import order.
pub open spec fn phase_at(i: int) -> ImportPhase {
    if i == 0 {
        ImportPhase::GenesisAccounts
    } else if i == 1 {
        ImportPhase::Accounts
    } else if i == 2 {
        ImportPhase::SyntheticTransfers
    } else {
        ImportPhase::WindowedTransfers
    }
}

/// Name of `p` in progress reports.
pub open spec fn spec_phase_name(p: ImportPhase) -> Seq<char> {
    match p {
        ImportPhase::GenesisAccounts => "genesis_accounts"@,
        ImportPhase::Accounts => "accounts"@,
        ImportPhase::SyntheticTransfers => "synthetic_transfers"@,
        ImportPhase::WindowedTransfers => "windowed_transfers"@,
    }
}

impl ImportPhase {
    /// Name of the phase in progress reports.
    pub fn name(&self) -> (s: String)
        ensures
            s@ == spec_phase_name(*self),
    {
        match self {
            ImportPhase::GenesisAccounts => String::from_str("genesis_accounts"),
            ImportPhase::Accounts => String::from_str("accounts"),
            ImportPhase::SyntheticTransfers => String::from_str("synthetic_transfers"),
            ImportPhase::WindowedTransfers => String::from_str("windowed_transfers"),
        }
    }

    /// Whether the phase creates accounts (else transfers).
    pub fn creates_accounts(&self) -> (b: bool)
        ensures
            b == (*self is GenesisAccounts || *self is Accounts),
    {
        match self {
            ImportPhase::GenesisAccounts | ImportPhase::Accounts => true,
            _ => false,
        }
    }
}

/// Progress update emitted during import.
#[derive(Debug, Clone)]
pub struct ImportProgress {
    /// Current phase: `"genesis_accounts"`, `"accounts"`,
    /// `"synthetic_transfers"` or `"windowed_transfers"`.
    pub phase: String,
    /// Records imported so far in this phase.
    pub imported: u64,
    /// Total records to import in this phase.
    pub total: u64,
}

/// One create request: records `start .. end` of the list of `phase`.
#[derive(Debug, Clone, Copy, PartialEq, Eq)]
pub struct ImportBatch {
    /// The phase whose list the records come from.
    pub phase: ImportPhase,
    /// Index of the first record.
    pub start: usize,
    /// Index past the last record.
    pub end: usize,
}

/// The schedule of an import in progress.
pub struct ImportRun {
    totals: [usize; 4],
    phase: usize,
    done: usize,
}

impl ImportRun {
    /// Number of records of the phase at position `i`.
    pub closed spec fn total(&self, i: int) -> nat {
        self.totals@[i] as nat
    }

    /// Position of the current phase (4 once all are done).
    pub closed spec fn phase_position(&self) -> int {
        self.phase as int
    }

    /// Records of the current phase already imported.
    pub closed spec fn imported(&self) -> nat {
        self.done as nat
    }

    /// The state's invariant.
    pub closed spec fn wf(&self) -> bool {
        &&& self.phase <= 4
        &&& self.phase < 4 ==> self.done <= self.totals@[self.phase as int]
        &&& self.phase == 4 ==> self.done == 0
    }

    /// The schedule of importing `plan`, before any batch.
    pub fn new(plan: &BalancePlan) -> (r: ImportRun)
        ensures
            r.wf(),
            r.total(0) == plan.genesis_accounts@.len(),
            r.total(1) == plan.regular_accounts@.len(),
            r.total(2) == plan.synthetic_transfers@.len(),
            r.total(3) == plan.windowed_transfers@.len(),
            r.phase_position() == 0,
            r.imported() == 0,
    {
        ImportRun {
            totals: [
                plan.genesis_accounts.len(),
                plan.regular_accounts.len(),
                plan.synthetic_transfers.len(),
                plan.windowed_transfers.len(),
            ],
            phase: 0,
            done: 0,
        }
    }

    /// The schedule of importing only the phases that `phases` selects (in
    /// import order: genesis accounts, accounts, synthetic transfers,
    /// windowed transfers); the others count as empty.
    pub fn new_selected(plan: &BalancePlan, phases: [bool; 4]) -> (r: ImportRun)
        ensures
            r.wf(),
            r.total(0) == if phases@[0] { plan.genesis_accounts@.len() } else { 0 },
            r.total(1) == if phases@[1] { plan.regular_accounts@.len() } else { 0 },
            r.total(2) == if phases@[2] { plan.synthetic_transfers@.len() } else { 0 },
            r.total(3) == if phases@[3] { plan.windowed_transfers@.len() } else { 0 },
            r.phase_position() == 0,
            r.imported() == 0,
    {
        ImportRun {
            totals: [
                if phases[0] { plan.genesis_accounts.len() } else { 0 },
                if phases[1] { plan.regular_accounts.len() } else { 0 },
                if phases[2] { plan.synthetic_transfers.len() } else { 0 },
                if phases[3] { plan.windowed_transfers.len() } else { 0 },
            ],
            phase: 0,
            done: 0,
        }
    }

    /// The next batch to send, past phases whose records are all sent;
    /// `None` when the import is complete.
    pub fn next_batch(&mut self) -> (b: Option<ImportBatch>)
        requires
            old(self).wf(),
        ensures
            final(self).wf(),
            forall|i: int| 0 <= i < 4 ==> #[trigger] final(self).total(i) == old(self).total(i),
            old(self).phase_position() <= final(self).phase_position(),
            forall|q: int|
                old(self).phase_position() < q < final(self).phase_position() ==> #[trigger] old(
                    self,
                ).total(q) == 0,
            final(self).phase_position() > old(self).phase_position() ==> old(self).imported()
                == old(self).total(old(self).phase_position()) && final(self).imported() == 0,
            final(self).phase_position() == old(self).phase_position() ==> final(self).imported()
                == old(self).imported(),
            match b {
                None => final(self).phase_position() == 4,
                Some(batch) => {
                    &&& final(self).phase_position() < 4
                    &&& batch.phase == phase_at(final(self).phase_position())
                    &&& batch.start == final(self).imported()
                    &&& batch.start < final(self).total(final(self).phase_position())
                    &&& batch.end == if batch.start + BATCH_SIZE < final(self).total(
                        final(self).phase_position(),
                    ) {
                        batch.start + BATCH_SIZE
                    } else {
                        final(self).total(final(self).phase_position()) as int
                    }
                    &&& phase_batches(final(self).total(final(self).phase_position()), batch.start as nat)[0]
                        == (batch.start as nat, batch.end as nat)
                },
            },
    {
        while self.phase < 4 && self.done == self.totals[self.phase]
            invariant
                self.wf(),
                self.totals@ == old(self).totals@,
                old(self).phase <= self.phase,
                forall|q: int| old(self).phase < q < self.phase ==> #[trigger] self.totals@[q] == 0,
                self.phase > old(self).phase ==> old(self).done == old(self).totals@[old(
                    self,
                ).phase as int] && self.done == 0,
                self.phase == old(self).phase ==> self.done == old(self).done,
            decreases 4 - self.phase,
        {
            self.phase = self.phase + 1;
            self.done = 0;
        }
        if self.phase == 4 {
            return None;
        }
        let total = self.totals[self.phase];
        let end = if total - self.done > BATCH_SIZE {
            self.done + BATCH_SIZE
        } else {
            total
        };
        let phase = if self.phase == 0 {
            ImportPhase::GenesisAccounts
        } else if self.phase == 1 {
            ImportPhase::Accounts
        } else if self.phase == 2 {
            ImportPhase::SyntheticTransfers
        } else {
            ImportPhase::WindowedTransfers
        };
        Some(ImportBatch { phase, start: self.done, end })
    }

    /// Take in the outcome of sending `batch`, the last batch handed out:
    /// `failures` records the cluster refused. Without failures the batch
    /// counts as imported and its progress report is returned; with some,
    /// the import fails and stays where it was.
    pub fn on_result(&mut self, batch: &ImportBatch, failures: usize) -> (r: Result<
        ImportProgress,
        CompressorError,
    >)
        requires
            old(self).wf(),
            old(self).phase_position() < 4,
            batch.phase == phase_at(old(self).phase_position()),
            batch.start == old(self).imported(),
            batch.start <= batch.end <= old(self).total(old(self).phase_position()),
        ensures
            final(self).wf(),
            forall|i: int| 0 <= i < 4 ==> #[trigger] final(self).total(i) == old(self).total(i),
            final(self).phase_position() == old(self).phase_position(),
            failures > 0 ==> {
                &&& final(self).imported() == old(self).imported()
                &&& r == Err::<ImportProgress, CompressorError>(
                    if old(self).phase_position() < 2 {
                        CompressorError::AccountCreationFailed(failures)
                    } else {
                        CompressorError::TransferCreationFailed(failures)
                    },
                )
            },
            failures == 0 ==> {
                &&& final(self).imported() == batch.end
                &&& r matches Ok(p) && p.phase@ == spec_phase_name(batch.phase) && p.imported
                    == batch.end && p.total == old(self).total(old(self).phase_position())
            },
    {
        if failures > 0 {
            if self.phase < 2 {
                return Err(CompressorError::AccountCreationFailed(failures));
            }
            return Err(CompressorError::TransferCreationFailed(failures));
        }
        self.done = batch.end;
        let total = self.totals[self.phase];
        Ok(ImportProgress { phase: batch.phase.name(), imported: batch.end as u64, total: total as u64 })
    }
}

/// The batches `[start, end)` that import records `from .. total` of one
/// phase when none is refused: each starts where the last ended, at most
/// [`BATCH_SIZE`] long ([`ImportRun::next_batch`] hands out the first,
/// [`ImportRun::on_result`] moves to the next).
pub open spec fn phase_batches(total: nat, from: nat) -> Seq<(nat, nat)>
    decreases total - from,
{
    if from >= total {
        Seq::empty()
    } else {
        let end: nat = if from + BATCH_SIZE < total { (from + BATCH_SIZE) as nat } else { total };
        seq![(from, end)] + phase_batches(total, end)
    }
}

/// The batches of a phase import each of its records exactly once, in
/// order: they start at the first record, end at the last, follow each
/// other without gap or overlap, and each holds 1 to [`BATCH_SIZE`]
/// records.
pub proof fn law_batches_cover_phase(total: nat, from: nat)
    requires
        from <= total,
    ensures
        ({
            let b = phase_batches(total, from);
            &&& (from < total) == (b.len() > 0)
            &&& b.len() > 0 ==> b[0].0 == from && b.last().1 == total
            &&& forall|k: int| 0 <= k < b.len() ==> #[trigger] b[k].0 < b[k].1 <= b[k].0 + BATCH_SIZE
            &&& forall|k: int| 0 <= k < b.len() - 1 ==> #[trigger] b[k].1 == b[k + 1].0
        }),
    decreases total - from,
{
    if from < total {
        let end: nat = if from + BATCH_SIZE < total { (from + BATCH_SIZE) as nat } else { total };
        law_batches_cover_phase(total, end);
        let rest = phase_batches(total, end);
        let b = phase_batches(total, from);
        assert(b == seq![(from, end)] + rest);
        assert forall|k: int| 0 <= k < b.len() implies #[trigger] b[k].0 < b[k].1 <= b[k].0 + BATCH_SIZE by {
            if k > 0 {
                assert(b[k] == rest[k - 1]);
            }
        }
        assert forall|k: int| 0 <= k < b.len() - 1 implies #[trigger] b[k].1 == b[k + 1].0 by {
            assert(b[k + 1] == rest[k]);
            if k > 0 {
                assert(b[k] == rest[k - 1]);
            }
        }
        if rest.len() > 0 {
            assert(b.last() == rest.last());
        }
    }
}


/// The account record an import sends keeps the account's identity and
/// classification (id, ledger, code, user data) and starts with zero
/// balances, which the synthetic transfers then rebuild; its timestamp is
/// kept exactly when importing with timestamps.
pub proof fn law_imported_account(acc: Account, imported: bool)
    ensures
        ({
            let r = spec_convert_account(acc, imported);
            &&& r.id == acc.id && r.ledger == acc.ledger && r.code == acc.code
            &&& r.user_data_128 == acc.user_data_128 && r.user_data_64 == acc.user_data_64
                && r.user_data_32 == acc.user_data_32
            &&& r.debits_pending == 0 && r.debits_posted == 0 && r.credits_pending == 0 && r.credits_posted == 0
            &&& r.timestamp == (if imported { acc.timestamp } else { 0 })
        }),
{
}


/// A replayed windowed transfer is sent as it was recorded: every field but
/// its flags is kept, and its flags gain `imported`.
pub proof fn law_replayed_transfer(t: Transfer)
    ensures
        ({
            let r = spec_convert_windowed_transfer(t);
            &&& r.id == t.id && r.debit_account_id == t.debit_account_id && r.credit_account_id
                == t.credit_account_id && r.amount == t.amount
            &&& r.pending_id == t.pending_id && r.user_data_128 == t.user_data_128 && r.user_data_64
                == t.user_data_64 && r.user_data_32 == t.user_data_32 && r.timeout == t.timeout
            &&& r.ledger == t.ledger && r.code == t.code && r.timestamp == t.timestamp
        }),
{
}

} // verus!
