//! Balance-snapshot migration planning: genesis accounts, re-timestamped
//! regular accounts and the synthetic transfers that rebuild posted balances.

use vstd::prelude::*;
use std::collections::HashMap;
use crate::sort::{Key3, key_leq, sort_keys, lemma_key_leq_total};
use crate::types::{Account, AccountFlags, Transfer};

verus! {

/// A group of accounts within a single ledger.
#[derive(Debug, Clone)]
pub struct AccountGroup {
    /// Ledger identifier.
    pub ledger: u32,
    /// All accounts in this ledger.
    pub accounts: Vec<Account>,
    /// Genesis credit account ID: the debit counterparty for credit-side transfers.
    pub genesis_credit_id: u128,
    /// Genesis debit account ID: the credit counterparty for debit-side transfers.
    pub genesis_debit_id: u128,
}

/// A synthetic transfer that reconstructs an account's balance.
#[derive(Debug, Clone, Copy, PartialEq, Eq)]
pub struct SyntheticTransfer {
    /// Unique transfer ID.
    pub id: u128,
    /// Debit account ID.
    pub debit_account_id: u128,
    /// Credit account ID.
    pub credit_account_id: u128,
    /// Amount.
    pub amount: u128,
    /// Ledger.
    pub ledger: u32,
    /// Transfer code (inherited from the account code).
    pub code: u16,
    /// Import timestamp.
    pub timestamp: u64,
}

/// The complete migration plan: genesis accounts and synthetic transfers.
#[derive(Debug, Clone)]
pub struct BalancePlan {
    /// Genesis accounts, two per ledger in ascending ledger order: the credit
    /// genesis then the debit genesis.
    pub genesis_accounts: Vec<Account>,
    /// All regular accounts to import, with their IDs and flags unchanged.
    pub regular_accounts: Vec<Account>,
    /// Synthetic transfers that reconstruct balances.
    pub synthetic_transfers: Vec<SyntheticTransfer>,
    /// Transfers of the window `[cutoff_ts, now]`, replayed verbatim.
    pub windowed_transfers: Vec<Transfer>,
}

// ---------------------------------------------------------------------------
// Specification
// ---------------------------------------------------------------------------

/// ID of the genesis account that debits the credit side of `ledger`.
pub open spec fn genesis_credit_id(ledger: u32) -> u128 {
    (u128::MAX - 2 * ledger) as u128
}

/// ID of the genesis account that is credited by the debit side of `ledger`.
pub open spec fn genesis_debit_id(ledger: u32) -> u128 {
    (u128::MAX - 2 * ledger - 1) as u128
}

/// One sort key per account: its ledger.
pub open spec fn ledger_keys(a: Seq<Account>) -> Seq<Key3> {
    Seq::new(a.len(), |i: int| (a[i].ledger as u64, 0u64, 0u64))
}

/// The first components of a sorted key sequence, adjacent repeats dropped.
pub open spec fn distinct_firsts(s: Seq<Key3>) -> Seq<u32>
    decreases s.len(),
{
    if s.len() == 0 {
        Seq::empty()
    } else {
        let prev = distinct_firsts(s.drop_last());
        if s.len() >= 2 && s[s.len() - 2].0 == s.last().0 {
            prev
        } else {
            prev.push(s.last().0 as u32)
        }
    }
}

/// The distinct ledgers of `a`, in ascending order.
pub open spec fn plan_ledgers(a: Seq<Account>) -> Seq<u32> {
    distinct_firsts(ledger_keys(a).sort_by(key_leq()))
}

/// A genesis account: zero balances, code 1, no flags.
pub open spec fn genesis_account(id: u128, ledger: u32, timestamp: u64) -> Account {
    Account {
        id,
        debits_pending: 0,
        debits_posted: 0,
        credits_pending: 0,
        credits_posted: 0,
        user_data_128: 0,
        user_data_64: 0,
        user_data_32: 0,
        reserved: 0,
        ledger,
        code: 1,
        flags: AccountFlags(0),
        timestamp,
    }
}

/// Two genesis accounts per ledger of `ls`: for the ledger at position `i`,
/// the credit genesis with timestamp `2i + 1`, then the debit genesis with
/// timestamp `2i + 2`.
pub open spec fn genesis_accounts_for(ls: Seq<u32>) -> Seq<Account> {
    Seq::new(
        2 * ls.len(),
        |k: int|
            if k % 2 == 0 {
                genesis_account(genesis_credit_id(ls[k / 2]), ls[k / 2], (k + 1) as u64)
            } else {
                genesis_account(genesis_debit_id(ls[k / 2]), ls[k / 2], (k + 1) as u64)
            },
    )
}


/// One sort key per account: timestamp, ledger, then position.
pub open spec fn account_keys(a: Seq<Account>) -> Seq<Key3> {
    Seq::new(a.len(), |i: int| (a[i].timestamp, a[i].ledger as u64, i as u64))
}

/// The accounts of `a` sorted by timestamp, ties broken by ledger and then by
/// position in `a` (a stable sort by `(timestamp, ledger)`).
pub open spec fn ordered_accounts(a: Seq<Account>) -> Seq<Account> {
    let ks = account_keys(a).sort_by(key_leq());
    Seq::new(ks.len(), |k: int| a[ks[k].2 as int])
}

/// The timestamps of `r`.
pub open spec fn timestamps_of(r: Seq<Account>) -> Seq<u64> {
    r.map_values(|x: Account| x.timestamp)
}

/// The `k`-th timestamp of `ts` after raising it, where needed, to one past
/// its predecessor (or to `floor + 1` for the first).
pub open spec fn dedup_at(ts: Seq<u64>, floor: int, k: nat) -> int
    decreases k,
{
    let prev = if k == 0 {
        floor
    } else {
        dedup_at(ts, floor, (k - 1) as nat)
    };
    if ts[k as int] as int <= prev {
        prev + 1
    } else {
        ts[k as int] as int
    }
}

/// `x` with its timestamp replaced by `timestamp`.
pub open spec fn with_timestamp(x: Account, timestamp: u64) -> Account {
    Account {
        id: x.id,
        debits_pending: x.debits_pending,
        debits_posted: x.debits_posted,
        credits_pending: x.credits_pending,
        credits_posted: x.credits_posted,
        user_data_128: x.user_data_128,
        user_data_64: x.user_data_64,
        user_data_32: x.user_data_32,
        reserved: x.reserved,
        ledger: x.ledger,
        code: x.code,
        flags: x.flags,
        timestamp,
    }
}

/// The regular accounts of the plan for `a`: ordered, then re-timestamped so
/// that timestamps strictly increase and all exceed the genesis timestamps.
pub open spec fn regular_accounts_for(a: Seq<Account>) -> Seq<Account> {
    let o = ordered_accounts(a);
    let floor = 2 * plan_ledgers(a).len() as int;
    Seq::new(
        o.len(),
        |k: int| with_timestamp(o[k], dedup_at(timestamps_of(o), floor, k as nat) as u64),
    )
}

/// Whether every re-timestamped regular account timestamp fits in a `u64`.
pub open spec fn regular_fits(a: Seq<Account>) -> bool {
    let o = ordered_accounts(a);
    o.len() == 0 || dedup_at(timestamps_of(o), 2 * plan_ledgers(a).len() as int, (o.len() - 1) as nat)
        <= u64::MAX
}

pub proof fn lemma_dedup_increasing(ts: Seq<u64>, floor: int, j: nat, k: nat)
    requires
        j < k,
    ensures
        dedup_at(ts, floor, j) < dedup_at(ts, floor, k),
        dedup_at(ts, floor, k) >= floor + k + 1,
    decreases k,
{
    if j + 1 < k {
        lemma_dedup_increasing(ts, floor, j, (k - 1) as nat);
    }
    lemma_dedup_floor(ts, floor, k);
}

pub proof fn lemma_dedup_floor(ts: Seq<u64>, floor: int, k: nat)
    ensures
        dedup_at(ts, floor, k) >= floor + k + 1,
    decreases k,
{
    if k > 0 {
        lemma_dedup_floor(ts, floor, (k - 1) as nat);
    }
}

/// The credit-side transfer of `x`: genesis credit account to `x`, amount
/// `credits_posted`, for the `(n + 1)`-th synthetic transfer.
pub open spec fn credit_side(x: Account, n: int, floor: int) -> SyntheticTransfer {
    SyntheticTransfer {
        id: (n + 1) as u128,
        debit_account_id: genesis_credit_id(x.ledger),
        credit_account_id: x.id,
        amount: x.credits_posted,
        ledger: x.ledger,
        code: x.code,
        timestamp: (floor + n + 1) as u64,
    }
}

/// The debit-side transfer of `x`: `x` to the genesis debit account, amount
/// `debits_posted`, for the `(n + 1)`-th synthetic transfer.
pub open spec fn debit_side(x: Account, n: int, floor: int) -> SyntheticTransfer {
    SyntheticTransfer {
        id: (n + 1) as u128,
        debit_account_id: x.id,
        credit_account_id: genesis_debit_id(x.ledger),
        amount: x.debits_posted,
        ledger: x.ledger,
        code: x.code,
        timestamp: (floor + n + 1) as u64,
    }
}

/// The synthetic transfers of one account, `n` transfers having come before:
/// the credit side when `credits_posted > 0`, then the debit side when
/// `debits_posted > 0`.
pub open spec fn transfers_for(x: Account, n: int, floor: int) -> Seq<SyntheticTransfer> {
    if x.credits_posted > 0 {
        if x.debits_posted > 0 {
            seq![credit_side(x, n, floor), debit_side(x, n + 1, floor)]
        } else {
            seq![credit_side(x, n, floor)]
        }
    } else if x.debits_posted > 0 {
        seq![debit_side(x, n, floor)]
    } else {
        Seq::empty()
    }
}

/// The synthetic transfers for the accounts `r`, numbered from 1 and
/// timestamped `floor + 1, floor + 2, ...`.
pub open spec fn synthetic_transfers_for(r: Seq<Account>, floor: int) -> Seq<SyntheticTransfer>
    decreases r.len(),
{
    if r.len() == 0 {
        Seq::empty()
    } else {
        let p = synthetic_transfers_for(r.drop_last(), floor);
        p + transfers_for(r.last(), p.len() as int, floor)
    }
}

/// Whether an account has a non-zero posted balance.
pub open spec fn is_active(x: Account) -> bool {
    x.credits_posted > 0 || x.debits_posted > 0
}

/// The largest timestamp among the accounts of `r` with a non-zero posted
/// balance, if any.
pub open spec fn max_active_timestamp(r: Seq<Account>) -> Option<u64>
    decreases r.len(),
{
    if r.len() == 0 {
        None
    } else {
        let m = max_active_timestamp(r.drop_last());
        if is_active(r.last()) {
            match m {
                Some(t) => if t >= r.last().timestamp {
                    Some(t)
                } else {
                    Some(r.last().timestamp)
                },
                None => Some(r.last().timestamp),
            }
        } else {
            m
        }
    }
}

/// The timestamp after which synthetic transfers are numbered: in windowed
/// mode the largest timestamp of an account with a balance, otherwise the
/// last regular account's timestamp (`genesis_max` when there is none).
pub open spec fn transfer_floor(r: Seq<Account>, genesis_max: int, windowed: bool) -> int {
    if windowed {
        match max_active_timestamp(r) {
            Some(t) => t as int,
            None => genesis_max,
        }
    } else if r.len() == 0 {
        genesis_max
    } else {
        r.last().timestamp as int
    }
}

/// The floor of the synthetic transfer timestamps of the plan for `a`.
pub open spec fn plan_transfer_floor(a: Seq<Account>, windowed: bool) -> int {
    transfer_floor(regular_accounts_for(a), 2 * plan_ledgers(a).len() as int, windowed)
}

/// The synthetic transfers of the plan for `a`.
pub open spec fn plan_synthetic_transfers(a: Seq<Account>, windowed: bool) -> Seq<SyntheticTransfer> {
    synthetic_transfers_for(regular_accounts_for(a), plan_transfer_floor(a, windowed))
}

/// Whether every timestamp the plan for `a` assigns fits in a `u64`.
pub open spec fn snapshot_fits(a: Seq<Account>, windowed: bool) -> bool {
    &&& regular_fits(a)
    &&& plan_transfer_floor(a, windowed) + plan_synthetic_transfers(a, windowed).len() <= u64::MAX
}

pub proof fn lemma_synthetic_prefix_len(r: Seq<Account>, floor: int, k: int)
    requires
        0 <= k <= r.len(),
    ensures
        synthetic_transfers_for(r.take(k), floor).len() <= synthetic_transfers_for(r, floor).len(),
    decreases r.len(),
{
    if k < r.len() {
        assert(r.drop_last().take(k) =~= r.take(k));
        lemma_synthetic_prefix_len(r.drop_last(), floor, k);
    } else {
        assert(r.take(k) =~= r);
    }
}

/// Sum of the amounts of the transfers of `wt` that debit `id`.
pub open spec fn debit_total(wt: Seq<Transfer>, id: u128) -> int
    decreases wt.len(),
{
    if wt.len() == 0 {
        0
    } else {
        debit_total(wt.drop_last(), id) + if wt.last().debit_account_id == id {
            wt.last().amount as int
        } else {
            0
        }
    }
}

/// Sum of the amounts of the transfers of `wt` that credit `id`.
pub open spec fn credit_total(wt: Seq<Transfer>, id: u128) -> int
    decreases wt.len(),
{
    if wt.len() == 0 {
        0
    } else {
        credit_total(wt.drop_last(), id) + if wt.last().credit_account_id == id {
            wt.last().amount as int
        } else {
            0
        }
    }
}

/// Whether every per-account sum of windowed amounts fits in a `u128`.
pub open spec fn window_totals_fit(wt: Seq<Transfer>) -> bool {
    forall|id: u128| debit_total(wt, id) <= u128::MAX && credit_total(wt, id) <= u128::MAX
}

/// `x - y`, or 0 when `y > x`.
pub open spec fn minus_or_zero(x: u128, y: int) -> u128 {
    if y <= x {
        (x - y) as u128
    } else {
        0
    }
}

/// `x` with its posted balances replaced.
pub open spec fn with_posted(x: Account, debits_posted: u128, credits_posted: u128) -> Account {
    Account {
        id: x.id,
        debits_pending: x.debits_pending,
        debits_posted,
        credits_pending: x.credits_pending,
        credits_posted,
        user_data_128: x.user_data_128,
        user_data_64: x.user_data_64,
        user_data_32: x.user_data_32,
        reserved: x.reserved,
        ledger: x.ledger,
        code: x.code,
        flags: x.flags,
        timestamp: x.timestamp,
    }
}

/// The balances of `x` at `cutoff`: zero for an account created at or after
/// the cutoff, otherwise the final balances minus the window's movements
/// (floored at zero).
pub open spec fn adjusted_account(x: Account, wt: Seq<Transfer>, cutoff: u64) -> Account {
    if x.timestamp >= cutoff {
        with_posted(x, 0, 0)
    } else {
        with_posted(
            x,
            minus_or_zero(x.debits_posted, debit_total(wt, x.id)),
            minus_or_zero(x.credits_posted, credit_total(wt, x.id)),
        )
    }
}

/// Every account of `a` adjusted to its balances at `cutoff`.
pub open spec fn adjusted_accounts(a: Seq<Account>, wt: Seq<Transfer>, cutoff: u64) -> Seq<Account> {
    Seq::new(a.len(), |i: int| adjusted_account(a[i], wt, cutoff))
}

proof fn lemma_totals_prefix(wt: Seq<Transfer>, k: int, id: u128)
    requires
        0 <= k <= wt.len(),
    ensures
        0 <= debit_total(wt.take(k), id) <= debit_total(wt, id),
        0 <= credit_total(wt.take(k), id) <= credit_total(wt, id),
    decreases wt.len(),
{
    if k < wt.len() {
        assert(wt.drop_last().take(k) =~= wt.take(k));
        lemma_totals_prefix(wt.drop_last(), k, id);
    } else {
        assert(wt.take(k) =~= wt);
        lemma_totals_nonneg(wt, id);
    }
}

/// Window totals are sums of amounts, hence not negative.
pub proof fn lemma_totals_nonneg(wt: Seq<Transfer>, id: u128)
    ensures
        0 <= debit_total(wt, id),
        0 <= credit_total(wt, id),
    decreases wt.len(),
{
    if wt.len() > 0 {
        lemma_totals_nonneg(wt.drop_last(), id);
    }
}

// ---------------------------------------------------------------------------
// Ledgers and genesis accounts
// ---------------------------------------------------------------------------

/// Sort `keys` and show that the result is the specification's sorted order.
fn sort_as_spec(keys: Vec<Key3>) -> (out: Vec<Key3>)
    ensures
        out@ == keys@.sort_by(key_leq()),
{
    let out = sort_keys(keys);
    proof {
        lemma_key_leq_total();
        keys@.lemma_sort_by_ensures(key_leq());
        vstd::seq_lib::lemma_sorted_unique(out@, keys@.sort_by(key_leq()), key_leq());
    }
    out
}

/// The distinct ledgers of `accounts`, in ascending order.
pub(crate) fn sorted_ledgers(accounts: &Vec<Account>) -> (ls: Vec<u32>)
    ensures
        ls@ == plan_ledgers(accounts@),
{
    let n = accounts.len();
    let mut keys: Vec<Key3> = Vec::new();
    for i in 0..n
        invariant
            n == accounts@.len(),
            keys@ =~= ledger_keys(accounts@).take(i as int),
    {
        keys.push((accounts[i].ledger as u64, 0u64, 0u64));
    }
    assert(keys@ =~= ledger_keys(accounts@));
    let sorted = sort_as_spec(keys);
    let m = sorted.len();
    let mut ls: Vec<u32> = Vec::new();
    assert(sorted@.take(0) =~= Seq::<Key3>::empty());
    for i in 0..m
        invariant
            m == sorted@.len(),
            ls@ == distinct_firsts(sorted@.take(i as int)),
    {
        proof {
            assert(sorted@.take(i + 1).drop_last() =~= sorted@.take(i as int));
        }
        if i == 0 || sorted[i - 1].0 != sorted[i].0 {
            ls.push(sorted[i].0 as u32);
        }
    }
    assert(sorted@.take(m as int) =~= sorted@);
    ls
}

/// The genesis accounts for the ledgers `ls`.
fn build_genesis_accounts(ls: &Vec<u32>) -> (g: Vec<Account>)
    requires
        2 * ls@.len() < u64::MAX,
    ensures
        g@ == genesis_accounts_for(ls@),
{
    let k = ls.len();
    let mut g: Vec<Account> = Vec::new();
    for i in 0..k
        invariant
            k == ls@.len(),
            2 * k < u64::MAX,
            g@.len() == 2 * i,
            forall|j: int| 0 <= j < 2 * i ==> #[trigger] g@[j] == genesis_accounts_for(ls@)[j],
    {
        let ledger = ls[i];
        let base_ts = (i as u64) * 2 + 1;
        let credit_id: u128 = u128::MAX - (ledger as u128) * 2;
        let debit_id: u128 = u128::MAX - (ledger as u128) * 2 - 1;
        g.push(Account {
            id: credit_id,
            debits_pending: 0,
            debits_posted: 0,
            credits_pending: 0,
            credits_posted: 0,
            user_data_128: 0,
            user_data_64: 0,
            user_data_32: 0,
            reserved: 0,
            ledger,
            code: 1,
            flags: AccountFlags(0),
            timestamp: base_ts,
        });
        g.push(Account {
            id: debit_id,
            debits_pending: 0,
            debits_posted: 0,
            credits_pending: 0,
            credits_posted: 0,
            user_data_128: 0,
            user_data_64: 0,
            user_data_32: 0,
            reserved: 0,
            ledger,
            code: 1,
            flags: AccountFlags(0),
            timestamp: base_ts + 1,
        });
        proof {
            assert forall|j: int| 0 <= j < 2 * (i + 1) implies #[trigger] g@[j]
                == genesis_accounts_for(ls@)[j] by {
                if j >= 2 * i {
                    assert(j / 2 == i as int);
                }
            }
        }
    }
    assert(g@ =~= genesis_accounts_for(ls@));
    g
}


/// The regular accounts of the plan: `accounts` in stable `(timestamp,
/// ledger)` order with timestamps raised to strictly increase above
/// `genesis_max_ts`.
fn build_regular_accounts(accounts: &Vec<Account>, genesis_max_ts: u64) -> (r: Vec<Account>)
    requires
        genesis_max_ts == 2 * plan_ledgers(accounts@).len(),
        regular_fits(accounts@),
    ensures
        r@ == regular_accounts_for(accounts@),
{
    let n = accounts.len();
    let mut keys: Vec<Key3> = Vec::new();
    for i in 0..n
        invariant
            n == accounts@.len(),
            keys@ =~= account_keys(accounts@).take(i as int),
    {
        keys.push((accounts[i].timestamp, accounts[i].ledger as u64, i as u64));
    }
    assert(keys@ =~= account_keys(accounts@));
    let ks = sort_as_spec(keys);
    let ghost o = ordered_accounts(accounts@);
    let ghost ts = timestamps_of(o);
    let ghost floor = genesis_max_ts as int;
    proof {
        broadcast use vstd::seq_lib::group_to_multiset_ensures;
        account_keys(accounts@).lemma_sort_by_ensures(key_leq());
        assert(ks@.len() == ks@.to_multiset().len());
        assert(account_keys(accounts@).len() == account_keys(accounts@).to_multiset().len());
    }
    let mut r: Vec<Account> = Vec::new();
    let mut prev_ts: u64 = genesis_max_ts;
    for k in 0..n
        invariant
            n == accounts@.len(),
            ks@ == account_keys(accounts@).sort_by(key_leq()),
            ks@.len() == n,
            forall|x: Key3| !account_keys(accounts@).contains(x) ==> !(#[trigger] ks@.contains(x)),
            o == ordered_accounts(accounts@),
            ts == timestamps_of(o),
            floor == 2 * plan_ledgers(accounts@).len(),
            regular_fits(accounts@),
            r@.len() == k,
            prev_ts == (if k == 0 { floor } else { dedup_at(ts, floor, (k - 1) as nat) }),
            forall|j: int| 0 <= j < k ==> #[trigger] r@[j] == regular_accounts_for(accounts@)[j],
    {
        let key = ks[k];
        proof {
            assert(ks@.contains(key));
            let i = choose|i: int| 0 <= i < n && account_keys(accounts@)[i] == key;
            assert(key.2 < n);
        }
        let idx = key.2 as usize;
        let mut acc = accounts[idx];
        proof {
            assert(o[k as int] == accounts@[idx as int]);
            assert(ts[k as int] == acc.timestamp);
            if k + 1 < n {
                lemma_dedup_increasing(ts, floor, k as nat, (n - 1) as nat);
            }
        }
        if acc.timestamp <= prev_ts {
            acc.timestamp = prev_ts + 1;
        }
        prev_ts = acc.timestamp;
        r.push(acc);
        proof {
            assert(r@[k as int] == regular_accounts_for(accounts@)[k as int]);
        }
    }
    assert(r@ =~= regular_accounts_for(accounts@));
    r
}


/// The largest timestamp of an account of `r` with a posted balance.
fn max_active_ts(r: &Vec<Account>) -> (m: Option<u64>)
    ensures
        m == max_active_timestamp(r@),
{
    let n = r.len();
    let mut m: Option<u64> = None;
    for k in 0..n
        invariant
            n == r@.len(),
            m == max_active_timestamp(r@.take(k as int)),
    {
        proof {
            assert(r@.take(k + 1).drop_last() =~= r@.take(k as int));
        }
        let acc = &r[k];
        if acc.credits_posted > 0 || acc.debits_posted > 0 {
            m = match m {
                Some(t) => if t >= acc.timestamp {
                    Some(t)
                } else {
                    Some(acc.timestamp)
                },
                None => Some(acc.timestamp),
            };
        }
    }
    assert(r@.take(n as int) =~= r@);
    m
}

/// The synthetic transfers for `r` above `floor`.
fn build_synthetic_transfers(r: &Vec<Account>, floor: u64) -> (t: Vec<SyntheticTransfer>)
    requires
        floor + synthetic_transfers_for(r@, floor as int).len() <= u64::MAX,
    ensures
        t@ == synthetic_transfers_for(r@, floor as int),
{
    let n = r.len();
    let ghost total = synthetic_transfers_for(r@, floor as int).len();
    let mut t: Vec<SyntheticTransfer> = Vec::new();
    let mut transfer_id: u128 = 1;
    let mut transfer_ts: u64 = floor;
    assert(r@.take(0) =~= Seq::<Account>::empty());
    for k in 0..n
        invariant
            n == r@.len(),
            total == synthetic_transfers_for(r@, floor as int).len(),
            floor + total <= u64::MAX,
            t@ == synthetic_transfers_for(r@.take(k as int), floor as int),
            transfer_id == t@.len() + 1,
            transfer_ts == floor + t@.len(),
    {
        proof {
            assert(r@.take(k + 1).drop_last() =~= r@.take(k as int));
            lemma_synthetic_prefix_len(r@, floor as int, k + 1);
        }
        let ghost before = t@;
        let acc = &r[k];
        if acc.credits_posted > 0 {
            transfer_ts = transfer_ts + 1;
            t.push(SyntheticTransfer {
                id: transfer_id,
                debit_account_id: u128::MAX - (acc.ledger as u128) * 2,
                credit_account_id: acc.id,
                amount: acc.credits_posted,
                ledger: acc.ledger,
                code: acc.code,
                timestamp: transfer_ts,
            });
            transfer_id = transfer_id + 1;
        }
        if acc.debits_posted > 0 {
            transfer_ts = transfer_ts + 1;
            t.push(SyntheticTransfer {
                id: transfer_id,
                debit_account_id: acc.id,
                credit_account_id: u128::MAX - (acc.ledger as u128) * 2 - 1,
                amount: acc.debits_posted,
                ledger: acc.ledger,
                code: acc.code,
                timestamp: transfer_ts,
            });
            transfer_id = transfer_id + 1;
        }
        proof {
            assert(t@ =~= before + transfers_for(r@[k as int], before.len() as int, floor as int));
        }
    }
    assert(r@.take(n as int) =~= r@);
    t
}


pub proof fn lemma_distinct_firsts_len(s: Seq<Key3>)
    ensures
        distinct_firsts(s).len() <= s.len(),
    decreases s.len(),
{
    if s.len() > 0 {
        lemma_distinct_firsts_len(s.drop_last());
    }
}

/// The ledger count is bounded by the account count.
proof fn lemma_ledger_count(a: Seq<Account>)
    ensures
        plan_ledgers(a).len() <= a.len(),
{
    broadcast use vstd::seq_lib::group_to_multiset_ensures;

    ledger_keys(a).lemma_sort_by_ensures(key_leq());
    let sorted = ledger_keys(a).sort_by(key_leq());
    assert(sorted.len() == sorted.to_multiset().len());
    assert(ledger_keys(a).len() == ledger_keys(a).to_multiset().len());
    lemma_distinct_firsts_len(sorted);
}

/// When the plan fits, twice the ledger count plus the account count fits.
proof fn lemma_fits_bounds(a: Seq<Account>)
    requires
        regular_fits(a),
    ensures
        2 * plan_ledgers(a).len() + a.len() <= u64::MAX,
{
    broadcast use vstd::seq_lib::group_to_multiset_ensures;

    lemma_ledger_count(a);
    account_keys(a).lemma_sort_by_ensures(key_leq());
    let ks = account_keys(a).sort_by(key_leq());
    assert(ks.len() == ks.to_multiset().len());
    assert(account_keys(a).len() == account_keys(a).to_multiset().len());
    let o = ordered_accounts(a);
    if o.len() > 0 {
        lemma_dedup_floor(timestamps_of(o), 2 * plan_ledgers(a).len() as int, (o.len() - 1) as nat);
    }
}

impl BalancePlan {
    /// Build a pure balance snapshot plan from a list of accounts.
    ///
    /// Groups accounts by ledger, creates two genesis accounts per ledger and
    /// at most two synthetic transfers per account (credit side, then debit
    /// side). `windowed_transfers` is empty. Genesis accounts have timestamps
    /// `1, 2, ..., 2K`; regular accounts are sorted by timestamp and raised
    /// to strictly increase above `2K`; synthetic transfers follow the last
    /// regular account.
    pub fn build(accounts: Vec<Account>) -> (plan: BalancePlan)
        requires
            snapshot_fits(accounts@, false),
        ensures
            plan.genesis_accounts@ == genesis_accounts_for(plan_ledgers(accounts@)),
            plan.regular_accounts@ == regular_accounts_for(accounts@),
            plan.synthetic_transfers@ == plan_synthetic_transfers(accounts@, false),
            plan.windowed_transfers@ == Seq::<Transfer>::empty(),
    {
        Self::build_snapshot_impl(accounts, false)
    }

    /// Build a time-window migration plan.
    ///
    /// Accounts created at or after `cutoff_ts` get zero posted balances;
    /// older accounts get their final balances minus the amounts of the
    /// windowed transfers they took part in (floored at zero). The synthetic
    /// transfers rebuild these balances at the cutoff, following the largest
    /// timestamp of an account with a balance; the windowed transfers are
    /// kept verbatim for replay.
    pub fn build_windowed(
        accounts: Vec<Account>,
        windowed_transfers: Vec<Transfer>,
        cutoff_ts: u64,
    ) -> (plan: BalancePlan)
        requires
            window_totals_fit(windowed_transfers@),
            snapshot_fits(adjusted_accounts(accounts@, windowed_transfers@, cutoff_ts), true),
        ensures
            ({
                let adj = adjusted_accounts(accounts@, windowed_transfers@, cutoff_ts);
                &&& plan.genesis_accounts@ == genesis_accounts_for(plan_ledgers(adj))
                &&& plan.regular_accounts@ == regular_accounts_for(adj)
                &&& plan.synthetic_transfers@ == plan_synthetic_transfers(adj, true)
                &&& plan.windowed_transfers@ == windowed_transfers@
            }),
    {
        let adjusted = adjust_to_cutoff(&accounts, &windowed_transfers, cutoff_ts);
        let mut plan = Self::build_snapshot_impl(adjusted, true);
        plan.windowed_transfers = windowed_transfers;
        plan
    }

    /// Total number of accounts to import (genesis + regular).
    pub fn total_accounts(&self) -> (n: usize)
        requires
            self.genesis_accounts@.len() + self.regular_accounts@.len() <= usize::MAX,
        ensures
            n == self.genesis_accounts@.len() + self.regular_accounts@.len(),
    {
        self.genesis_accounts.len() + self.regular_accounts.len()
    }

    /// Total number of synthetic transfers.
    pub fn total_transfers(&self) -> (n: usize)
        ensures
            n == self.synthetic_transfers@.len(),
    {
        self.synthetic_transfers.len()
    }

    /// Total number of windowed transfers to replay.
    pub fn total_windowed_transfers(&self) -> (n: usize)
        ensures
            n == self.windowed_transfers@.len(),
    {
        self.windowed_transfers.len()
    }

    /// Core snapshot building logic. In windowed mode the synthetic
    /// transfers follow the largest timestamp of an account with a non-zero
    /// balance rather than the last regular account.
    fn build_snapshot_impl(accounts: Vec<Account>, windowed_mode: bool) -> (plan: BalancePlan)
        requires
            snapshot_fits(accounts@, windowed_mode),
        ensures
            plan.genesis_accounts@ == genesis_accounts_for(plan_ledgers(accounts@)),
            plan.regular_accounts@ == regular_accounts_for(accounts@),
            plan.synthetic_transfers@ == plan_synthetic_transfers(accounts@, windowed_mode),
            plan.windowed_transfers@ == Seq::<Transfer>::empty(),
    {
        let ledgers = sorted_ledgers(&accounts);
        proof {
            lemma_fits_bounds(accounts@);
        }
        let genesis_accounts = build_genesis_accounts(&ledgers);
        let genesis_max_ts = genesis_accounts.len() as u64;
        let regular_accounts = build_regular_accounts(&accounts, genesis_max_ts);
        let n = regular_accounts.len();
        let transfer_ts_floor: u64 = if windowed_mode {
            match max_active_ts(&regular_accounts) {
                Some(t) => t,
                None => genesis_max_ts,
            }
        } else if n == 0 {
            genesis_max_ts
        } else {
            regular_accounts[n - 1].timestamp
        };
        let synthetic_transfers = build_synthetic_transfers(&regular_accounts, transfer_ts_floor);
        BalancePlan {
            genesis_accounts,
            regular_accounts,
            synthetic_transfers,
            windowed_transfers: Vec::new(),
        }
    }
}


/// Per-account sums of the windowed amounts on the debit side (`debits`) or
/// the credit side.
fn window_totals(wt: &Vec<Transfer>, debits: bool) -> (m: HashMap<u128, u128>)
    requires
        window_totals_fit(wt@),
    ensures
        forall|id: u128|
            #![trigger m@.contains_key(id)]
            m@.contains_key(id) ==> m@[id] == (if debits {
                debit_total(wt@, id)
            } else {
                credit_total(wt@, id)
            }),
        forall|id: u128|
            #![trigger m@.contains_key(id)]
            !m@.contains_key(id) ==> (if debits {
                debit_total(wt@, id)
            } else {
                credit_total(wt@, id)
            }) == 0,
{
    broadcast use vstd::std_specs::hash::group_hash_axioms;

    let n = wt.len();
    let mut m: HashMap<u128, u128> = HashMap::new();
    assert(wt@.take(0) =~= Seq::<Transfer>::empty());
    for i in 0..n
        invariant
            n == wt@.len(),
            window_totals_fit(wt@),
            forall|id: u128|
                #![trigger m@.contains_key(id)]
                m@.contains_key(id) ==> m@[id] == (if debits {
                    debit_total(wt@.take(i as int), id)
                } else {
                    credit_total(wt@.take(i as int), id)
                }),
            forall|id: u128|
                #![trigger m@.contains_key(id)]
                !m@.contains_key(id) ==> (if debits {
                    debit_total(wt@.take(i as int), id)
                } else {
                    credit_total(wt@.take(i as int), id)
                }) == 0,
    {
        let t = &wt[i];
        let key = if debits { t.debit_account_id } else { t.credit_account_id };
        proof {
            assert(wt@.take(i + 1).drop_last() =~= wt@.take(i as int));
            lemma_totals_prefix(wt@, i + 1, key);
        }
        let cur: u128 = match m.get(&key) {
            Some(v) => *v,
            None => 0,
        };
        m.insert(key, cur + t.amount);
    }
    assert(wt@.take(n as int) =~= wt@);
    m
}

/// The accounts adjusted to their balances at `cutoff_ts`.
fn adjust_to_cutoff(accounts: &Vec<Account>, wt: &Vec<Transfer>, cutoff_ts: u64) -> (adj: Vec<Account>)
    requires
        window_totals_fit(wt@),
    ensures
        adj@ == adjusted_accounts(accounts@, wt@, cutoff_ts),
{
    broadcast use vstd::std_specs::hash::group_hash_axioms;

    let debit_delta = window_totals(wt, true);
    let credit_delta = window_totals(wt, false);
    let n = accounts.len();
    let mut adj: Vec<Account> = Vec::new();
    for i in 0..n
        invariant
            n == accounts@.len(),
            forall|id: u128|
                #![trigger debit_delta@.contains_key(id)]
                debit_delta@.contains_key(id) ==> debit_delta@[id] == debit_total(wt@, id),
            forall|id: u128|
                #![trigger debit_delta@.contains_key(id)]
                !debit_delta@.contains_key(id) ==> debit_total(wt@, id) == 0,
            forall|id: u128|
                #![trigger credit_delta@.contains_key(id)]
                credit_delta@.contains_key(id) ==> credit_delta@[id] == credit_total(wt@, id),
            forall|id: u128|
                #![trigger credit_delta@.contains_key(id)]
                !credit_delta@.contains_key(id) ==> credit_total(wt@, id) == 0,
            adj@ =~= adjusted_accounts(accounts@, wt@, cutoff_ts).take(i as int),
    {
        let mut a = accounts[i];
        if a.timestamp >= cutoff_ts {
            a.debits_posted = 0;
            a.credits_posted = 0;
        } else {
            let dd: u128 = match debit_delta.get(&a.id) {
                Some(v) => *v,
                None => 0,
            };
            let cd: u128 = match credit_delta.get(&a.id) {
                Some(v) => *v,
                None => 0,
            };
            proof {
                assert(debit_delta@.contains_key(a.id) || !debit_delta@.contains_key(a.id));
                assert(credit_delta@.contains_key(a.id) || !credit_delta@.contains_key(a.id));
            }
            a.debits_posted = a.debits_posted.saturating_sub(dd);
            a.credits_posted = a.credits_posted.saturating_sub(cd);
        }
        adj.push(a);
    }
    assert(adj@ =~= adjusted_accounts(accounts@, wt@, cutoff_ts));
    adj
}

} // verus!
