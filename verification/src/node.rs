//! Request handling of a manager node: records as reported, merged reads
//! of checkpointed and journaled records, migration planning summaries,
//! drill-down filters and pages.

use vstd::prelude::*;
use vstd::relations::sorted_by;
use vstd::string::StringExecFns;
use std::collections::HashMap;
use crate::import::ImportProgress;
use crate::manager::{copy_opt, copy_strings, string_views, BackupConfig, ManagerState};
use crate::plan::{
    adjusted_accounts, genesis_accounts_for, plan_ledgers, plan_synthetic_transfers,
    regular_accounts_for, snapshot_fits, sorted_ledgers, window_totals_fit, BalancePlan,
    SyntheticTransfer,
};
use crate::reader::CapacityStats;
use crate::sort::{sort_transfers_by_timestamp, ts_leq};
use crate::text::{
    count_words, decimal, decimal_string, parse_u128, push_decimal, push_signed_decimal,
    spec_parse_u128, trim, trimmed, word_count,
};
use crate::types::{Account, TBObject, Transfer};

verus! {

/// Largest page size a node serves.
pub const MAX_PAGE_LIMIT: u32 = 500;

/// The page size served for a requested `limit`: at most 500, at least 1.
pub open spec fn spec_clamp_limit(limit: u32) -> nat {
    if limit > 500 {
        500
    } else if limit < 1 {
        1
    } else {
        limit as nat
    }
}

/// The page size served for a requested `limit`.
pub fn clamp_limit(limit: u32) -> (n: usize)
    ensures
        n == spec_clamp_limit(limit),
{
    let l = if limit > MAX_PAGE_LIMIT { MAX_PAGE_LIMIT } else { limit };
    let l = if l < 1 { 1 } else { l };
    l as usize
}

/// Items `skip .. skip + take` of `s`, cut at its end.
pub open spec fn page_slice<T>(s: Seq<T>, skip: nat, take: nat) -> Seq<T> {
    let lo = if skip < s.len() { skip } else { s.len() };
    let hi = if skip + take < s.len() { skip + take } else { s.len() };
    s.subrange(lo as int, hi as int)
}

/// An account as a node reports it: 128-bit values in decimal.
#[derive(Debug, Clone, PartialEq, Eq)]
pub struct AccountRecord {
    pub id: String,
    pub debits_pending: String,
    pub debits_posted: String,
    pub credits_pending: String,
    pub credits_posted: String,
    pub user_data_128: String,
    pub user_data_64: u64,
    pub user_data_32: u32,
    pub ledger: u32,
    pub code: u32,
    pub flags: u32,
    pub timestamp: u64,
}

/// Whether `r` reports the account `a`.
pub open spec fn reports_account(r: AccountRecord, a: Account) -> bool {
    &&& r.id@ == decimal(a.id as nat)
    &&& r.debits_pending@ == decimal(a.debits_pending as nat)
    &&& r.debits_posted@ == decimal(a.debits_posted as nat)
    &&& r.credits_pending@ == decimal(a.credits_pending as nat)
    &&& r.credits_posted@ == decimal(a.credits_posted as nat)
    &&& r.user_data_128@ == decimal(a.user_data_128 as nat)
    &&& r.user_data_64 == a.user_data_64
    &&& r.user_data_32 == a.user_data_32
    &&& r.ledger == a.ledger
    &&& r.code == a.code as u32
    &&& r.flags == a.flags.0 as u32
    &&& r.timestamp == a.timestamp
}

/// The report of an account.
pub fn account_to_proto(a: &Account) -> (r: AccountRecord)
    ensures
        reports_account(r, *a),
{
    AccountRecord {
        id: decimal_string(a.id),
        debits_pending: decimal_string(a.debits_pending),
        debits_posted: decimal_string(a.debits_posted),
        credits_pending: decimal_string(a.credits_pending),
        credits_posted: decimal_string(a.credits_posted),
        user_data_128: decimal_string(a.user_data_128),
        user_data_64: a.user_data_64,
        user_data_32: a.user_data_32,
        ledger: a.ledger,
        code: a.code as u32,
        flags: a.flags.raw() as u32,
        timestamp: a.timestamp,
    }
}

/// A transfer as a node reports it: 128-bit values in decimal.
#[derive(Debug, Clone, PartialEq, Eq)]
pub struct TransferRecord {
    pub id: String,
    pub debit_account_id: String,
    pub credit_account_id: String,
    pub amount: String,
    pub pending_id: String,
    pub user_data_128: String,
    pub user_data_64: u64,
    pub user_data_32: u32,
    pub timeout: u32,
    pub ledger: u32,
    pub code: u32,
    pub flags: u32,
    pub timestamp: u64,
}

/// Whether `r` reports the transfer `t`.
pub open spec fn reports_transfer(r: TransferRecord, t: Transfer) -> bool {
    &&& r.id@ == decimal(t.id as nat)
    &&& r.debit_account_id@ == decimal(t.debit_account_id as nat)
    &&& r.credit_account_id@ == decimal(t.credit_account_id as nat)
    &&& r.amount@ == decimal(t.amount as nat)
    &&& r.pending_id@ == decimal(t.pending_id as nat)
    &&& r.user_data_128@ == decimal(t.user_data_128 as nat)
    &&& r.user_data_64 == t.user_data_64
    &&& r.user_data_32 == t.user_data_32
    &&& r.timeout == t.timeout
    &&& r.ledger == t.ledger
    &&& r.code == t.code as u32
    &&& r.flags == t.flags.0 as u32
    &&& r.timestamp == t.timestamp
}

/// The report of a transfer.
pub fn transfer_to_proto(t: &Transfer) -> (r: TransferRecord)
    ensures
        reports_transfer(r, *t),
{
    TransferRecord {
        id: decimal_string(t.id),
        debit_account_id: decimal_string(t.debit_account_id),
        credit_account_id: decimal_string(t.credit_account_id),
        amount: decimal_string(t.amount),
        pending_id: decimal_string(t.pending_id),
        user_data_128: decimal_string(t.user_data_128),
        user_data_64: t.user_data_64,
        user_data_32: t.user_data_32,
        timeout: t.timeout,
        ledger: t.ledger,
        code: t.code as u32,
        flags: t.flags.raw() as u32,
        timestamp: t.timestamp,
    }
}

/// A synthetic transfer as a node reports it.
#[derive(Debug, Clone, PartialEq, Eq)]
pub struct SyntheticTransferRecord {
    pub id: String,
    pub debit_account_id: String,
    pub credit_account_id: String,
    pub amount: String,
    pub ledger: u32,
    pub code: u32,
    pub timestamp: u64,
}

/// Whether `r` reports the synthetic transfer `t`.
pub open spec fn reports_synthetic(r: SyntheticTransferRecord, t: SyntheticTransfer) -> bool {
    &&& r.id@ == decimal(t.id as nat)
    &&& r.debit_account_id@ == decimal(t.debit_account_id as nat)
    &&& r.credit_account_id@ == decimal(t.credit_account_id as nat)
    &&& r.amount@ == decimal(t.amount as nat)
    &&& r.ledger == t.ledger
    &&& r.code == t.code as u32
    &&& r.timestamp == t.timestamp
}

/// The report of a synthetic transfer.
pub fn synthetic_to_record(t: &SyntheticTransfer) -> (r: SyntheticTransferRecord)
    ensures
        reports_synthetic(r, *t),
{
    SyntheticTransferRecord {
        id: decimal_string(t.id),
        debit_account_id: decimal_string(t.debit_account_id),
        credit_account_id: decimal_string(t.credit_account_id),
        amount: decimal_string(t.amount),
        ledger: t.ledger,
        code: t.code as u32,
        timestamp: t.timestamp,
    }
}

/// Filter of a drill-down into the accounts of a migration plan. Each
/// field set must match; an `id` or `user_data_128` that is not a decimal
/// `u128` filters nothing.
#[derive(Debug, Clone)]
pub struct AccountFilter {
    pub id: Option<String>,
    pub ledger: Option<u32>,
    pub code: Option<u32>,
    pub flags: Option<u32>,
    pub user_data_32: Option<u32>,
    pub user_data_64: Option<u64>,
    pub user_data_128: Option<String>,
}

/// The value a decimal text filter asks for, if it asks for one.
pub open spec fn text_filter(f: Option<String>) -> Option<u128> {
    match f {
        Some(s) => spec_parse_u128(s@),
        None => None,
    }
}

/// Whether account `a` passes filter `f`.
pub open spec fn account_matches(a: Account, f: AccountFilter) -> bool {
    &&& (text_filter(f.id) matches Some(v) ==> a.id == v)
    &&& (f.ledger matches Some(l) ==> a.ledger == l)
    &&& (f.code matches Some(c) ==> a.code as u32 == c)
    &&& (f.flags matches Some(fl) ==> a.flags.0 as u32 == fl)
    &&& (f.user_data_32 matches Some(u) ==> a.user_data_32 == u)
    &&& (f.user_data_64 matches Some(u) ==> a.user_data_64 == u)
    &&& (text_filter(f.user_data_128) matches Some(v) ==> a.user_data_128 == v)
}

/// The accounts of `s` that pass the optional filter `f`, in order.
pub open spec fn filter_accounts(s: Seq<Account>, f: Option<AccountFilter>) -> Seq<Account>
    decreases s.len(),
{
    if s.len() == 0 {
        Seq::empty()
    } else {
        let prev = filter_accounts(s.drop_last(), f);
        if f matches Some(ff) && !account_matches(s.last(), ff) {
            prev
        } else {
            prev.push(s.last())
        }
    }
}

fn parse_text_filter(f: &Option<String>) -> (r: Option<u128>)
    ensures
        r == text_filter(*f),
{
    match f {
        Some(s) => parse_u128(s.as_str()),
        None => None,
    }
}

fn opt_eq_u32(f: Option<u32>, v: u32) -> (b: bool)
    ensures
        b == (f matches Some(x) ==> v == x),
{
    match f {
        Some(x) => v == x,
        None => true,
    }
}

/// One page of the accounts of a migration plan that pass `filter`, and
/// how many pass in all.
pub fn migration_accounts_page(
    accounts: &Vec<Account>,
    filter: &Option<AccountFilter>,
    page: u32,
    limit: u32,
) -> (r: (Vec<AccountRecord>, u64))
    requires
        page * spec_clamp_limit(limit) <= usize::MAX,
    ensures
        ({
            let matched = filter_accounts(accounts@, *filter);
            let shown = page_slice(matched, (page * spec_clamp_limit(limit)) as nat, spec_clamp_limit(limit));
            &&& r.1 == matched.len()
            &&& r.0@.len() == shown.len()
            &&& forall|i: int| 0 <= i < shown.len() ==> reports_account(#[trigger] r.0@[i], shown[i])
        }),
{
    let lim = clamp_limit(limit);
    let (id_v, ud128_v) = match filter {
        Some(f) => (parse_text_filter(&f.id), parse_text_filter(&f.user_data_128)),
        None => (None, None),
    };
    let mut matched: Vec<Account> = Vec::new();
    for i in 0..accounts.len()
        invariant
            matched@ == filter_accounts(accounts@.take(i as int), *filter),
            filter matches Some(f) ==> id_v == text_filter(f.id) && ud128_v == text_filter(
                f.user_data_128,
            ),
    {
        let a = accounts[i];
        proof {
            assert(accounts@.take(i + 1).drop_last() =~= accounts@.take(i as int));
        }
        let keep = match filter {
            Some(f) => {
                (match id_v {
                    Some(v) => a.id == v,
                    None => true,
                }) && opt_eq_u32(f.ledger, a.ledger) && opt_eq_u32(f.code, a.code as u32)
                    && opt_eq_u32(f.flags, a.flags.raw() as u32) && opt_eq_u32(
                    f.user_data_32,
                    a.user_data_32,
                ) && (match f.user_data_64 {
                    Some(u) => a.user_data_64 == u,
                    None => true,
                }) && (match ud128_v {
                    Some(v) => a.user_data_128 == v,
                    None => true,
                })
            },
            None => true,
        };
        if keep {
            matched.push(a);
        }
    }
    assert(accounts@.take(accounts@.len() as int) =~= accounts@);
    let total = matched.len() as u64;
    let skip = page as usize * lim;
    let n = matched.len();
    let lo = if skip < n { skip } else { n };
    let hi = if skip < n && n - skip > lim { skip + lim } else { n };
    let mut out: Vec<AccountRecord> = Vec::new();
    for k in lo..hi
        invariant
            lo <= hi <= n,
            n == matched@.len(),
            out@.len() == k - lo,
            forall|j: int| 0 <= j < k - lo ==> reports_account(#[trigger] out@[j], matched@[lo + j]),
    {
        out.push(account_to_proto(&matched[k]));
    }
    (out, total)
}

/// The synthetic transfers of `s` on the ledger `ledger` asks for (all
/// when `None`), in order.
pub open spec fn filter_synthetic(s: Seq<SyntheticTransfer>, ledger: Option<u32>) -> Seq<
    SyntheticTransfer,
>
    decreases s.len(),
{
    if s.len() == 0 {
        Seq::empty()
    } else {
        let prev = filter_synthetic(s.drop_last(), ledger);
        if ledger matches Some(l) && s.last().ledger != l {
            prev
        } else {
            prev.push(s.last())
        }
    }
}

/// One page of the synthetic transfers of a migration plan on `ledger`
/// (all ledgers when `None`), and how many there are in all.
pub fn migration_synthetic_page(
    transfers: &Vec<SyntheticTransfer>,
    ledger: Option<u32>,
    page: u32,
    limit: u32,
) -> (r: (Vec<SyntheticTransferRecord>, u64))
    requires
        page * spec_clamp_limit(limit) <= usize::MAX,
    ensures
        ({
            let matched = filter_synthetic(transfers@, ledger);
            let shown = page_slice(matched, (page * spec_clamp_limit(limit)) as nat, spec_clamp_limit(limit));
            &&& r.1 == matched.len()
            &&& r.0@.len() == shown.len()
            &&& forall|i: int|
                0 <= i < shown.len() ==> reports_synthetic(#[trigger] r.0@[i], shown[i])
        }),
{
    let lim = clamp_limit(limit);
    let mut matched: Vec<SyntheticTransfer> = Vec::new();
    for i in 0..transfers.len()
        invariant
            matched@ == filter_synthetic(transfers@.take(i as int), ledger),
    {
        let t = transfers[i];
        proof {
            assert(transfers@.take(i + 1).drop_last() =~= transfers@.take(i as int));
        }
        if opt_eq_u32(ledger, t.ledger) {
            matched.push(t);
        }
    }
    assert(transfers@.take(transfers@.len() as int) =~= transfers@);
    let total = matched.len() as u64;
    let skip = page as usize * lim;
    let n = matched.len();
    let lo = if skip < n { skip } else { n };
    let hi = if skip < n && n - skip > lim { skip + lim } else { n };
    let mut out: Vec<SyntheticTransferRecord> = Vec::new();
    for k in lo..hi
        invariant
            lo <= hi <= n,
            n == matched@.len(),
            out@.len() == k - lo,
            forall|j: int|
                0 <= j < k - lo ==> reports_synthetic(#[trigger] out@[j], matched@[lo + j]),
    {
        out.push(synthetic_to_record(&matched[k]));
    }
    (out, total)
}

/// The last record of `s` for each identifier.
pub open spec fn latest_by_id<T: TBObject>(s: Seq<T>) -> Map<u128, T>
    decreases s.len(),
{
    if s.len() == 0 {
        Map::empty()
    } else {
        latest_by_id(s.drop_last()).insert(s.last().spec_id(), s.last())
    }
}

/// Whether `out` holds exactly one record for each identifier of `m`: the
/// record `m` maps it to.
pub open spec fn one_per_id<T: TBObject>(out: Seq<T>, m: Map<u128, T>) -> bool {
    &&& forall|i: int, j: int|
        0 <= i < j < out.len() ==> #[trigger] out[i].spec_id() != #[trigger] out[j].spec_id()
    &&& forall|i: int|
        0 <= i < out.len() ==> m.contains_key(#[trigger] out[i].spec_id()) && m[out[i].spec_id()]
            == out[i]
    &&& forall|id: u128|
        #[trigger] m.contains_key(id) ==> exists|i: int| 0 <= i < out.len() && out[i].spec_id() == id
}

/// The records of `s`, the last one for each identifier, in order of first
/// appearance.
fn collect_latest<T: TBObject + Copy>(s: &Vec<T>) -> (out: Vec<T>)
    ensures
        one_per_id(out@, latest_by_id(s@)),
{
    broadcast use vstd::std_specs::hash::group_hash_axioms;

    let mut pos: HashMap<u128, usize> = HashMap::new();
    let mut out: Vec<T> = Vec::new();
    let n = s.len();
    for i in 0..n
        invariant
            n == s@.len(),
            forall|id: u128|
                #[trigger] pos@.contains_key(id) <==> latest_by_id(s@.take(i as int)).contains_key(
                    id,
                ),
            forall|id: u128|
                #[trigger] pos@.contains_key(id) ==> pos@[id] < out@.len() && out@[pos@[id] as int]
                    == latest_by_id(s@.take(i as int))[id],
            forall|k: int|
                0 <= k < out@.len() ==> pos@.contains_key(#[trigger] out@[k].spec_id())
                    && pos@[out@[k].spec_id()] == k,
    {
        let x = s[i];
        let id = x.id_of();
        proof {
            assert(s@.take(i + 1).drop_last() =~= s@.take(i as int));
            lemma_latest_key(s@.take(i as int));
        }
        match pos.get(&id) {
            Some(k) => {
                let k = *k;
                out.set(k, x);
            },
            None => {
                pos.insert(id, out.len());
                out.push(x);
            },
        }
    }
    assert(s@.take(n as int) =~= s@);
    proof {
        let m = latest_by_id(s@);
        assert forall|a: int, b: int| 0 <= a < b < out@.len() implies #[trigger] out@[a].spec_id()
            != #[trigger] out@[b].spec_id() by {
            assert(pos@[out@[a].spec_id()] == a);
            assert(pos@[out@[b].spec_id()] == b);
        }
        assert forall|id: u128| #[trigger] m.contains_key(id) implies exists|k: int|
            0 <= k < out@.len() && out@[k].spec_id() == id by {
            assert(pos@.contains_key(id));
            let k = pos@[id] as int;
            lemma_latest_key(s@);
            assert(out@[k].spec_id() == id);
        }
        assert forall|k: int| 0 <= k < out@.len() implies m.contains_key(
            #[trigger] out@[k].spec_id(),
        ) && m[out@[k].spec_id()] == out@[k] by {
            assert(pos@.contains_key(out@[k].spec_id()));
        }
    }
    out
}

/// A record that `latest_by_id` keeps under an identifier has that
/// identifier.
proof fn lemma_latest_key<T: TBObject>(s: Seq<T>)
    ensures
        forall|id: u128|
            #[trigger] latest_by_id(s).contains_key(id) ==> latest_by_id(s)[id].spec_id() == id,
    decreases s.len(),
{
    if s.len() > 0 {
        lemma_latest_key(s.drop_last());
        assert forall|id: u128| #[trigger] latest_by_id(s).contains_key(id) implies latest_by_id(
            s,
        )[id].spec_id() == id by {
            if id != s.last().spec_id() {
                assert(latest_by_id(s.drop_last()).contains_key(id));
            }
        }
    }
}

/// Rearranging the records keeps one per identifier.
proof fn lemma_permuted_one_per_id<T: TBObject>(x: Seq<T>, out: Seq<T>, m: Map<u128, T>)
    requires
        one_per_id(x, m),
        out.to_multiset() == x.to_multiset(),
    ensures
        one_per_id(out, m),
{
    broadcast use vstd::seq_lib::group_to_multiset_ensures;

    assert(x.no_duplicates()) by {
        assert forall|i: int, j: int| 0 <= i < x.len() && 0 <= j < x.len() && i != j implies x[i]
            != x[j] by {
            if i < j {
                assert(x[i].spec_id() != x[j].spec_id());
            } else {
                assert(x[j].spec_id() != x[i].spec_id());
            }
        }
    }
    x.lemma_multiset_has_no_duplicates();
    out.lemma_multiset_has_no_duplicates_conv();
    assert forall|i: int| 0 <= i < out.len() implies m.contains_key(#[trigger] out[i].spec_id())
        && m[out[i].spec_id()] == out[i] by {
        assert(out.contains(out[i]));
        assert(out.to_multiset().count(out[i]) > 0);
        assert(x.to_multiset().count(out[i]) > 0);
        assert(x.contains(out[i]));
        let k = choose|k: int| 0 <= k < x.len() && x[k] == out[i];
        assert(m.contains_key(x[k].spec_id()));
    }
    assert forall|i: int, j: int| 0 <= i < j < out.len() implies #[trigger] out[i].spec_id()
        != #[trigger] out[j].spec_id() by {
        if out[i].spec_id() == out[j].spec_id() {
            assert(m[out[i].spec_id()] == out[i]);
            assert(m[out[j].spec_id()] == out[j]);
        }
    }
    assert forall|id: u128| #[trigger] m.contains_key(id) implies exists|i: int|
        0 <= i < out.len() && out[i].spec_id() == id by {
        let k = choose|k: int| 0 <= k < x.len() && x[k].spec_id() == id;
        assert(x.contains(x[k]));
        assert(x.to_multiset().count(x[k]) > 0);
        assert(out.to_multiset().count(x[k]) > 0);
        assert(out.contains(x[k]));
    }
}

fn concat<T: Copy>(a: Vec<T>, b: Vec<T>) -> (c: Vec<T>)
    ensures
        c@ == a@ + b@,
{
    let mut c = a;
    let ghost a0 = c@;
    for i in 0..b.len()
        invariant
            c@ == a0 + b@.take(i as int),
    {
        c.push(b[i]);
        proof {
            assert(b@.take(i + 1) =~= b@.take(i as int).push(b@[i as int]));
        }
    }
    assert(b@.take(b@.len() as int) =~= b@);
    c
}

/// All accounts of a data file: the checkpointed ones `lsm` and those in
/// the journal `wal`, a journal record replacing a checkpointed one with
/// the same id. Without journal records, the checkpointed list as it is.
pub fn merge_accounts(lsm: Vec<Account>, wal: Vec<Account>) -> (out: Vec<Account>)
    ensures
        wal@.len() == 0 ==> out@ == lsm@,
        wal@.len() > 0 ==> one_per_id(out@, latest_by_id(lsm@ + wal@)),
{
    if wal.len() == 0 {
        return lsm;
    }
    let all = concat(lsm, wal);
    collect_latest(&all)
}

/// The records of `m` whose timestamp is at least `cutoff`.
pub open spec fn since_map(m: Map<u128, Transfer>, cutoff: u64) -> Map<u128, Transfer> {
    Map::new(|id: u128| m.contains_key(id) && m[id].timestamp >= cutoff, |id: u128| m[id])
}

/// The transfers of a data file with a timestamp at least `cutoff_ts`: the
/// checkpointed ones `lsm` and those in the journal `wal` (a journal record
/// replacing a checkpointed one with the same id), in ascending timestamp
/// order.
pub fn transfers_since(lsm: Vec<Transfer>, wal: Vec<Transfer>, cutoff_ts: u64) -> (out: Vec<Transfer>)
    ensures
        one_per_id(out@, since_map(latest_by_id(lsm@ + wal@), cutoff_ts)),
        sorted_by(out@, ts_leq()),
{
    let all = concat(lsm, wal);
    let latest = collect_latest(&all);
    let ghost m = latest_by_id(all@);
    let mut kept: Vec<Transfer> = Vec::new();
    let ghost mut idx: Seq<int> = Seq::empty();
    for i in 0..latest.len()
        invariant
            kept@.len() == idx.len(),
            forall|k: int| 0 <= k < idx.len() ==> 0 <= #[trigger] idx[k] < i,
            forall|k: int| 0 <= k < idx.len() ==> #[trigger] kept@[k] == latest@[idx[k]],
            forall|a: int, b: int| 0 <= a < b < idx.len() ==> #[trigger] idx[a] < #[trigger] idx[b],
            forall|k: int| 0 <= k < kept@.len() ==> (#[trigger] kept@[k]).timestamp >= cutoff_ts,
            forall|j: int|
                0 <= j < i && (#[trigger] latest@[j]).timestamp >= cutoff_ts ==> exists|k: int|
                    0 <= k < idx.len() && idx[k] == j,
    {
        let t = latest[i];
        if t.timestamp >= cutoff_ts {
            kept.push(t);
            proof {
                let before = idx;
                idx = idx.push(i as int);
                assert forall|j: int|
                    0 <= j < i + 1 && (#[trigger] latest@[j]).timestamp >= cutoff_ts implies exists|
                    k: int,
                | 0 <= k < idx.len() && idx[k] == j by {
                    if j < i {
                        let k = choose|k: int| 0 <= k < before.len() && before[k] == j;
                        assert(idx[k] == j);
                    } else {
                        assert(idx[before.len() as int] == j);
                    }
                }
            }
        }
    }
    proof {
        lemma_filtered_one_per_id(latest@, kept@, idx, m, cutoff_ts);
    }
    let out = sort_transfers_by_timestamp(kept);
    proof {
        lemma_permuted_one_per_id(kept@, out@, since_map(m, cutoff_ts));
    }
    out
}

/// Keeping, in order, the records of `x` from `cutoff` on keeps one per
/// identifier of those records.
proof fn lemma_filtered_one_per_id(
    x: Seq<Transfer>,
    kept: Seq<Transfer>,
    idx: Seq<int>,
    m: Map<u128, Transfer>,
    cutoff: u64,
)
    requires
        one_per_id(x, m),
        kept.len() == idx.len(),
        forall|k: int| 0 <= k < idx.len() ==> 0 <= #[trigger] idx[k] < x.len(),
        forall|k: int| 0 <= k < idx.len() ==> #[trigger] kept[k] == x[idx[k]],
        forall|a: int, b: int| 0 <= a < b < idx.len() ==> #[trigger] idx[a] < #[trigger] idx[b],
        forall|k: int| 0 <= k < kept.len() ==> (#[trigger] kept[k]).timestamp >= cutoff,
        forall|j: int|
            0 <= j < x.len() && (#[trigger] x[j]).timestamp >= cutoff ==> exists|k: int|
                0 <= k < idx.len() && idx[k] == j,
    ensures
        one_per_id(kept, since_map(m, cutoff)),
{
    let sm = since_map(m, cutoff);
    assert forall|a: int, b: int| 0 <= a < b < kept.len() implies #[trigger] kept[a].spec_id()
        != #[trigger] kept[b].spec_id() by {
        assert(idx[a] < idx[b]);
        assert(x[idx[a]].spec_id() != x[idx[b]].spec_id());
    }
    assert forall|k: int| 0 <= k < kept.len() implies sm.contains_key(#[trigger] kept[k].spec_id())
        && sm[kept[k].spec_id()] == kept[k] by {
        assert(m.contains_key(x[idx[k]].spec_id()));
    }
    assert forall|id: u128| #[trigger] sm.contains_key(id) implies exists|k: int|
        0 <= k < kept.len() && kept[k].spec_id() == id by {
        assert(m.contains_key(id));
        let j = choose|j: int| 0 <= j < x.len() && x[j].spec_id() == id;
        assert(m[x[j].spec_id()] == x[j]);
        assert(x[j].timestamp >= cutoff);
        let k = choose|k: int| 0 <= k < idx.len() && idx[k] == j;
        assert(kept[k] == x[j]);
    }
}

/// Whether account `a` has pending balances.
pub open spec fn is_pending(a: Account) -> bool {
    a.debits_pending > 0 || a.credits_pending > 0
}

/// The accounts of `s` with pending balances, in order.
pub open spec fn pending_of(s: Seq<Account>) -> Seq<Account>
    decreases s.len(),
{
    if s.len() == 0 {
        Seq::empty()
    } else if is_pending(s.last()) {
        pending_of(s.drop_last()).push(s.last())
    } else {
        pending_of(s.drop_last())
    }
}

proof fn lemma_pending_len(s: Seq<Account>)
    ensures
        pending_of(s).len() <= s.len(),
    decreases s.len(),
{
    if s.len() > 0 {
        lemma_pending_len(s.drop_last());
    }
}

/// The reports of the accounts of `accounts` with pending balances.
pub fn pending_accounts(accounts: &Vec<Account>) -> (r: Vec<AccountRecord>)
    ensures
        r@.len() == pending_of(accounts@).len(),
        forall|i: int|
            0 <= i < r@.len() ==> reports_account(#[trigger] r@[i], pending_of(accounts@)[i]),
{
    let mut r: Vec<AccountRecord> = Vec::new();
    for i in 0..accounts.len()
        invariant
            r@.len() == pending_of(accounts@.take(i as int)).len(),
            forall|k: int|
                0 <= k < r@.len() ==> reports_account(
                    #[trigger] r@[k],
                    pending_of(accounts@.take(i as int))[k],
                ),
    {
        let a = accounts[i];
        proof {
            assert(accounts@.take(i + 1).drop_last() =~= accounts@.take(i as int));
        }
        if a.debits_pending > 0 || a.credits_pending > 0 {
            r.push(account_to_proto(&a));
        }
    }
    assert(accounts@.take(accounts@.len() as int) =~= accounts@);
    r
}

/// Number of accounts of `s` on ledger `l`.
pub open spec fn ledger_account_count(s: Seq<Account>, l: u32) -> nat
    decreases s.len(),
{
    if s.len() == 0 {
        0
    } else {
        ledger_account_count(s.drop_last(), l) + if s.last().ledger == l { 1nat } else { 0nat }
    }
}

/// Sum of the posted debits of the accounts of `s` on ledger `l`.
pub open spec fn ledger_debits_posted(s: Seq<Account>, l: u32) -> nat
    decreases s.len(),
{
    if s.len() == 0 {
        0
    } else {
        ledger_debits_posted(s.drop_last(), l) + if s.last().ledger == l {
            s.last().debits_posted as nat
        } else {
            0nat
        }
    }
}

/// Sum of the posted credits of the accounts of `s` on ledger `l`.
pub open spec fn ledger_credits_posted(s: Seq<Account>, l: u32) -> nat
    decreases s.len(),
{
    if s.len() == 0 {
        0
    } else {
        ledger_credits_posted(s.drop_last(), l) + if s.last().ledger == l {
            s.last().credits_posted as nat
        } else {
            0nat
        }
    }
}

/// Whether every per-ledger sum of posted balances fits in a `u128`.
pub open spec fn ledger_sums_fit(s: Seq<Account>) -> bool {
    forall|l: u32| ledger_debits_posted(s, l) <= u128::MAX && ledger_credits_posted(s, l) <= u128::MAX
}

proof fn lemma_ledger_prefix(s: Seq<Account>, k: int, l: u32)
    requires
        0 <= k <= s.len(),
    ensures
        ledger_debits_posted(s.take(k), l) <= ledger_debits_posted(s, l),
        ledger_credits_posted(s.take(k), l) <= ledger_credits_posted(s, l),
        ledger_account_count(s.take(k), l) <= k,
    decreases s.len(),
{
    if k < s.len() {
        lemma_ledger_prefix(s.drop_last(), k, l);
        assert(s.drop_last().take(k) =~= s.take(k));
    } else {
        assert(s.take(k) =~= s);
        lemma_ledger_count_le(s, l);
    }
}

proof fn lemma_ledger_count_le(s: Seq<Account>, l: u32)
    ensures
        ledger_account_count(s, l) <= s.len(),
    decreases s.len(),
{
    if s.len() > 0 {
        lemma_ledger_count_le(s.drop_last(), l);
    }
}

/// Per-ledger totals of a migration plan's accounts.
#[derive(Debug, Clone, PartialEq, Eq)]
pub struct LedgerSummary {
    pub ledger: u32,
    pub account_count: u64,
    /// Sum of posted debits, in decimal.
    pub total_debits_posted: String,
    /// Sum of posted credits, in decimal.
    pub total_credits_posted: String,
}

/// Whether `r` summarizes ledger `l` of the accounts `s`.
pub open spec fn summarizes(r: LedgerSummary, s: Seq<Account>, l: u32) -> bool {
    &&& r.ledger == l
    &&& r.account_count == ledger_account_count(s, l)
    &&& r.total_debits_posted@ == decimal(ledger_debits_posted(s, l))
    &&& r.total_credits_posted@ == decimal(ledger_credits_posted(s, l))
}

fn summarize_ledger(accounts: &Vec<Account>, l: u32) -> (r: LedgerSummary)
    requires
        ledger_sums_fit(accounts@),
    ensures
        summarizes(r, accounts@, l),
{
    let mut count: u64 = 0;
    let mut debits: u128 = 0;
    let mut credits: u128 = 0;
    for i in 0..accounts.len()
        invariant
            ledger_sums_fit(accounts@),
            count == ledger_account_count(accounts@.take(i as int), l),
            debits == ledger_debits_posted(accounts@.take(i as int), l),
            credits == ledger_credits_posted(accounts@.take(i as int), l),
    {
        let a = accounts[i];
        proof {
            assert(accounts@.take(i + 1).drop_last() =~= accounts@.take(i as int));
            lemma_ledger_prefix(accounts@, i + 1, l);
        }
        if a.ledger == l {
            count = count + 1;
            debits = debits + a.debits_posted;
            credits = credits + a.credits_posted;
        }
    }
    assert(accounts@.take(accounts@.len() as int) =~= accounts@);
    LedgerSummary {
        ledger: l,
        account_count: count,
        total_debits_posted: decimal_string(debits),
        total_credits_posted: decimal_string(credits),
    }
}

/// The totals of each ledger of `accounts`, in ascending ledger order.
pub fn ledger_summaries(accounts: &Vec<Account>) -> (r: Vec<LedgerSummary>)
    requires
        ledger_sums_fit(accounts@),
    ensures
        r@.len() == plan_ledgers(accounts@).len(),
        forall|i: int|
            0 <= i < r@.len() ==> summarizes(#[trigger] r@[i], accounts@, plan_ledgers(accounts@)[i]),
{
    let ls = sorted_ledgers(accounts);
    let mut r: Vec<LedgerSummary> = Vec::new();
    for i in 0..ls.len()
        invariant
            ls@ == plan_ledgers(accounts@),
            ledger_sums_fit(accounts@),
            r@.len() == i,
            forall|k: int| 0 <= k < i ==> summarizes(#[trigger] r@[k], accounts@, ls@[k]),
    {
        r.push(summarize_ledger(accounts, ls[i]));
    }
    r
}

/// Whether a migration plan can be built for `accounts` with the window
/// `windowed` starting at `cutoff_ts` (no window when it is 0) within the
/// integer ranges of its records.
pub open spec fn migration_plan_fits(a: Seq<Account>, windowed: Seq<Transfer>, cutoff_ts: u64) -> bool {
    if cutoff_ts > 0 {
        window_totals_fit(windowed) && snapshot_fits(adjusted_accounts(a, windowed, cutoff_ts), true)
    } else {
        snapshot_fits(a, false)
    }
}

/// The accounts a migration plan is built from: `a` adjusted to its
/// balances at `cutoff_ts` for a time-window plan, else `a` itself.
pub open spec fn migration_basis(a: Seq<Account>, windowed: Seq<Transfer>, cutoff_ts: u64) -> Seq<Account> {
    if cutoff_ts > 0 {
        adjusted_accounts(a, windowed, cutoff_ts)
    } else {
        a
    }
}

/// The synthetic transfers of the migration plan for `accounts`.
pub open spec fn migration_synthetic(a: Seq<Account>, windowed: Seq<Transfer>, cutoff_ts: u64) -> Seq<
    SyntheticTransfer,
> {
    plan_synthetic_transfers(migration_basis(a, windowed, cutoff_ts), cutoff_ts > 0)
}

/// Whether `p` is the migration plan for `accounts` with the window
/// `windowed` from `cutoff_ts` (no window when it is 0).
pub open spec fn is_migration_plan(p: BalancePlan, a: Seq<Account>, windowed: Seq<Transfer>, cutoff_ts: u64) -> bool {
    let basis = migration_basis(a, windowed, cutoff_ts);
    &&& p.genesis_accounts@ == genesis_accounts_for(plan_ledgers(basis))
    &&& p.regular_accounts@ == regular_accounts_for(basis)
    &&& p.synthetic_transfers@ == migration_synthetic(a, windowed, cutoff_ts)
    &&& p.windowed_transfers@ == if cutoff_ts > 0 {
        windowed
    } else {
        Seq::<Transfer>::empty()
    }
}

/// Build the migration plan for `accounts`: a time-window plan replaying
/// `windowed` when `cutoff_ts > 0`, else a snapshot plan (`windowed` is
/// then not used).
pub fn build_migration_plan(accounts: Vec<Account>, windowed: Vec<Transfer>, cutoff_ts: u64) -> (p:
    BalancePlan)
    requires
        migration_plan_fits(accounts@, windowed@, cutoff_ts),
    ensures
        is_migration_plan(p, accounts@, windowed@, cutoff_ts),
{
    if cutoff_ts > 0 {
        BalancePlan::build_windowed(accounts, windowed, cutoff_ts)
    } else {
        BalancePlan::build(accounts)
    }
}

/// What planning a migration reports.
#[derive(Debug, Clone)]
pub struct MigrationSummary {
    /// Number of accounts read.
    pub accounts: u64,
    /// Number of accounts with pending balances.
    pub pending_transfers: u64,
    /// Number of synthetic transfers of the plan.
    pub synthetic_transfers: u64,
    /// Whether no account has pending balances.
    pub safe: bool,
    /// Number of distinct ledgers.
    pub ledgers: u32,
    /// Per-ledger totals, ascending by ledger.
    pub ledger_summaries: Vec<LedgerSummary>,
    /// The accounts with pending balances.
    pub pending_accounts: Vec<AccountRecord>,
    /// Number of transfers of the window (0 for a snapshot plan).
    pub windowed_transfers: u64,
}

/// A migration plan kept for drill-down queries.
#[derive(Debug, Clone)]
pub struct CachedMigrationPlan {
    /// All accounts read from the data file.
    pub accounts: Vec<Account>,
    /// Synthetic transfers of the plan.
    pub synthetic_transfers: Vec<SyntheticTransfer>,
    /// Windowed transfers (empty for snapshot-only migrations).
    pub windowed_transfers: Vec<Transfer>,
}

fn copy_vec<T: Copy>(v: &Vec<T>) -> (c: Vec<T>)
    ensures
        c@ == v@,
{
    let mut c: Vec<T> = Vec::new();
    for i in 0..v.len()
        invariant
            c@ == v@.take(i as int),
    {
        c.push(v[i]);
        proof {
            assert(v@.take(i + 1) =~= v@.take(i as int).push(v@[i as int]));
        }
    }
    assert(v@.take(v@.len() as int) =~= v@);
    c
}

/// Plan a migration of `accounts` (with the window `windowed` from
/// `cutoff_ts` when it is above 0) and summarize it.
pub fn plan_migration(accounts: Vec<Account>, windowed: Vec<Transfer>, cutoff_ts: u64) -> (r: (
    MigrationSummary,
    CachedMigrationPlan,
))
    requires
        ledger_sums_fit(accounts@),
        migration_plan_fits(accounts@, windowed@, cutoff_ts),
    ensures
        ({
            let (sm, cached) = r;
            &&& sm.accounts == accounts@.len()
            &&& sm.pending_transfers == pending_of(accounts@).len()
            &&& sm.safe == (pending_of(accounts@).len() == 0)
            &&& sm.pending_accounts@.len() == pending_of(accounts@).len()
            &&& forall|i: int|
                0 <= i < sm.pending_accounts@.len() ==> reports_account(
                    #[trigger] sm.pending_accounts@[i],
                    pending_of(accounts@)[i],
                )
            &&& sm.ledgers == plan_ledgers(accounts@).len() as u32
            &&& sm.ledger_summaries@.len() == plan_ledgers(accounts@).len()
            &&& forall|i: int|
                0 <= i < sm.ledger_summaries@.len() ==> summarizes(
                    #[trigger] sm.ledger_summaries@[i],
                    accounts@,
                    plan_ledgers(accounts@)[i],
                )
            &&& sm.synthetic_transfers == migration_synthetic(accounts@, windowed@, cutoff_ts).len()
            &&& sm.windowed_transfers == if cutoff_ts > 0 {
                windowed@.len()
            } else {
                0
            }
            &&& cached.accounts@ == accounts@
            &&& cached.synthetic_transfers@ == migration_synthetic(accounts@, windowed@, cutoff_ts)
            &&& cached.windowed_transfers@ == if cutoff_ts > 0 {
                windowed@
            } else {
                Seq::<Transfer>::empty()
            }
        }),
{
    let total = accounts.len() as u64;
    let pending = pending_accounts(&accounts);
    proof {
        lemma_pending_len(accounts@);
    }
    let pending_count = pending.len() as u64;
    let summaries = ledger_summaries(&accounts);
    #[verifier::truncate]
    let ledger_count = summaries.len() as u32;
    let for_cache = copy_vec(&accounts);
    let windowed_count = if cutoff_ts > 0 { windowed.len() as u64 } else { 0 };
    let plan = build_migration_plan(accounts, windowed, cutoff_ts);
    let synthetic_count = plan.synthetic_transfers.len() as u64;
    let synthetic = copy_vec(&plan.synthetic_transfers);
    let windowed_kept = copy_vec(&plan.windowed_transfers);
    proof {
        if cutoff_ts == 0 {
            assert(windowed_kept@ =~= Seq::<Transfer>::empty());
        }
    }
    let summary = MigrationSummary {
        accounts: total,
        pending_transfers: pending_count,
        synthetic_transfers: synthetic_count,
        safe: pending_count == 0,
        ledgers: ledger_count,
        ledger_summaries: summaries,
        pending_accounts: pending,
        windowed_transfers: windowed_count,
    };
    (
        summary,
        CachedMigrationPlan {
            accounts: for_cache,
            synthetic_transfers: synthetic,
            windowed_transfers: windowed_kept,
        },
    )
}

/// How `{:?}` renders a string: quoted, with escapes.
pub uninterp spec fn debug_text(s: Seq<char>) -> Seq<char>;

/// `format!("{:?}", s)`: std's `Debug` rendering of a string, quoted and
/// escaped. Its result is taken to be `debug_text` of the text alone;
/// what that rendering is, is not stated here.
#[verifier::external_body]
fn debug_quoted(s: &str) -> (r: String)
    ensures
        r@ == debug_text(s@),
{
    format!("{:?}", s)
}

/// Message of a cron schedule with nothing but whitespace.
pub const EMPTY_CRON: &'static str = "cron_schedule must not be empty";

/// Accept a cron schedule for backups: it must hold 5 or 6
/// whitespace-separated fields. `Ok` carries the reply message, `Err` the
/// refusal.
pub fn start_backup_reply(schedule: &str) -> (r: Result<String, String>)
    ensures
        word_count(schedule@) == 0 ==> (r matches Err(m) && m@ == EMPTY_CRON@),
        word_count(schedule@) > 0 && (word_count(schedule@) < 5 || word_count(schedule@) > 6)
            ==> (r matches Err(m) && m@ == "Invalid cron pattern: expected 5-6 fields, got "@
            + decimal(word_count(schedule@))),
        5 <= word_count(schedule@) <= 6 ==> (r matches Ok(m) && m@ == "Backups enabled with schedule '"@
            + schedule@ + "'. An immediate backup has been triggered."@),
{
    let n = count_words(schedule);
    if n == 0 {
        return Err(String::from_str(EMPTY_CRON));
    }
    if n < 5 || n > 6 {
        let mut m = String::from_str("Invalid cron pattern: expected 5-6 fields, got ");
        push_decimal(&mut m, n as u128);
        return Err(m);
    }
    let mut m = String::from_str("Backups enabled with schedule '");
    m.append(schedule);
    m.append("'. An immediate backup has been triggered.");
    Ok(m)
}

/// Enable backups on `schedule` when it holds 5 or 6 whitespace-separated
/// fields: the state changes only then, and `Ok` carries the reply; a
/// refused schedule leaves the state as it was.
pub fn start_backups(state: &mut ManagerState, schedule: String) -> (r: Result<String, String>)
    ensures
        (r is Ok) == (5 <= word_count(schedule@) <= 6),
        r is Ok ==> *final(state) == (ManagerState {
            backups_enabled: true,
            cron_schedule: Some(schedule),
            ..*old(state)
        }),
        r is Err ==> *final(state) == *old(state),
        word_count(schedule@) == 0 ==> (r matches Err(m) && m@ == EMPTY_CRON@),
        word_count(schedule@) > 0 && (word_count(schedule@) < 5 || word_count(schedule@) > 6)
            ==> (r matches Err(m) && m@ == "Invalid cron pattern: expected 5-6 fields, got "@
            + decimal(word_count(schedule@))),
        5 <= word_count(schedule@) <= 6 ==> (r matches Ok(m) && m@ == "Backups enabled with schedule '"@
            + schedule@ + "'. An immediate backup has been triggered."@),
{
    let r = start_backup_reply(schedule.as_str());
    if r.is_ok() {
        state.enable_backups(schedule);
    }
    r
}

/// Reply to a request for a one-off backup of `backup_file` to `bucket`.
pub fn trigger_backup_reply(backup_file: &str, bucket: &str) -> (m: String)
    ensures
        m@ == "Backup started for "@ + debug_text(backup_file@) + " \u{2192} s3://"@ + bucket@ + "/"@,
{
    let mut m = String::from_str("Backup started for ");
    let q = debug_quoted(backup_file);
    m.append(q.as_str());
    m.append(" \u{2192} s3://");
    m.append(bucket);
    m.append("/");
    m
}

/// How `{:?}` renders a file system path: quoted, with escapes.
pub uninterp spec fn path_debug_text(s: Seq<char>) -> Seq<char>;

/// `format!("{:?}", Path::new(s))`: std's `Debug` rendering of the path
/// `s`, quoted and escaped. Its result is taken to be `path_debug_text` of
/// the text alone; what that rendering is, is not stated here.
#[verifier::external_body]
fn path_debug_quoted(s: &str) -> (r: String)
    ensures
        r@ == path_debug_text(s@),
{
    format!("{:?}", std::path::Path::new(s))
}

/// Reply after saving a backup configuration to `path`.
pub fn config_saved_reply(path: &str) -> (m: String)
    ensures
        m@ == "Backup config saved to "@ + path_debug_text(path@),
{
    let mut m = String::from_str("Backup config saved to ");
    let q = path_debug_quoted(path);
    m.append(q.as_str());
    m
}

/// Notice sent to a log stream reader that fell behind by `n` entries.
pub fn lagged_notice(n: u64) -> (m: String)
    ensures
        m@ == "... skipped "@ + decimal(n as nat) + " log entries (slow consumer)"@,
{
    let mut m = String::from_str("... skipped ");
    push_decimal(&mut m, n as u128);
    m.append(" log entries (slow consumer)");
    m
}

/// A request to format a new data file.
#[derive(Debug, Clone)]
pub struct FormatRequest {
    pub cluster_id: String,
    pub replica: u32,
    pub replica_count: u32,
    /// Optional `--size` value (empty for the default).
    pub size: String,
    /// Data file to create (empty for the node's configured one).
    pub data_file_path: String,
}

/// The `tigerbeetle format` invocation for a request.
#[derive(Debug, Clone)]
pub struct FormatCommand {
    pub exe: String,
    pub args: Vec<String>,
    pub data_file_path: String,
}

/// Message when formatting is refused because the process runs.
pub const FORMAT_WHILE_RUNNING: &'static str = "TigerBeetle process is still running. Stop the node before formatting a data file.";
/// Message when formatting has no data file to create.
pub const FORMAT_NO_PATH: &'static str = "No data file path provided and none is configured on this node.";

/// The arguments of `tigerbeetle format` for `req` creating `path`.
pub open spec fn format_args(req: FormatRequest, path: Seq<char>) -> Seq<Seq<char>> {
    let base = seq![
        "format"@,
        "--cluster="@ + req.cluster_id@,
        "--replica="@ + decimal(req.replica as nat),
        "--replica-count="@ + decimal(req.replica_count as nat),
    ];
    let sized = if req.size@.len() > 0 { base.push("--size="@ + req.size@) } else { base };
    sized.push(path)
}

/// The data file a format request creates: its own path, else the node's.
pub open spec fn format_path(req: FormatRequest, state: ManagerState) -> Seq<char> {
    if req.data_file_path@.len() > 0 {
        req.data_file_path@
    } else {
        state.backup_file@
    }
}

fn labelled_decimal(label: &str, n: u32) -> (s: String)
    ensures
        s@ == label@ + decimal(n as nat),
{
    let mut s = label.to_owned();
    push_decimal(&mut s, n as u128);
    s
}

/// Decide how to format a data file for `req` on a node in `state`: refused
/// while the process runs or when no data file is named anywhere.
pub fn format_command(req: &FormatRequest, state: &ManagerState) -> (r: Result<FormatCommand, String>)
    ensures
        state.process_running ==> (r matches Err(m) && m@ == FORMAT_WHILE_RUNNING@),
        !state.process_running && format_path(*req, *state).len() == 0 ==> (r matches Err(m) && m@
            == FORMAT_NO_PATH@),
        !state.process_running && format_path(*req, *state).len() > 0 ==> (r matches Ok(c) && c.exe
            == state.exe && c.data_file_path@ == format_path(*req, *state) && string_views(c.args@)
            == format_args(*req, format_path(*req, *state))),
{
    if state.process_running {
        return Err(String::from_str(FORMAT_WHILE_RUNNING));
    }
    let path = if req.data_file_path.as_str().unicode_len() > 0 {
        req.data_file_path.clone()
    } else {
        state.backup_file.clone()
    };
    if path.as_str().unicode_len() == 0 {
        return Err(String::from_str(FORMAT_NO_PATH));
    }
    let mut args: Vec<String> = Vec::new();
    args.push(String::from_str("format"));
    let mut c = String::from_str("--cluster=");
    c.append(req.cluster_id.as_str());
    args.push(c);
    args.push(labelled_decimal("--replica=", req.replica));
    args.push(labelled_decimal("--replica-count=", req.replica_count));
    if req.size.as_str().unicode_len() > 0 {
        let mut sz = String::from_str("--size=");
        sz.append(req.size.as_str());
        args.push(sz);
    }
    args.push(path.clone());
    proof {
        reveal_strlit("format");
        assert(string_views(args@) =~= format_args(*req, path@));
    }
    Ok(FormatCommand { exe: state.exe.clone(), args, data_file_path: path })
}

/// How `{:?}` renders an optional exit code.
pub open spec fn exit_code_text(code: Option<i32>) -> Seq<char> {
    match code {
        Some(c) => "Some("@ + (if c < 0 {
            seq!['-'] + decimal((-c) as nat)
        } else {
            decimal(c as nat)
        }) + ")"@,
        None => "None"@,
    }
}

/// The reply to a format run for `req` that created `path`: whether it
/// succeeded, its message, and the data file it created (`path` on
/// success, empty otherwise). A failed run reports its exit code and its
/// output (standard output then standard error, trimmed).
pub fn format_outcome(
    req: &FormatRequest,
    path: &str,
    success: bool,
    exit_code: Option<i32>,
    stdout: &str,
    stderr: &str,
) -> (r: (bool, String, String))
    ensures
        r.0 == success,
        r.2@ == (if success { path@ } else { Seq::<char>::empty() }),
        success ==> r.1@ == "Data file formatted successfully: cluster="@ + req.cluster_id@
            + " replica="@ + decimal(req.replica as nat) + "/"@ + decimal(req.replica_count as nat)
            + " path="@ + path@,
        !success ==> r.1@ == "tigerbeetle format failed (exit "@ + exit_code_text(exit_code) + "): "@
            + trimmed(stdout@ + stderr@),
{
    if success {
        let mut m = String::from_str("Data file formatted successfully: cluster=");
        m.append(req.cluster_id.as_str());
        m.append(" replica=");
        push_decimal(&mut m, req.replica as u128);
        m.append("/");
        push_decimal(&mut m, req.replica_count as u128);
        m.append(" path=");
        m.append(path);
        return (true, m, path.to_owned());
    }
    let mut m = String::from_str("tigerbeetle format failed (exit ");
    match exit_code {
        Some(c) => {
            m.append("Some(");
            push_signed_decimal(&mut m, c);
            m.append(")");
        },
        None => {
            m.append("None");
        },
    }
    m.append("): ");
    let mut combined = stdout.to_owned();
    combined.append(stderr);
    let t = trim(combined.as_str());
    m.append(t.as_str());
    (false, m, String::new())
}

/// Message when a migration names no target addresses.
pub const NO_NEW_ADDRESSES: &'static str = "new_addresses must not be empty";

/// Check the target addresses of a migration.
pub fn check_new_addresses(addresses: &str) -> (r: Result<(), String>)
    ensures
        addresses@.len() == 0 ==> (r matches Err(m) && m@ == NO_NEW_ADDRESSES@),
        addresses@.len() > 0 ==> r is Ok,
{
    if addresses.unicode_len() == 0 {
        return Err(String::from_str(NO_NEW_ADDRESSES));
    }
    Ok(())
}

/// Build the plan of a migration to execute: refused while any account
/// has pending balances.
pub fn plan_for_execution(accounts: Vec<Account>, windowed: Vec<Transfer>, cutoff_ts: u64) -> (r:
    Result<BalancePlan, String>)
    requires
        pending_of(accounts@).len() == 0 ==> migration_plan_fits(accounts@, windowed@, cutoff_ts),
    ensures
        pending_of(accounts@).len() > 0 ==> (r matches Err(m) && m@ == decimal(
            pending_of(accounts@).len(),
        ) + " account(s) have non-zero pending balances. Void all pending transfers before migration."@),
        pending_of(accounts@).len() == 0 ==> (r matches Ok(p) && is_migration_plan(
            p,
            accounts@,
            windowed@,
            cutoff_ts,
        )),
{
    match refuse_pending(&accounts) {
        Err(m) => Err(m),
        Ok(()) => Ok(build_migration_plan(accounts, windowed, cutoff_ts)),
    }
}

/// Refuse a migration while any account has pending balances; this needs
/// neither the window nor a plan.
pub fn refuse_pending(accounts: &Vec<Account>) -> (r: Result<(), String>)
    ensures
        pending_of(accounts@).len() > 0 ==> (r matches Err(m) && m@ == decimal(
            pending_of(accounts@).len(),
        ) + " account(s) have non-zero pending balances. Void all pending transfers before migration."@),
        pending_of(accounts@).len() == 0 ==> r is Ok,
{
    let pending = pending_accounts(accounts);
    if pending.len() > 0 {
        let mut m = decimal_string(pending.len() as u128);
        m.append(" account(s) have non-zero pending balances. Void all pending transfers before migration.");
        return Err(m);
    }
    Ok(())
}

/// Parse the id of the cluster a migration targets.
pub fn parse_cluster_id(s: &str) -> (r: Result<u128, String>)
    ensures
        spec_parse_u128(s@) matches Some(v) ==> r == Ok::<u128, String>(v),
        spec_parse_u128(s@) is None ==> (r matches Err(m) && m@ == "invalid new_cluster_id "@
            + debug_text(s@) + ": expected decimal u128"@),
{
    match parse_u128(s) {
        Some(v) => Ok(v),
        None => {
            let mut m = String::from_str("invalid new_cluster_id ");
            let q = debug_quoted(s);
            m.append(q.as_str());
            m.append(": expected decimal u128");
            Err(m)
        },
    }
}

/// A progress report of a migration's import, as streamed to the client.
#[derive(Debug, Clone)]
pub struct MigrationProgress {
    pub phase: String,
    pub imported: u64,
    pub total: u64,
    pub done: bool,
    pub error: String,
}

impl MigrationProgress {
    /// The report of an import progress update.
    pub fn from_import(p: ImportProgress) -> (r: MigrationProgress)
        ensures
            r.phase == p.phase,
            r.imported == p.imported,
            r.total == p.total,
            !r.done,
            r.error@.len() == 0,
    {
        MigrationProgress {
            phase: p.phase,
            imported: p.imported,
            total: p.total,
            done: false,
            error: String::new(),
        }
    }

    /// The last report, once the import has ended.
    pub fn finished() -> (r: MigrationProgress)
        ensures
            r.phase@ == "done"@,
            r.imported == 0,
            r.total == 0,
            r.done,
            r.error@.len() == 0,
    {
        MigrationProgress {
            phase: String::from_str("done"),
            imported: 0,
            total: 0,
            done: true,
            error: String::new(),
        }
    }
}

/// Process part of a status reply.
#[derive(Debug, Clone)]
pub struct ProcessStatus {
    pub running: bool,
    /// OS process id, 0 when unknown.
    pub pid: u32,
    pub exe: String,
    pub args: Vec<String>,
    pub data_file: String,
    pub address: String,
}

/// Backup part of a status reply.
#[derive(Debug, Clone)]
pub struct BackupStatus {
    pub enabled: bool,
    /// Cron schedule, empty when none.
    pub cron_schedule: String,
    pub bucket: String,
    /// Time of the last successful backup, empty when none.
    pub last_backup_at: String,
    /// Last backup error, empty when none.
    pub last_error: String,
}

/// A node's status reply.
#[derive(Debug, Clone)]
pub struct StatusReply {
    pub process: ProcessStatus,
    pub backup: BackupStatus,
    pub uptime_seconds: u64,
    pub capacity: Option<CapacityStats>,
}

/// The value of an optional string, or empty.
pub open spec fn opt_text(o: Option<String>) -> Seq<char> {
    match o {
        Some(s) => s@,
        None => Seq::empty(),
    }
}

fn opt_or_empty(o: &Option<String>) -> (s: String)
    ensures
        s@ == opt_text(*o),
{
    match o {
        Some(v) => v.clone(),
        None => String::new(),
    }
}

impl StatusReply {
    /// The status of a node in state `ms`, up for `uptime_secs` seconds
    /// (negative counts as 0), with the capacity of its data file when it
    /// could be read.
    pub fn from_state(ms: &ManagerState, uptime_secs: i64, capacity: Option<CapacityStats>) -> (r:
        StatusReply)
        ensures
            r.process.running == ms.process_running,
            r.process.pid == match ms.pid {
                Some(p) => p,
                None => 0,
            },
            r.process.exe == ms.exe,
            r.process.args@ == ms.args@,
            r.process.data_file == ms.backup_file,
            r.process.address == ms.address,
            r.backup.enabled == ms.backups_enabled,
            r.backup.cron_schedule@ == opt_text(ms.cron_schedule),
            r.backup.bucket == ms.bucket,
            r.backup.last_backup_at@ == opt_text(ms.last_backup_at),
            r.backup.last_error@ == opt_text(ms.last_backup_error),
            r.uptime_seconds == if uptime_secs < 0 {
                0
            } else {
                uptime_secs as int
            },
            r.capacity == capacity,
    {
        let uptime: u64 = if uptime_secs < 0 { 0 } else { uptime_secs as u64 };
        StatusReply {
            process: ProcessStatus {
                running: ms.process_running,
                pid: match ms.pid {
                    Some(p) => p,
                    None => 0,
                },
                exe: ms.exe.clone(),
                args: copy_strings(&ms.args),
                data_file: ms.backup_file.clone(),
                address: ms.address.clone(),
            },
            backup: BackupStatus {
                enabled: ms.backups_enabled,
                cron_schedule: opt_or_empty(&ms.cron_schedule),
                bucket: ms.bucket.clone(),
                last_backup_at: opt_or_empty(&ms.last_backup_at),
                last_error: opt_or_empty(&ms.last_backup_error),
            },
            uptime_seconds: uptime,
            capacity,
        }
    }
}

/// Bucket used when the configuration names none.
pub const DEFAULT_BUCKET: &'static str = "tigerbeetle-backups";
/// Data file used when neither the configuration nor the arguments name one.
pub const DEFAULT_DATA_FILE: &'static str = "./data/0_0.tigerbeetle";

/// The last of `args` that does not start with `--`, if any.
pub open spec fn last_positional(args: Seq<Seq<char>>) -> Option<Seq<char>>
    decreases args.len(),
{
    if args.len() == 0 {
        None
    } else if !"--"@.is_prefix_of(args.last()) {
        Some(args.last())
    } else {
        last_positional(args.drop_last())
    }
}

/// The backup settings a node starts with.
#[derive(Debug, Clone)]
pub struct NodeSettings {
    pub cron_schedule: Option<String>,
    pub bucket: String,
    pub backup_file: String,
}

impl NodeSettings {
    /// Settings from the loaded configuration `cfg` and the arguments
    /// `child_args` handed to TigerBeetle: the configured bucket or
    /// `tigerbeetle-backups`; the configured backup file, else the data file
    /// among the arguments (the last one not starting with `--`), else
    /// `./data/0_0.tigerbeetle`.
    pub fn resolve(cfg: &BackupConfig, child_args: &Vec<String>) -> (r: NodeSettings)
        ensures
            r.cron_schedule == cfg.cron_schedule,
            r.bucket@ == match cfg.bucket {
                Some(b) => b@,
                None => DEFAULT_BUCKET@,
            },
            r.backup_file@ == match cfg.backup_file {
                Some(f) => f@,
                None => match last_positional(string_views(child_args@)) {
                    Some(a) => a,
                    None => DEFAULT_DATA_FILE@,
                },
            },
    {
        let bucket = match &cfg.bucket {
            Some(b) => b.clone(),
            None => String::from_str(DEFAULT_BUCKET),
        };
        let backup_file = match &cfg.backup_file {
            Some(f) => f.clone(),
            None => {
                let mut found: Option<String> = None;
                let mut i = child_args.len();
                let ghost views = string_views(child_args@);
                assert(views.take(i as int) =~= views);
                while i > 0
                    invariant_except_break
                        found is None,
                    invariant
                        i <= child_args@.len(),
                        views == string_views(child_args@),
                        last_positional(views) == last_positional(views.take(i as int)),
                    ensures
                        found matches Some(f) ==> last_positional(views) == Some(f@),
                        found is None ==> i == 0,
                    decreases i,
                {
                    let a = child_args[i - 1].as_str();
                    proof {
                        assert(views.take(i as int).last() == a@);
                        assert(views.take(i as int).drop_last() =~= views.take(i - 1));
                    }
                    if !crate::manager::starts_with(a, "--") {
                        proof {
                            reveal_strlit("--");
                        }
                        found = Some(a.to_owned());
                        break;
                    }
                    i = i - 1;
                }
                proof {
                    if found is None {
                        assert(views.take(0) =~= Seq::<Seq<char>>::empty());
                    }
                }
                match found {
                    Some(f) => f,
                    None => String::from_str(DEFAULT_DATA_FILE),
                }
            },
        };
        NodeSettings { cron_schedule: copy_opt(&cfg.cron_schedule), bucket, backup_file }
    }
}

/// The record `latest_by_id` keeps for an identifier is its last
/// occurrence.
pub proof fn lemma_latest_is_last<T: TBObject>(s: Seq<T>, k: int)
    requires
        0 <= k < s.len(),
        forall|j: int| k < j < s.len() ==> #[trigger] s[j].spec_id() != s[k].spec_id(),
    ensures
        latest_by_id(s).contains_key(s[k].spec_id()),
        latest_by_id(s)[s[k].spec_id()] == s[k],
    decreases s.len(),
{
    if k < s.len() - 1 {
        let d = s.drop_last();
        assert forall|j: int| k < j < d.len() implies #[trigger] d[j].spec_id() != d[k].spec_id() by {
            assert(d[j] == s[j]);
        }
        lemma_latest_is_last(d, k);
        assert(s.last() == s[s.len() - 1]);
    }
}

/// In a merged read, a journal record replaces the checkpointed record with
/// its id: the merged record for the id of the last journal record with
/// that id is that journal record, and a checkpointed record whose id the
/// journal lacks stays as the last checkpointed record with its id.
pub proof fn law_journal_record_wins<T: TBObject>(lsm: Seq<T>, wal: Seq<T>, i: int, j: int)
    ensures
        0 <= i < wal.len() && (forall|k: int| i < k < wal.len() ==> #[trigger] wal[k].spec_id()
            != wal[i].spec_id()) ==> latest_by_id(lsm + wal).contains_key(wal[i].spec_id())
            && latest_by_id(lsm + wal)[wal[i].spec_id()] == wal[i],
        0 <= j < lsm.len() && (forall|k: int| j < k < lsm.len() ==> #[trigger] lsm[k].spec_id()
            != lsm[j].spec_id()) && (forall|k: int| 0 <= k < wal.len() ==> #[trigger] wal[k].spec_id()
            != lsm[j].spec_id()) ==> latest_by_id(lsm + wal)[lsm[j].spec_id()] == lsm[j],
{
    let s = lsm + wal;
    if 0 <= i < wal.len() && (forall|k: int| i < k < wal.len() ==> #[trigger] wal[k].spec_id()
        != wal[i].spec_id()) {
        let k0 = lsm.len() + i;
        assert(s[k0] == wal[i]);
        assert forall|m: int| k0 < m < s.len() implies #[trigger] s[m].spec_id() != s[k0].spec_id() by {
            assert(s[m] == wal[m - lsm.len()]);
        }
        lemma_latest_is_last(s, k0);
    }
    if 0 <= j < lsm.len() && (forall|k: int| j < k < lsm.len() ==> #[trigger] lsm[k].spec_id()
        != lsm[j].spec_id()) && (forall|k: int| 0 <= k < wal.len() ==> #[trigger] wal[k].spec_id()
        != lsm[j].spec_id()) {
        assert(s[j] == lsm[j]);
        assert forall|m: int| j < m < s.len() implies #[trigger] s[m].spec_id() != s[j].spec_id() by {
            if m < lsm.len() {
                assert(s[m] == lsm[m]);
            } else {
                assert(s[m] == wal[m - lsm.len()]);
            }
        }
        lemma_latest_is_last(s, j);
    }
}


/// Message of a drill-down query made before any migration was planned.
pub const NO_CACHED_PLAN: &'static str = "No cached migration plan. Run PlanMigration first.";

/// Reply to a drill-down query on the accounts of a migration plan.
#[derive(Debug, Clone)]
pub struct MigrationAccountsReply {
    /// The accounts of the requested page.
    pub accounts: Vec<AccountRecord>,
    /// The requested page, echoed.
    pub page: u32,
    /// The requested limit, echoed.
    pub limit: u32,
    /// How many accounts pass the filter in all.
    pub total_count: u64,
}

/// Reply to a drill-down query on the synthetic transfers of a plan.
#[derive(Debug, Clone)]
pub struct MigrationSyntheticReply {
    /// The transfers of the requested page.
    pub transfers: Vec<SyntheticTransferRecord>,
    /// The requested page, echoed.
    pub page: u32,
    /// The requested limit, echoed.
    pub limit: u32,
    /// How many transfers are on the ledger in all.
    pub total_count: u64,
}

/// Answer a drill-down query on the accounts of the cached plan: refused
/// when no plan is cached, else one page of the accounts that pass
/// `filter`, their count, and the request's page and limit.
pub fn migration_accounts_reply(
    cached: &Option<CachedMigrationPlan>,
    filter: &Option<AccountFilter>,
    page: u32,
    limit: u32,
) -> (r: Result<MigrationAccountsReply, String>)
    requires
        cached is Some ==> page * spec_clamp_limit(limit) <= usize::MAX,
    ensures
        match cached {
            None => r matches Err(m) && m@ == NO_CACHED_PLAN@,
            Some(c) => r matches Ok(reply) && {
                let matched = filter_accounts(c.accounts@, *filter);
                let shown = page_slice(matched, (page * spec_clamp_limit(limit)) as nat, spec_clamp_limit(limit));
                &&& reply.page == page
                &&& reply.limit == limit
                &&& reply.total_count == matched.len()
                &&& reply.accounts@.len() == shown.len()
                &&& forall|i: int|
                    0 <= i < shown.len() ==> reports_account(#[trigger] reply.accounts@[i], shown[i])
            },
        },
{
    match cached {
        None => Err(String::from_str(NO_CACHED_PLAN)),
        Some(c) => {
            let (accounts, total_count) = migration_accounts_page(&c.accounts, filter, page, limit);
            Ok(MigrationAccountsReply { accounts, page, limit, total_count })
        },
    }
}

/// Answer a drill-down query on the synthetic transfers of the cached
/// plan: refused when no plan is cached, else one page of the transfers on
/// `ledger` (all ledgers when `None`), their count, and the request's page
/// and limit.
pub fn migration_synthetic_reply(
    cached: &Option<CachedMigrationPlan>,
    ledger: Option<u32>,
    page: u32,
    limit: u32,
) -> (r: Result<MigrationSyntheticReply, String>)
    requires
        cached is Some ==> page * spec_clamp_limit(limit) <= usize::MAX,
    ensures
        match cached {
            None => r matches Err(m) && m@ == NO_CACHED_PLAN@,
            Some(c) => r matches Ok(reply) && {
                let matched = filter_synthetic(c.synthetic_transfers@, ledger);
                let shown = page_slice(matched, (page * spec_clamp_limit(limit)) as nat, spec_clamp_limit(limit));
                &&& reply.page == page
                &&& reply.limit == limit
                &&& reply.total_count == matched.len()
                &&& reply.transfers@.len() == shown.len()
                &&& forall|i: int|
                    0 <= i < shown.len() ==> reports_synthetic(#[trigger] reply.transfers@[i], shown[i])
            },
        },
{
    match cached {
        None => Err(String::from_str(NO_CACHED_PLAN)),
        Some(c) => {
            let (transfers, total_count) = migration_synthetic_page(&c.synthetic_transfers, ledger, page, limit);
            Ok(MigrationSyntheticReply { transfers, page, limit, total_count })
        },
    }
}


/// A format request that names a data file creates exactly that file, as
/// the last argument of the command; the node's configured file is used
/// only when the request names none.
pub proof fn law_format_creates_requested_file(req: FormatRequest, state: ManagerState)
    ensures
        req.data_file_path@.len() > 0 ==> format_path(req, state) == req.data_file_path@,
        req.data_file_path@.len() == 0 ==> format_path(req, state) == state.backup_file@,
        format_args(req, format_path(req, state)).last() == format_path(req, state),
        format_args(req, format_path(req, state))[0] == "format"@,
{
}

/// An account page's filter keeps exactly the accounts that meet each of
/// its set fields (an id or 128-bit user data that is not decimal sets
/// nothing), in their order; with no filter every account is kept.
pub proof fn law_account_filter(s: Seq<Account>, f: AccountFilter)
    ensures
        filter_accounts(s, None) == s,
        filter_accounts(s, Some(f)) == s.filter(
            |a: Account|
                (text_filter(f.id) matches Some(v) ==> a.id == v) && (f.ledger matches Some(l) ==> a.ledger
                    == l) && (f.code matches Some(c) ==> a.code as u32 == c) && (f.flags matches Some(fl)
                    ==> a.flags.0 as u32 == fl) && (f.user_data_32 matches Some(u) ==> a.user_data_32 == u)
                    && (f.user_data_64 matches Some(u) ==> a.user_data_64 == u) && (text_filter(
                    f.user_data_128,
                ) matches Some(v) ==> a.user_data_128 == v),
        ),
        forall|k: int|
            0 <= k < filter_accounts(s, Some(f)).len() ==> {
                let a = #[trigger] filter_accounts(s, Some(f))[k];
                &&& f.code matches Some(c) ==> a.code as u32 == c
                &&& f.ledger matches Some(l) ==> a.ledger == l
                &&& s.contains(a)
            },
    decreases s.len(),
{
    reveal(Seq::filter);
    let pred = |a: Account|
        (text_filter(f.id) matches Some(v) ==> a.id == v) && (f.ledger matches Some(l) ==> a.ledger == l)
            && (f.code matches Some(c) ==> a.code as u32 == c) && (f.flags matches Some(fl) ==> a.flags.0 as u32
            == fl) && (f.user_data_32 matches Some(u) ==> a.user_data_32 == u) && (f.user_data_64 matches Some(
            u,
        ) ==> a.user_data_64 == u) && (text_filter(f.user_data_128) matches Some(v) ==> a.user_data_128 == v);
    if s.len() > 0 {
        law_account_filter(s.drop_last(), f);
        assert(pred(s.last()) == account_matches(s.last(), f));
        let r = filter_accounts(s, Some(f));
        let rp = filter_accounts(s.drop_last(), Some(f));
        assert forall|k: int| 0 <= k < r.len() implies {
            let a = #[trigger] r[k];
            &&& f.code matches Some(c) ==> a.code as u32 == c
            &&& f.ledger matches Some(l) ==> a.ledger == l
            &&& s.contains(a)
        } by {
            if k < rp.len() {
                assert(r[k] == rp[k]);
                let j = choose|j: int| 0 <= j < s.drop_last().len() && s.drop_last()[j] == rp[k];
                assert(s[j] == s.drop_last()[j]);
            } else {
                assert(r[k] == s.last());
                assert(s[s.len() - 1] == s.last());
            }
        }
    } else {
        assert(s.filter(pred) == s);
    }
}


/// A synthetic-transfer page's ledger filter keeps exactly the transfers
/// on that ledger, in their order; with no ledger every transfer is kept.
pub proof fn law_synthetic_filter(s: Seq<SyntheticTransfer>, ledger: u32)
    ensures
        filter_synthetic(s, None) == s,
        filter_synthetic(s, Some(ledger)) == s.filter(|t: SyntheticTransfer| t.ledger == ledger),
    decreases s.len(),
{
    reveal(Seq::filter);
    if s.len() > 0 {
        law_synthetic_filter(s.drop_last(), ledger);
    } else {
        assert(s.filter(|t: SyntheticTransfer| t.ledger == ledger) == s);
    }
}

} // verus!
