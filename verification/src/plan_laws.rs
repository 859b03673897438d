//! Properties that every migration plan has.

use vstd::prelude::*;
use crate::sort::{Key3, key_leq, lemma_key_leq_total};
use vstd::multiset::Multiset;
use vstd::relations::sorted_by;
use crate::types::{Account, Transfer};
use crate::import::spec_convert_transfer;
use crate::plan::{
    account_keys, dedup_at, genesis_accounts_for, genesis_credit_id, genesis_debit_id,
    is_active, lemma_dedup_increasing, lemma_dedup_floor, max_active_timestamp,
    ordered_accounts, plan_ledgers, regular_accounts_for, regular_fits, synthetic_transfers_for,
    timestamps_of, transfers_for, SyntheticTransfer, with_timestamp,
    plan_synthetic_transfers, plan_transfer_floor, snapshot_fits, adjusted_accounts,
    adjusted_account, credit_total, debit_total, lemma_totals_nonneg, distinct_firsts,
    ledger_keys,
};

verus! {

/// Genesis accounts get the timestamps `1, 2, ..., 2K` in order, and each
/// ledger's credit genesis precedes its debit genesis.
pub proof fn law_genesis_timestamps(ls: Seq<u32>)
    requires
        2 * ls.len() <= u64::MAX,
    ensures
        forall|k: int|
            0 <= k < genesis_accounts_for(ls).len() ==> #[trigger] genesis_accounts_for(ls)[k].timestamp
                == k + 1,
        forall|i: int|
            0 <= i < ls.len() ==> genesis_accounts_for(ls)[2 * i].id == genesis_credit_id(ls[i])
                && genesis_accounts_for(ls)[2 * i + 1].id == genesis_debit_id(ls[i]),
{
    assert forall|i: int| 0 <= i < ls.len() implies genesis_accounts_for(ls)[2 * i].id
        == genesis_credit_id(ls[i]) && genesis_accounts_for(ls)[2 * i + 1].id == genesis_debit_id(
        ls[i],
    ) by {
        assert((2 * i) / 2 == i);
        assert((2 * i + 1) / 2 == i);
        assert((2 * i) % 2 == 0);
        assert((2 * i + 1) % 2 == 1);
    }
}

/// Regular account timestamps strictly increase and all lie above the
/// genesis timestamps `1 ..= 2K`.
pub proof fn law_regular_timestamps_increase(a: Seq<Account>)
    requires
        regular_fits(a),
    ensures
        forall|j: int, k: int|
            0 <= j < k < regular_accounts_for(a).len() ==> #[trigger] regular_accounts_for(a)[j].timestamp
                < #[trigger] regular_accounts_for(a)[k].timestamp,
        forall|k: int|
            0 <= k < regular_accounts_for(a).len() ==> #[trigger] regular_accounts_for(a)[k].timestamp
                > 2 * plan_ledgers(a).len(),
{
    let o = ordered_accounts(a);
    let ts = timestamps_of(o);
    let floor = 2 * plan_ledgers(a).len() as int;
    let r = regular_accounts_for(a);
    assert forall|k: int| 0 <= k < r.len() implies #[trigger] dedup_at(ts, floor, k as nat)
        <= u64::MAX && dedup_at(ts, floor, k as nat) >= floor + k + 1 by {
        lemma_dedup_floor(ts, floor, k as nat);
        if k < r.len() - 1 {
            lemma_dedup_increasing(ts, floor, k as nat, (r.len() - 1) as nat);
        }
    }
    assert forall|j: int, k: int| 0 <= j < k < r.len() implies #[trigger] r[j].timestamp
        < #[trigger] r[k].timestamp by {
        lemma_dedup_increasing(ts, floor, j as nat, k as nat);
    }
}

/// The `k`-th synthetic transfer has ID `k + 1` and timestamp
/// `floor + k + 1`: IDs and timestamps strictly increase from just above
/// the floor.
pub proof fn law_synthetic_numbering(r: Seq<Account>, floor: int)
    requires
        0 <= floor,
        floor + synthetic_transfers_for(r, floor).len() <= u64::MAX,
    ensures
        forall|k: int|
            0 <= k < synthetic_transfers_for(r, floor).len() ==> #[trigger] synthetic_transfers_for(
                r,
                floor,
            )[k].timestamp == floor + k + 1 && synthetic_transfers_for(r, floor)[k].id == k + 1,
    decreases r.len(),
{
    if r.len() > 0 {
        let p = synthetic_transfers_for(r.drop_last(), floor);
        law_synthetic_numbering(r.drop_last(), floor);
    }
}

/// Each account receives at most two synthetic transfers.
pub proof fn law_at_most_two_transfers_per_account(r: Seq<Account>, floor: int)
    ensures
        synthetic_transfers_for(r, floor).len() <= 2 * r.len(),
    decreases r.len(),
{
    if r.len() > 0 {
        law_at_most_two_transfers_per_account(r.drop_last(), floor);
    }
}


/// Sum of the amounts that the transfers `s` credit to `id`.
pub open spec fn credited_amount(s: Seq<SyntheticTransfer>, id: u128) -> int
    decreases s.len(),
{
    if s.len() == 0 {
        0
    } else {
        credited_amount(s.drop_last(), id) + if s.last().credit_account_id == id {
            s.last().amount as int
        } else {
            0
        }
    }
}

/// Sum of the amounts that the transfers `s` debit from `id`.
pub open spec fn debited_amount(s: Seq<SyntheticTransfer>, id: u128) -> int
    decreases s.len(),
{
    if s.len() == 0 {
        0
    } else {
        debited_amount(s.drop_last(), id) + if s.last().debit_account_id == id {
            s.last().amount as int
        } else {
            0
        }
    }
}

/// Sum of `credits_posted` over the accounts of `r` in `ledger`.
pub open spec fn ledger_credits(r: Seq<Account>, ledger: u32) -> int
    decreases r.len(),
{
    if r.len() == 0 {
        0
    } else {
        ledger_credits(r.drop_last(), ledger) + if r.last().ledger == ledger {
            r.last().credits_posted as int
        } else {
            0
        }
    }
}

/// Sum of `debits_posted` over the accounts of `r` in `ledger`.
pub open spec fn ledger_debits(r: Seq<Account>, ledger: u32) -> int
    decreases r.len(),
{
    if r.len() == 0 {
        0
    } else {
        ledger_debits(r.drop_last(), ledger) + if r.last().ledger == ledger {
            r.last().debits_posted as int
        } else {
            0
        }
    }
}

proof fn lemma_amounts_concat(a: Seq<SyntheticTransfer>, b: Seq<SyntheticTransfer>, id: u128)
    ensures
        credited_amount(a + b, id) == credited_amount(a, id) + credited_amount(b, id),
        debited_amount(a + b, id) == debited_amount(a, id) + debited_amount(b, id),
    decreases b.len(),
{
    if b.len() > 0 {
        assert((a + b).drop_last() =~= a + b.drop_last());
        lemma_amounts_concat(a, b.drop_last(), id);
    } else {
        assert(a + b =~= a);
    }
}

proof fn lemma_transfers_for_amounts(x: Account, n: int, floor: int, id: u128)
    ensures
        credited_amount(transfers_for(x, n, floor), id) == (if x.id == id {
            x.credits_posted as int
        } else {
            0
        }) + (if genesis_debit_id(x.ledger) == id {
            x.debits_posted as int
        } else {
            0
        }),
        debited_amount(transfers_for(x, n, floor), id) == (if genesis_credit_id(x.ledger) == id {
            x.credits_posted as int
        } else {
            0
        }) + (if x.id == id {
            x.debits_posted as int
        } else {
            0
        }),
{
    let t = transfers_for(x, n, floor);
    let e = Seq::<SyntheticTransfer>::empty();
    assert(credited_amount(e, id) == 0 && debited_amount(e, id) == 0);
    if x.credits_posted > 0 && x.debits_posted > 0 {
        assert(t.drop_last().drop_last() =~= e);
        assert(t.drop_last() =~= seq![t[0]]);
        assert(credited_amount(seq![t[0]], id) == credited_amount(e, id) + (if t[0].credit_account_id == id { t[0].amount as int } else { 0 }));
        assert(debited_amount(seq![t[0]], id) == debited_amount(e, id) + (if t[0].debit_account_id == id { t[0].amount as int } else { 0 }));
    } else if x.credits_posted > 0 || x.debits_posted > 0 {
        assert(t.drop_last() =~= e);
    } else {
        assert(t =~= e);
    }
}

/// The synthetic transfers of accounts none of which is `id`, nor has `id`
/// as a genesis ID of its ledger, move nothing into or out of `id`.
proof fn lemma_untouched(r: Seq<Account>, floor: int, id: u128)
    requires
        forall|j: int|
            0 <= j < r.len() ==> #[trigger] r[j].id != id && genesis_debit_id(r[j].ledger) != id
                && genesis_credit_id(r[j].ledger) != id,
    ensures
        credited_amount(synthetic_transfers_for(r, floor), id) == 0,
        debited_amount(synthetic_transfers_for(r, floor), id) == 0,
    decreases r.len(),
{
    if r.len() > 0 {
        let p = synthetic_transfers_for(r.drop_last(), floor);
        lemma_untouched(r.drop_last(), floor, id);
        lemma_amounts_concat(p, transfers_for(r.last(), p.len() as int, floor), id);
        lemma_transfers_for_amounts(r.last(), p.len() as int, floor, id);
        assert(r.last() == r[r.len() - 1]);
    }
}

/// Replaying the synthetic transfers on fresh accounts rebuilds every
/// regular account's posted balances exactly: the amounts credited to an
/// account sum to its `credits_posted` and the amounts debited from it to
/// its `debits_posted` (when account IDs are distinct and none is a genesis
/// ID).
pub proof fn law_balances_reconstructed(r: Seq<Account>, floor: int)
    requires
        forall|j: int, k: int| 0 <= j < k < r.len() ==> #[trigger] r[j].id != #[trigger] r[k].id,
        forall|j: int, k: int|
            0 <= j < r.len() && 0 <= k < r.len() ==> #[trigger] r[j].id != genesis_debit_id(
                #[trigger] r[k].ledger,
            ) && r[j].id != genesis_credit_id(r[k].ledger),
    ensures
        forall|k: int|
            0 <= k < r.len() ==> credited_amount(synthetic_transfers_for(r, floor), #[trigger] r[k].id)
                == r[k].credits_posted && debited_amount(synthetic_transfers_for(r, floor), r[k].id)
                == r[k].debits_posted,
    decreases r.len(),
{
    if r.len() > 0 {
        let rp = r.drop_last();
        let p = synthetic_transfers_for(rp, floor);
        let t = transfers_for(r.last(), p.len() as int, floor);
        law_balances_reconstructed(rp, floor);
        assert forall|k: int| 0 <= k < r.len() implies credited_amount(
            synthetic_transfers_for(r, floor),
            #[trigger] r[k].id,
        ) == r[k].credits_posted && debited_amount(synthetic_transfers_for(r, floor), r[k].id)
            == r[k].debits_posted by {
            let id = r[k].id;
            lemma_amounts_concat(p, t, id);
            lemma_transfers_for_amounts(r.last(), p.len() as int, floor, id);
            assert(r.last() == r[r.len() - 1]);
            assert(genesis_debit_id(r[r.len() - 1].ledger) != r[k].id);
            assert(genesis_credit_id(r[r.len() - 1].ledger) != r[k].id);
            if k == r.len() - 1 {
                assert forall|j: int| 0 <= j < rp.len() implies #[trigger] rp[j].id != id
                    && genesis_debit_id(rp[j].ledger) != id && genesis_credit_id(rp[j].ledger)
                    != id by {
                    assert(rp[j] == r[j]);
                }
                lemma_untouched(rp, floor, id);
            } else {
                assert(rp[k] == r[k]);
            }
        }
    }
}

/// The genesis accounts of a ledger balance the ledger: the credit genesis
/// is debited the sum of the ledger's `credits_posted` and the debit genesis
/// is credited the sum of its `debits_posted` (when no regular account uses
/// one of these genesis IDs).
pub proof fn law_genesis_totals(r: Seq<Account>, floor: int, ledger: u32)
    requires
        forall|j: int|
            0 <= j < r.len() ==> #[trigger] r[j].id != genesis_credit_id(ledger) && r[j].id
                != genesis_debit_id(ledger),
    ensures
        debited_amount(synthetic_transfers_for(r, floor), genesis_credit_id(ledger))
            == ledger_credits(r, ledger),
        credited_amount(synthetic_transfers_for(r, floor), genesis_debit_id(ledger))
            == ledger_debits(r, ledger),
    decreases r.len(),
{
    if r.len() > 0 {
        let rp = r.drop_last();
        let p = synthetic_transfers_for(rp, floor);
        let t = transfers_for(r.last(), p.len() as int, floor);
        assert forall|j: int| 0 <= j < rp.len() implies #[trigger] rp[j].id != genesis_credit_id(
            ledger,
        ) && rp[j].id != genesis_debit_id(ledger) by {
            assert(rp[j] == r[j]);
        }
        law_genesis_totals(rp, floor, ledger);
        assert(r.last() == r[r.len() - 1]);
        lemma_amounts_concat(p, t, genesis_credit_id(ledger));
        lemma_amounts_concat(p, t, genesis_debit_id(ledger));
        lemma_transfers_for_amounts(r.last(), p.len() as int, floor, genesis_credit_id(ledger));
        lemma_transfers_for_amounts(r.last(), p.len() as int, floor, genesis_debit_id(ledger));
    }
}


proof fn lemma_max_active(r: Seq<Account>)
    ensures
        forall|k: int|
            0 <= k < r.len() && is_active(#[trigger] r[k]) ==> max_active_timestamp(r) is Some
                && max_active_timestamp(r)->0 >= r[k].timestamp,
        max_active_timestamp(r) is Some ==> exists|k: int|
            0 <= k < r.len() && #[trigger] r[k].timestamp == max_active_timestamp(r)->0,
    decreases r.len(),
{
    if r.len() > 0 {
        let rp = r.drop_last();
        lemma_max_active(rp);
        assert forall|k: int| 0 <= k < rp.len() implies #[trigger] rp[k] == r[k] by {}
        assert forall|k: int|
            0 <= k < r.len() && is_active(#[trigger] r[k]) implies max_active_timestamp(r) is Some
                && max_active_timestamp(r)->0 >= r[k].timestamp by {
            if k < rp.len() {
                assert(rp[k] == r[k]);
            }
        }
        if max_active_timestamp(r) is Some {
            if max_active_timestamp(r)->0 == r.last().timestamp {
                assert(r[r.len() - 1].timestamp == max_active_timestamp(r)->0);
            } else {
                let k = choose|k: int| 0 <= k < rp.len() && #[trigger] rp[k].timestamp
                    == max_active_timestamp(rp)->0;
                assert(r[k].timestamp == max_active_timestamp(r)->0);
            }
        }
    }
}

/// Whether some account of `r` is `x` with another timestamp.
pub open spec fn has_retimestamped_copy(r: Seq<Account>, x: Account) -> bool {
    exists|k: int| 0 <= k < r.len() && r[k] == with_timestamp(x, r[k].timestamp)
}

/// The plan for `a` has exactly one regular account per input account, and
/// each keeps every field of its input account except the timestamp.
pub proof fn law_regular_accounts_are_inputs(a: Seq<Account>)
    requires
        a.len() <= u64::MAX,
    ensures
        regular_accounts_for(a).len() == a.len(),
        forall|i: int|
            0 <= i < a.len() ==> #[trigger] has_retimestamped_copy(regular_accounts_for(a), a[i]),
{
    broadcast use vstd::seq_lib::group_to_multiset_ensures;

    let keys = account_keys(a);
    keys.lemma_sort_by_ensures(key_leq());
    let ks = keys.sort_by(key_leq());
    assert(ks.len() == ks.to_multiset().len());
    assert(keys.len() == keys.to_multiset().len());
    assert forall|i: int| 0 <= i < a.len() implies #[trigger] has_retimestamped_copy(
        regular_accounts_for(a),
        a[i],
    ) by {
        assert(keys[i] == (a[i].timestamp, a[i].ledger as u64, i as u64));
        assert(keys.contains(keys[i]));
        assert(keys.to_multiset().count(keys[i]) > 0);
        assert(ks.contains(keys[i]));
        let k = choose|k: int| 0 <= k < ks.len() && ks[k] == keys[i];
        assert(ordered_accounts(a)[k] == a[i]);
        assert(regular_accounts_for(a)[k] == with_timestamp(
            a[i],
            regular_accounts_for(a)[k].timestamp,
        ));
    }
}

/// Every synthetic transfer postdates the genesis accounts and every account
/// with a non-zero posted balance (so both accounts it moves funds between);
/// in snapshot mode it postdates every regular account.
pub proof fn law_transfers_postdate_accounts(a: Seq<Account>, windowed: bool)
    requires
        snapshot_fits(a, windowed),
    ensures
        ({
            let r = regular_accounts_for(a);
            let s = plan_synthetic_transfers(a, windowed);
            &&& forall|j: int| 0 <= j < s.len() ==> #[trigger] s[j].timestamp > 2 * plan_ledgers(a).len()
            &&& forall|j: int, k: int|
                0 <= j < s.len() && 0 <= k < r.len() && (is_active(r[k]) || !windowed)
                    ==> #[trigger] s[j].timestamp > #[trigger] r[k].timestamp
        }),
{
    let r = regular_accounts_for(a);
    let s = plan_synthetic_transfers(a, windowed);
    let gmax = 2 * plan_ledgers(a).len() as int;
    let floor = plan_transfer_floor(a, windowed);
    law_regular_timestamps_increase(a);
    lemma_max_active(r);
    law_synthetic_numbering(r, floor);
    assert(floor >= gmax) by {
        if windowed {
            if max_active_timestamp(r) is Some {
                let k = choose|k: int| 0 <= k < r.len() && #[trigger] r[k].timestamp
                    == max_active_timestamp(r)->0;
                assert(r[k].timestamp > gmax);
            }
        } else if r.len() > 0 {
            assert(r[r.len() - 1].timestamp > gmax);
        }
    }
    assert forall|j: int, k: int|
        0 <= j < s.len() && 0 <= k < r.len() && (is_active(r[k]) || !windowed) implies #[trigger] s[j].timestamp
        > #[trigger] r[k].timestamp by {
        if !windowed && k < r.len() - 1 {
            assert(r[k].timestamp < r[r.len() - 1].timestamp);
        }
    }
}

/// Positions of `a` in the order of its regular accounts: each is a valid
/// position, no position comes twice, and the `k`-th ordered account is the
/// account at the `k`-th position.
proof fn lemma_ordered_positions(a: Seq<Account>)
    requires
        a.len() <= u64::MAX,
    ensures
        ({
            let ks = account_keys(a).sort_by(key_leq());
            &&& ks.len() == a.len()
            &&& forall|k: int| 0 <= k < ks.len() ==> 0 <= #[trigger] ks[k].2 < a.len()
            &&& forall|k: int|
                0 <= k < ks.len() ==> #[trigger] ordered_accounts(a)[k] == a[ks[k].2 as int]
            &&& forall|j: int, k: int| 0 <= j < k < ks.len() ==> #[trigger] ks[j].2 != #[trigger] ks[k].2
            &&& forall|k: int| 0 <= k < ks.len() ==> account_keys(a)[#[trigger] ks[k].2 as int] == ks[k]
            &&& sorted_by(ks, key_leq())
            &&& ks.to_multiset() == account_keys(a).to_multiset()
        }),
{
    broadcast use vstd::seq_lib::group_to_multiset_ensures;

    lemma_key_leq_total();
    let keys = account_keys(a);
    keys.lemma_sort_by_ensures(key_leq());
    let ks = keys.sort_by(key_leq());
    assert(ks.len() == ks.to_multiset().len());
    assert(keys.len() == keys.to_multiset().len());
    assert forall|k: int| 0 <= k < ks.len() implies 0 <= #[trigger] ks[k].2 < a.len() && keys[ks[k].2 as int]
        == ks[k] by {
        assert(ks.contains(ks[k]));
        assert(ks.to_multiset().count(ks[k]) > 0);
        assert(keys.to_multiset().count(ks[k]) > 0);
        assert(keys.contains(ks[k]));
        let i = choose|i: int| 0 <= i < keys.len() && keys[i] == ks[k];
        assert(keys[i].2 == i);
    }
    assert(keys.no_duplicates()) by {
        assert forall|i: int, j: int| 0 <= i < keys.len() && 0 <= j < keys.len() && i != j implies keys[i]
            != keys[j] by {
            assert(keys[i].2 == i && keys[j].2 == j);
        }
    }
    keys.lemma_multiset_has_no_duplicates();
    ks.lemma_multiset_has_no_duplicates_conv();
    assert forall|j: int, k: int| 0 <= j < k < ks.len() implies #[trigger] ks[j].2 != #[trigger] ks[k].2 by {
        if ks[j].2 == ks[k].2 {
            assert(keys[ks[j].2 as int] == ks[j]);
            assert(keys[ks[k].2 as int] == ks[k]);
        }
    }
}

/// Whether the accounts of `a` have distinct ids, none of which is the id
/// of a genesis account of a ledger of `a`.
pub open spec fn ids_distinct_from_genesis(a: Seq<Account>) -> bool {
    &&& forall|j: int, k: int| 0 <= j < k < a.len() ==> #[trigger] a[j].id != #[trigger] a[k].id
    &&& forall|j: int, k: int|
        0 <= j < a.len() && 0 <= k < a.len() ==> #[trigger] a[j].id != genesis_debit_id(
            #[trigger] a[k].ledger,
        ) && a[j].id != genesis_credit_id(a[k].ledger)
}

/// A plan's synthetic transfers credit each input account exactly its
/// `credits_posted` and debit it exactly its `debits_posted` (input ids
/// distinct and apart from the genesis ids).
pub proof fn law_plan_balances(a: Seq<Account>, windowed: bool)
    requires
        a.len() <= u64::MAX,
        ids_distinct_from_genesis(a),
    ensures
        forall|i: int|
            0 <= i < a.len() ==> credited_amount(plan_synthetic_transfers(a, windowed), #[trigger] a[i].id)
                == a[i].credits_posted && debited_amount(plan_synthetic_transfers(a, windowed), a[i].id)
                == a[i].debits_posted,
{
    let ks = account_keys(a).sort_by(key_leq());
    let r = regular_accounts_for(a);
    let o = ordered_accounts(a);
    lemma_ordered_positions(a);
    assert forall|k: int| 0 <= k < r.len() implies #[trigger] r[k].id == a[ks[k].2 as int].id && r[k].ledger
        == a[ks[k].2 as int].ledger && r[k].credits_posted == a[ks[k].2 as int].credits_posted
        && r[k].debits_posted == a[ks[k].2 as int].debits_posted by {
        assert(o[k] == a[ks[k].2 as int]);
    }
    assert forall|j: int, k: int| 0 <= j < k < r.len() implies #[trigger] r[j].id != #[trigger] r[k].id by {
        let x = ks[j].2 as int;
        let y = ks[k].2 as int;
        assert(x != y);
        if x < y {
            assert(a[x].id != a[y].id);
        } else {
            assert(a[y].id != a[x].id);
        }
    }
    assert forall|j: int, k: int| 0 <= j < r.len() && 0 <= k < r.len() implies #[trigger] r[j].id
        != genesis_debit_id(#[trigger] r[k].ledger) && r[j].id != genesis_credit_id(r[k].ledger) by {
        assert(a[ks[j].2 as int].id != genesis_debit_id(a[ks[k].2 as int].ledger));
    }
    law_balances_reconstructed(r, plan_transfer_floor(a, windowed));
    assert forall|i: int| 0 <= i < a.len() implies credited_amount(
        plan_synthetic_transfers(a, windowed),
        #[trigger] a[i].id,
    ) == a[i].credits_posted && debited_amount(plan_synthetic_transfers(a, windowed), a[i].id)
        == a[i].debits_posted by {
        lemma_position_of(ks, a.len() as int, i);
        let k = choose|k: int| 0 <= k < ks.len() && ks[k].2 == i;
        assert(r[k].id == a[i].id);
    }
}

/// Among `n` distinct positions below `n`, each position below `n` occurs.
proof fn lemma_position_of(ks: Seq<Key3>, n: int, i: int)
    requires
        ks.len() == n,
        0 <= i < n,
        forall|k: int| 0 <= k < ks.len() ==> 0 <= #[trigger] ks[k].2 < n,
        forall|j: int, k: int| 0 <= j < k < ks.len() ==> #[trigger] ks[j].2 != #[trigger] ks[k].2,
    ensures
        exists|k: int| 0 <= k < ks.len() && ks[k].2 == i,
{
    let f = |k: int| ks[k].2 as int;
    if !(exists|k: int| 0 <= k < ks.len() && ks[k].2 == i) {
        let pos = Set::new(|k: int| 0 <= k < n);
        let img = Set::new(|v: int| 0 <= v < n && v != i);
        assert(pos =~= vstd::set_lib::set_int_range(0, n));
        assert(img.subset_of(vstd::set_lib::set_int_range(0, n)));
        vstd::set_lib::lemma_int_range(0, n);
        assert(img =~= vstd::set_lib::set_int_range(0, n).remove(i));
        assert(img.len() == n - 1);
        assert forall|a: int, b: int| pos.contains(a) && pos.contains(b) && #[trigger] f(a) == #[trigger] f(b) implies a == b by {
            if a < b {
                assert(ks[a].2 != ks[b].2);
            } else if b < a {
                assert(ks[b].2 != ks[a].2);
            }
        }
        let im = pos.map(f);
        assert(pos.finite() && pos.len() == n);
        vstd::set_lib::lemma_map_size(pos, im, f);
        assert(im.subset_of(img)) by {
            assert forall|v: int| im.contains(v) implies img.contains(v) by {
                let k = choose|k: int| pos.contains(k) && f(k) == v;
                assert(0 <= ks[k].2 < n);
            }
        }
        vstd::set_lib::lemma_len_subset(im, img);
        assert(false);
    }
}

/// Replaying the window after the synthetic transfers of a time-window
/// plan restores the final balances: for an account created before the
/// cutoff whose window movements do not exceed its final balances, the
/// synthetic transfers plus the window's movements equal its final posted
/// balances; an account created in the window gets no synthetic transfer,
/// so the window alone makes its balances.
pub proof fn law_window_replay_restores(a: Seq<Account>, wt: Seq<Transfer>, cutoff: u64)
    requires
        a.len() <= u64::MAX,
        ids_distinct_from_genesis(a),
    ensures
        forall|i: int|
            0 <= i < a.len() && a[i].timestamp < cutoff && debit_total(wt, a[i].id)
                <= a[i].debits_posted && credit_total(wt, a[i].id) <= a[i].credits_posted
                ==> credited_amount(
                plan_synthetic_transfers(adjusted_accounts(a, wt, cutoff), true),
                #[trigger] a[i].id,
            ) + credit_total(wt, a[i].id) == a[i].credits_posted && debited_amount(
                plan_synthetic_transfers(adjusted_accounts(a, wt, cutoff), true),
                a[i].id,
            ) + debit_total(wt, a[i].id) == a[i].debits_posted,
        forall|i: int|
            0 <= i < a.len() && a[i].timestamp >= cutoff ==> credited_amount(
                plan_synthetic_transfers(adjusted_accounts(a, wt, cutoff), true),
                #[trigger] a[i].id,
            ) == 0 && debited_amount(
                plan_synthetic_transfers(adjusted_accounts(a, wt, cutoff), true),
                a[i].id,
            ) == 0,
{
    let adj = adjusted_accounts(a, wt, cutoff);
    assert forall|k: int| 0 <= k < adj.len() implies #[trigger] adj[k].id == a[k].id && adj[k].ledger
        == a[k].ledger by {}
    assert forall|j: int, k: int| 0 <= j < k < adj.len() implies #[trigger] adj[j].id != #[trigger] adj[k].id by {
        assert(a[j].id != a[k].id);
    }
    assert forall|j: int, k: int| 0 <= j < adj.len() && 0 <= k < adj.len() implies #[trigger] adj[j].id
        != genesis_debit_id(#[trigger] adj[k].ledger) && adj[j].id != genesis_credit_id(adj[k].ledger) by {
        assert(a[j].id != genesis_debit_id(a[k].ledger));
    }
    law_plan_balances(adj, true);
    let s = plan_synthetic_transfers(adj, true);
    assert forall|i: int|
        0 <= i < a.len() && a[i].timestamp < cutoff && debit_total(wt, a[i].id) <= a[i].debits_posted
            && credit_total(wt, a[i].id) <= a[i].credits_posted implies credited_amount(
        s,
        #[trigger] a[i].id,
    ) + credit_total(wt, a[i].id) == a[i].credits_posted && debited_amount(s, a[i].id)
        + debit_total(wt, a[i].id) == a[i].debits_posted by {
        assert(adj[i] == adjusted_account(a[i], wt, cutoff));
        assert(adj[i].id == a[i].id);
        assert(credited_amount(s, adj[i].id) == adj[i].credits_posted);
        assert(debited_amount(s, adj[i].id) == adj[i].debits_posted);
        lemma_totals_nonneg(wt, a[i].id);
    }
    assert forall|i: int| 0 <= i < a.len() && a[i].timestamp >= cutoff implies credited_amount(
        s,
        #[trigger] a[i].id,
    ) == 0 && debited_amount(s, a[i].id) == 0 by {
        assert(adj[i] == adjusted_account(a[i], wt, cutoff));
        assert(adj[i].id == a[i].id);
        assert(credited_amount(s, adj[i].id) == adj[i].credits_posted);
    }
}

/// `x` with its timestamp cleared: what a plan keeps of an account.
pub open spec fn without_timestamp(x: Account) -> Account {
    with_timestamp(x, 0)
}

/// [`without_timestamp`] as a function value.
pub open spec fn timestamp_cleared() -> spec_fn(Account) -> Account {
    |x: Account| without_timestamp(x)
}

/// Adding the image of an item to a multiset, as a fold step.
pub open spec fn insert_image<A, B>(f: spec_fn(A) -> B) -> spec_fn(Multiset<B>, A) -> Multiset<B> {
    |m: Multiset<B>, x: A| m.insert(f(x))
}

proof fn lemma_fold_multiset<A, B>(s: Seq<A>, f: spec_fn(A) -> B)
    ensures
        s.fold_left(Multiset::<B>::empty(), insert_image(f)) == s.map_values(f).to_multiset(),
    decreases s.len(),
{
    broadcast use vstd::seq_lib::group_to_multiset_ensures;

    if s.len() > 0 {
        lemma_fold_multiset(s.drop_last(), f);
        assert(s.map_values(f) =~= s.drop_last().map_values(f).push(f(s.last())));
    } else {
        assert(s.map_values(f) =~= Seq::<B>::empty());
        assert(s.map_values(f).to_multiset().len() == 0);
        assert(s.map_values(f).to_multiset() =~= Multiset::<B>::empty());
    }
}

/// Sequences with the same items keep the same items under a map.
proof fn lemma_mapped_multiset<A, B>(s1: Seq<A>, s2: Seq<A>, f: spec_fn(A) -> B)
    requires
        s1.to_multiset() == s2.to_multiset(),
    ensures
        s1.map_values(f).to_multiset() == s2.map_values(f).to_multiset(),
{
    let g = insert_image(f);
    assert(vstd::seq_lib::commutative_foldl(g)) by {
        assert forall|x: A, y: A, v: Multiset<B>| #[trigger] g(g(v, x), y) == g(g(v, y), x) by {
            assert(v.insert(f(x)).insert(f(y)) =~= v.insert(f(y)).insert(f(x)));
        }
    }
    vstd::seq_lib::lemma_fold_left_permutation(s1, s2, g, Multiset::<B>::empty());
    lemma_fold_multiset(s1, f);
    lemma_fold_multiset(s2, f);
}

/// A plan's regular accounts are its input accounts, each exactly once,
/// with nothing but timestamps changed: the two agree as multisets once
/// timestamps are cleared. For a time-window plan the inputs are the
/// accounts adjusted to the cutoff (`adjusted_accounts`).
pub proof fn law_regular_accounts_permute_inputs(a: Seq<Account>)
    requires
        a.len() <= u64::MAX,
    ensures
        regular_accounts_for(a).map_values(timestamp_cleared()).to_multiset() == a.map_values(
            timestamp_cleared(),
        ).to_multiset(),
{
    let keys = account_keys(a);
    let ks = keys.sort_by(key_leq());
    lemma_ordered_positions(a);
    let g = |k: Key3| without_timestamp(a[k.2 as int]);
    lemma_mapped_multiset(ks, keys, g);
    assert(keys.map_values(g) =~= a.map_values(timestamp_cleared()));
    let r = regular_accounts_for(a);
    let o = ordered_accounts(a);
    assert forall|k: int| 0 <= k < r.len() implies #[trigger] r.map_values(timestamp_cleared())[k]
        == ks.map_values(g)[k] by {
        assert(o[k] == a[ks[k].2 as int]);
    }
    assert(r.map_values(timestamp_cleared()) =~= ks.map_values(g));
}

/// Regular accounts keep the order of their inputs by timestamp, and a
/// regular account's timestamp is its input's timestamp raised, where
/// needed, to one past the previous account's (or past the `2K` genesis
/// accounts for the first): it never falls below the input's.
pub proof fn law_regular_timestamps_from_inputs(a: Seq<Account>)
    requires
        a.len() <= u64::MAX,
        regular_fits(a),
    ensures
        ({
            let o = ordered_accounts(a);
            let r = regular_accounts_for(a);
            let g = 2 * plan_ledgers(a).len();
            &&& r.len() == o.len()
            &&& forall|j: int, k: int| 0 <= j < k < o.len() ==> #[trigger] o[j].timestamp <= #[trigger] o[k].timestamp
            &&& forall|k: int| 0 <= k < r.len() ==> #[trigger] r[k] == with_timestamp(o[k], r[k].timestamp)
            &&& forall|k: int| 0 <= k < r.len() ==> #[trigger] r[k].timestamp >= o[k].timestamp
            &&& r.len() > 0 ==> r[0].timestamp == if o[0].timestamp > g { o[0].timestamp as int } else { g + 1int }
            &&& forall|k: int|
                0 < k < r.len() ==> #[trigger] r[k].timestamp == if o[k].timestamp > r[k - 1].timestamp {
                    o[k].timestamp as int
                } else {
                    r[k - 1].timestamp + 1
                }
        }),
{
    let keys = account_keys(a);
    let ks = keys.sort_by(key_leq());
    lemma_ordered_positions(a);
    let o = ordered_accounts(a);
    let r = regular_accounts_for(a);
    let ts = timestamps_of(o);
    let floor = 2 * plan_ledgers(a).len() as int;
    assert forall|j: int, k: int| 0 <= j < k < o.len() implies #[trigger] o[j].timestamp <= #[trigger] o[k].timestamp by {
        assert(key_leq()(ks[j], ks[k]));
        assert(keys[ks[j].2 as int] == ks[j]);
        assert(keys[ks[k].2 as int] == ks[k]);
    }
    assert forall|k: int| 0 <= k < r.len() implies #[trigger] dedup_at(ts, floor, k as nat) <= u64::MAX by {
        if k < r.len() - 1 {
            lemma_dedup_increasing(ts, floor, k as nat, (r.len() - 1) as nat);
        }
    }
    assert forall|k: int| 0 <= k < r.len() implies #[trigger] r[k].timestamp >= o[k].timestamp by {
        assert(ts[k] == o[k].timestamp);
        lemma_dedup_floor(ts, floor, k as nat);
    }
    assert forall|k: int| 0 < k < r.len() implies #[trigger] r[k].timestamp == if o[k].timestamp
        > r[k - 1].timestamp {
        o[k].timestamp as int
    } else {
        r[k - 1].timestamp + 1
    } by {
        assert(ts[k] == o[k].timestamp);
        lemma_dedup_floor(ts, floor, (k - 1) as nat);
    }
    if r.len() > 0 {
        assert(ts[0] == o[0].timestamp);
    }
}

/// In a time-window plan, when the synthetic transfers' floor (the largest
/// timestamp of an account with a balance, or `2K`) plus their number stays
/// below the cutoff, every synthetic transfer is timestamped before the
/// cutoff.
pub proof fn law_synthetic_before_cutoff(a: Seq<Account>, wt: Seq<Transfer>, cutoff: u64)
    requires
        ({
            let adj = adjusted_accounts(a, wt, cutoff);
            plan_transfer_floor(adj, true) + plan_synthetic_transfers(adj, true).len() < cutoff
        }),
    ensures
        ({
            let s = plan_synthetic_transfers(adjusted_accounts(a, wt, cutoff), true);
            forall|k: int| 0 <= k < s.len() ==> #[trigger] s[k].timestamp < cutoff
        }),
{
    let adj = adjusted_accounts(a, wt, cutoff);
    let r = regular_accounts_for(adj);
    let floor = plan_transfer_floor(adj, true);
    assert(floor >= 0) by {
        lemma_max_active_nonneg(r);
    }
    law_synthetic_numbering(r, floor);
}

proof fn lemma_max_active_nonneg(r: Seq<Account>)
    ensures
        max_active_timestamp(r) matches Some(t) ==> t >= 0,
{
}

/// Position, among the inputs `a`, of the account that became the `k`-th
/// regular account.
pub open spec fn regular_source(a: Seq<Account>, k: int) -> int {
    account_keys(a).sort_by(key_leq())[k].2 as int
}

/// Each regular account is an input with another timestamp.
proof fn lemma_regular_sources(a: Seq<Account>)
    requires
        a.len() <= u64::MAX,
    ensures
        regular_accounts_for(a).len() == a.len(),
        forall|k: int|
            0 <= k < regular_accounts_for(a).len() ==> 0 <= regular_source(a, k) < a.len()
                && #[trigger] regular_accounts_for(a)[k] == with_timestamp(
                a[regular_source(a, k)],
                regular_accounts_for(a)[k].timestamp,
            ),
        forall|j: int, k: int|
            0 <= j < k < regular_accounts_for(a).len() ==> regular_source(a, j) != regular_source(
                a,
                k,
            ),
{
    let ks = account_keys(a).sort_by(key_leq());
    let r = regular_accounts_for(a);
    let o = ordered_accounts(a);
    lemma_ordered_positions(a);
    assert forall|k: int| 0 <= k < r.len() implies 0 <= regular_source(a, k) < a.len()
        && #[trigger] r[k] == with_timestamp(a[regular_source(a, k)], r[k].timestamp) by {
        assert(o[k] == a[ks[k].2 as int]);
    }
}

/// The regular accounts of a plan have distinct ids apart from the genesis
/// ids when the inputs do.
proof fn lemma_regular_ids(a: Seq<Account>)
    requires
        a.len() <= u64::MAX,
        ids_distinct_from_genesis(a),
    ensures
        ids_distinct_from_genesis(regular_accounts_for(a)),
{
    let r = regular_accounts_for(a);
    lemma_regular_sources(a);
    assert forall|j: int, k: int| 0 <= j < k < r.len() implies #[trigger] r[j].id != #[trigger] r[k].id by {
        let x = regular_source(a, j);
        let y = regular_source(a, k);
        assert(r[j] == with_timestamp(a[x], r[j].timestamp));
        assert(r[k] == with_timestamp(a[y], r[k].timestamp));
        if x < y {
            assert(a[x].id != a[y].id);
        } else {
            assert(a[y].id != a[x].id);
        }
    }
    assert forall|j: int, k: int| 0 <= j < r.len() && 0 <= k < r.len() implies #[trigger] r[j].id
        != genesis_debit_id(#[trigger] r[k].ledger) && r[j].id != genesis_credit_id(r[k].ledger) by {
        assert(r[j] == with_timestamp(a[regular_source(a, j)], r[j].timestamp));
        assert(r[k] == with_timestamp(a[regular_source(a, k)], r[k].timestamp));
        assert(a[regular_source(a, j)].id != genesis_debit_id(a[regular_source(a, k)].ledger));
    }
}

/// Sum of `f` over the accounts of `s`.
pub open spec fn account_sum(s: Seq<Account>, f: spec_fn(Account) -> int) -> int
    decreases s.len(),
{
    if s.len() == 0 {
        0
    } else {
        account_sum(s.drop_last(), f) + f(s.last())
    }
}

/// Adding `f` of an account, as a fold step.
pub open spec fn sum_step(f: spec_fn(Account) -> int) -> spec_fn(int, Account) -> int {
    |acc: int, x: Account| acc + f(x)
}

proof fn lemma_account_sum_fold(s: Seq<Account>, f: spec_fn(Account) -> int)
    ensures
        account_sum(s, f) == s.fold_left(0int, sum_step(f)),
    decreases s.len(),
{
    if s.len() > 0 {
        lemma_account_sum_fold(s.drop_last(), f);
    }
}

proof fn lemma_account_sum_cleared(s: Seq<Account>, f: spec_fn(Account) -> int)
    requires
        forall|x: Account| #[trigger] f(without_timestamp(x)) == f(x),
    ensures
        account_sum(s.map_values(timestamp_cleared()), f) == account_sum(s, f),
    decreases s.len(),
{
    if s.len() > 0 {
        lemma_account_sum_cleared(s.drop_last(), f);
        assert(s.map_values(timestamp_cleared()).drop_last() =~= s.drop_last().map_values(
            timestamp_cleared(),
        ));
        assert(f(without_timestamp(s.last())) == f(s.last()));
    }
}

/// A sum over accounts that does not look at timestamps is the same over a
/// plan's regular accounts as over its inputs.
proof fn lemma_sum_over_regular(a: Seq<Account>, f: spec_fn(Account) -> int)
    requires
        a.len() <= u64::MAX,
        forall|x: Account| #[trigger] f(without_timestamp(x)) == f(x),
    ensures
        account_sum(regular_accounts_for(a), f) == account_sum(a, f),
{
    let r = regular_accounts_for(a);
    law_regular_accounts_permute_inputs(a);
    let g = sum_step(f);
    assert(vstd::seq_lib::commutative_foldl(g)) by {
        assert forall|x: Account, y: Account, v: int| #[trigger] g(g(v, x), y) == g(g(v, y), x) by {}
    }
    let rc = r.map_values(timestamp_cleared());
    let ac = a.map_values(timestamp_cleared());
    vstd::seq_lib::lemma_fold_left_permutation(rc, ac, g, 0int);
    lemma_account_sum_fold(rc, f);
    lemma_account_sum_fold(ac, f);
    lemma_account_sum_cleared(r, f);
    lemma_account_sum_cleared(a, f);
}

/// Number of non-zero posted balances of `x` (0, 1 or 2).
pub open spec fn balance_sides(x: Account) -> int {
    (if x.credits_posted > 0 { 1int } else { 0int }) + (if x.debits_posted > 0 { 1int } else { 0int })
}

/// [`balance_sides`] as a function value.
pub open spec fn balance_sides_fn() -> spec_fn(Account) -> int {
    |x: Account| balance_sides(x)
}

proof fn lemma_balance_sides_bound(s: Seq<Account>)
    ensures
        0 <= account_sum(s, balance_sides_fn()) <= 2 * s.len(),
    decreases s.len(),
{
    if s.len() > 0 {
        lemma_balance_sides_bound(s.drop_last());
    }
}

/// Number of the transfers `s` that debit or credit `id`.
pub open spec fn touching(s: Seq<SyntheticTransfer>, id: u128) -> int
    decreases s.len(),
{
    if s.len() == 0 {
        0
    } else {
        touching(s.drop_last(), id) + if s.last().debit_account_id == id || s.last().credit_account_id
            == id {
            1int
        } else {
            0int
        }
    }
}

proof fn lemma_touching_concat(a: Seq<SyntheticTransfer>, b: Seq<SyntheticTransfer>, id: u128)
    ensures
        touching(a + b, id) == touching(a, id) + touching(b, id),
    decreases b.len(),
{
    if b.len() > 0 {
        assert((a + b).drop_last() =~= a + b.drop_last());
        lemma_touching_concat(a, b.drop_last(), id);
    } else {
        assert(a + b =~= a);
    }
}

proof fn lemma_transfers_for_touching(x: Account, n: int, floor: int, id: u128)
    ensures
        touching(transfers_for(x, n, floor), id) == (if x.credits_posted > 0 && (x.id == id
            || genesis_credit_id(x.ledger) == id) {
            1int
        } else {
            0int
        }) + (if x.debits_posted > 0 && (x.id == id || genesis_debit_id(x.ledger) == id) {
            1int
        } else {
            0int
        }),
{
    let t = transfers_for(x, n, floor);
    let e = Seq::<SyntheticTransfer>::empty();
    reveal_with_fuel(touching, 3);
    if x.credits_posted > 0 && x.debits_posted > 0 {
        assert(t.drop_last().drop_last() =~= e);
        assert(t.drop_last() =~= seq![t[0]]);
    } else if x.credits_posted > 0 || x.debits_posted > 0 {
        assert(t.drop_last() =~= e);
    } else {
        assert(t =~= e);
    }
}

/// The synthetic transfers of `r` number one per non-zero posted balance,
/// and each account is touched by exactly one transfer per non-zero posted
/// balance it has, so by at most two (account ids distinct and apart from
/// the genesis ids).
pub proof fn law_transfers_per_balance(r: Seq<Account>, floor: int)
    ensures
        synthetic_transfers_for(r, floor).len() == account_sum(r, balance_sides_fn()),
        ids_distinct_from_genesis(r) ==> forall|k: int|
            0 <= k < r.len() ==> touching(synthetic_transfers_for(r, floor), #[trigger] r[k].id)
                == balance_sides(r[k]) && balance_sides(r[k]) <= 2,
    decreases r.len(),
{
    if r.len() > 0 {
        let rp = r.drop_last();
        let p = synthetic_transfers_for(rp, floor);
        let t = transfers_for(r.last(), p.len() as int, floor);
        law_transfers_per_balance(rp, floor);
        assert(r.last() == r[r.len() - 1]);
        if ids_distinct_from_genesis(r) {
            assert(ids_distinct_from_genesis(rp)) by {
                assert forall|j: int, k: int| 0 <= j < k < rp.len() implies #[trigger] rp[j].id
                    != #[trigger] rp[k].id by {
                    assert(rp[j] == r[j] && rp[k] == r[k]);
                }
                assert forall|j: int, k: int| 0 <= j < rp.len() && 0 <= k < rp.len() implies #[trigger] rp[j].id
                    != genesis_debit_id(#[trigger] rp[k].ledger) && rp[j].id != genesis_credit_id(
                    rp[k].ledger,
                ) by {
                    assert(rp[j] == r[j] && rp[k] == r[k]);
                }
            }
            assert forall|k: int| 0 <= k < r.len() implies touching(
                synthetic_transfers_for(r, floor),
                #[trigger] r[k].id,
            ) == balance_sides(r[k]) && balance_sides(r[k]) <= 2 by {
                let id = r[k].id;
                lemma_touching_concat(p, t, id);
                lemma_transfers_for_touching(r.last(), p.len() as int, floor, id);
                assert(genesis_debit_id(r[r.len() - 1].ledger) != id);
                assert(genesis_credit_id(r[r.len() - 1].ledger) != id);
                if k == r.len() - 1 {
                    lemma_untouched_count(rp, floor, id);
                } else {
                    assert(rp[k] == r[k]);
                    assert(r[r.len() - 1].id != r[k].id);
                }
            }
        }
    }
}

/// Transfers of accounts none of which is `id` nor has it as a genesis id
/// of its ledger touch `id` not at all.
proof fn lemma_untouched_count(r: Seq<Account>, floor: int, id: u128)
    requires
        forall|j: int|
            #![trigger r[j]]
            0 <= j < r.len() ==> r[j].id != id && genesis_debit_id(r[j].ledger) != id
                && genesis_credit_id(r[j].ledger) != id,
    ensures
        touching(synthetic_transfers_for(r, floor), id) == 0,
    decreases r.len(),
{
    if r.len() > 0 {
        let p = synthetic_transfers_for(r.drop_last(), floor);
        let rp = r.drop_last();
        assert forall|j: int| #![trigger rp[j]] 0 <= j < rp.len() implies rp[j].id != id
            && genesis_debit_id(rp[j].ledger) != id && genesis_credit_id(rp[j].ledger) != id by {
            assert(rp[j] == r[j]);
        }
        lemma_untouched_count(r.drop_last(), floor, id);
        lemma_touching_concat(p, transfers_for(r.last(), p.len() as int, floor), id);
        lemma_transfers_for_touching(r.last(), p.len() as int, floor, id);
        assert(r.last() == r[r.len() - 1]);
    }
}

/// A plan has one synthetic transfer per non-zero posted balance of its
/// input accounts, and each input account is touched by exactly one
/// synthetic transfer per non-zero posted balance, so by at most two (input
/// ids distinct and apart from the genesis ids).
pub proof fn law_plan_transfers_per_balance(a: Seq<Account>, windowed: bool)
    requires
        a.len() <= u64::MAX,
    ensures
        plan_synthetic_transfers(a, windowed).len() == account_sum(a, balance_sides_fn()),
        plan_synthetic_transfers(a, windowed).len() <= 2 * a.len(),
        ids_distinct_from_genesis(a) ==> forall|i: int|
            0 <= i < a.len() ==> touching(plan_synthetic_transfers(a, windowed), #[trigger] a[i].id)
                == balance_sides(a[i]) && balance_sides(a[i]) <= 2,
{
    let r = regular_accounts_for(a);
    let floor = plan_transfer_floor(a, windowed);
    law_transfers_per_balance(r, floor);
    let f = balance_sides_fn();
    assert forall|x: Account| #[trigger] f(without_timestamp(x)) == f(x) by {}
    lemma_sum_over_regular(a, f);
    lemma_balance_sides_bound(a);
    law_regular_accounts_are_inputs(a);
    if ids_distinct_from_genesis(a) {
        lemma_regular_ids(a);
        assert forall|i: int| 0 <= i < a.len() implies touching(
            plan_synthetic_transfers(a, windowed),
            #[trigger] a[i].id,
        ) == balance_sides(a[i]) && balance_sides(a[i]) <= 2 by {
            assert(has_retimestamped_copy(r, a[i]));
            let k = choose|k: int| 0 <= k < r.len() && r[k] == with_timestamp(a[i], r[k].timestamp);
            assert(r[k].id == a[i].id);
        }
    }
}

/// [`ledger_credits`] as a sum over accounts.
pub open spec fn credits_in(ledger: u32) -> spec_fn(Account) -> int {
    |x: Account| if x.ledger == ledger { x.credits_posted as int } else { 0int }
}

/// [`ledger_debits`] as a sum over accounts.
pub open spec fn debits_in(ledger: u32) -> spec_fn(Account) -> int {
    |x: Account| if x.ledger == ledger { x.debits_posted as int } else { 0int }
}

proof fn lemma_ledger_sums(s: Seq<Account>, ledger: u32)
    ensures
        ledger_credits(s, ledger) == account_sum(s, credits_in(ledger)),
        ledger_debits(s, ledger) == account_sum(s, debits_in(ledger)),
    decreases s.len(),
{
    if s.len() > 0 {
        lemma_ledger_sums(s.drop_last(), ledger);
    }
}

/// The genesis accounts of a ledger balance it over the input accounts: the
/// credit genesis is debited the sum of the inputs' `credits_posted` in that
/// ledger and the debit genesis is credited the sum of their
/// `debits_posted`, so the two agree exactly when the ledger is balanced
/// (when no input uses one of these genesis ids).
pub proof fn law_plan_genesis_totals(a: Seq<Account>, windowed: bool, ledger: u32)
    requires
        a.len() <= u64::MAX,
        forall|j: int|
            0 <= j < a.len() ==> #[trigger] a[j].id != genesis_credit_id(ledger) && a[j].id
                != genesis_debit_id(ledger),
    ensures
        debited_amount(plan_synthetic_transfers(a, windowed), genesis_credit_id(ledger))
            == ledger_credits(a, ledger),
        credited_amount(plan_synthetic_transfers(a, windowed), genesis_debit_id(ledger))
            == ledger_debits(a, ledger),
{
    let r = regular_accounts_for(a);
    lemma_regular_sources(a);
    assert forall|k: int| 0 <= k < r.len() implies #[trigger] r[k].id != genesis_credit_id(ledger)
        && r[k].id != genesis_debit_id(ledger) by {
        assert(r[k].id == a[regular_source(a, k)].id);
    }
    law_genesis_totals(r, plan_transfer_floor(a, windowed), ledger);
    let fc = credits_in(ledger);
    let fd = debits_in(ledger);
    assert forall|x: Account| #[trigger] fc(without_timestamp(x)) == fc(x) by {}
    assert forall|x: Account| #[trigger] fd(without_timestamp(x)) == fd(x) by {}
    lemma_sum_over_regular(a, fc);
    lemma_sum_over_regular(a, fd);
    lemma_ledger_sums(r, ledger);
    lemma_ledger_sums(a, ledger);
}


/// The first components of a key sequence sorted on them, repeats dropped,
/// strictly increase and are exactly the first components that occur.
proof fn lemma_distinct_firsts_sorted(s: Seq<Key3>)
    requires
        forall|j: int, k: int| 0 <= j < k < s.len() ==> #[trigger] s[j].0 <= #[trigger] s[k].0,
        forall|k: int| 0 <= k < s.len() ==> #[trigger] s[k].0 <= u32::MAX,
    ensures
        forall|j: int, k: int|
            0 <= j < k < distinct_firsts(s).len() ==> #[trigger] distinct_firsts(s)[j]
                < #[trigger] distinct_firsts(s)[k],
        forall|v: u32|
            #[trigger] distinct_firsts(s).contains(v) <==> exists|k: int|
                0 <= k < s.len() && #[trigger] s[k].0 == v,
        s.len() > 0 ==> distinct_firsts(s).len() > 0 && distinct_firsts(s).last() == s.last().0,
    decreases s.len(),
{
    if s.len() > 0 {
        let sp = s.drop_last();
        let n = s.len() - 1;
        assert forall|k: int| 0 <= k < sp.len() implies #[trigger] sp[k] == s[k] by {}
        lemma_distinct_firsts_sorted(sp);
        let dp = distinct_firsts(sp);
        let d = distinct_firsts(s);
        assert(s.last() == s[n]);
        if s.len() >= 2 && s[s.len() - 2].0 == s.last().0 {
            assert(d == dp);
            assert(sp.last() == s[n - 1]);
            assert forall|v: u32| #[trigger] d.contains(v) <==> exists|k: int|
                0 <= k < s.len() && #[trigger] s[k].0 == v by {
                if exists|k: int| 0 <= k < s.len() && #[trigger] s[k].0 == v {
                    let k = choose|k: int| 0 <= k < s.len() && #[trigger] s[k].0 == v;
                    if k == n {
                        assert(sp[n - 1].0 == v);
                    } else {
                        assert(sp[k].0 == v);
                    }
                }
                if d.contains(v) {
                    let k = choose|k: int| 0 <= k < sp.len() && #[trigger] sp[k].0 == v;
                    assert(s[k].0 == v);
                }
            }
        } else {
            let x = s.last().0 as u32;
            assert(d == dp.push(x));
            if dp.len() > 0 {
                assert(s.len() >= 2);
                assert(sp.last() == s[n - 1]);
                assert(s[n - 1].0 <= s[n].0);
                assert(dp.last() < x);
            }
            assert forall|j: int, k: int| 0 <= j < k < d.len() implies #[trigger] d[j] < #[trigger] d[k] by {
                if k == d.len() - 1 {
                    if j < k - 1 {
                        assert(dp[j] < dp[dp.len() - 1]);
                    }
                } else {
                    assert(dp[j] < dp[k]);
                }
            }
            assert forall|v: u32| #[trigger] d.contains(v) <==> exists|k: int|
                0 <= k < s.len() && #[trigger] s[k].0 == v by {
                if exists|k: int| 0 <= k < s.len() && #[trigger] s[k].0 == v {
                    let k = choose|k: int| 0 <= k < s.len() && #[trigger] s[k].0 == v;
                    if k == n {
                        assert(d[d.len() - 1] == v);
                    } else {
                        assert(sp[k].0 == v);
                        assert(dp.contains(v));
                        let m = choose|m: int| 0 <= m < dp.len() && dp[m] == v;
                        assert(d[m] == v);
                    }
                }
                if d.contains(v) {
                    let m = choose|m: int| 0 <= m < d.len() && d[m] == v;
                    if m == d.len() - 1 {
                        assert(s[n].0 == v);
                    } else {
                        assert(dp[m] == v);
                        assert(dp.contains(v));
                        let k = choose|k: int| 0 <= k < sp.len() && #[trigger] sp[k].0 == v;
                        assert(s[k].0 == v);
                    }
                }
            }
        }
    }
}

/// A plan's ledgers are the distinct ledgers of its input accounts in
/// ascending order; it has two genesis accounts per ledger and one regular
/// account per input account, so `n + 2K` accounts in all.
pub proof fn law_plan_ledgers(a: Seq<Account>)
    requires
        a.len() <= u64::MAX,
    ensures
        forall|j: int, k: int|
            0 <= j < k < plan_ledgers(a).len() ==> #[trigger] plan_ledgers(a)[j]
                < #[trigger] plan_ledgers(a)[k],
        forall|l: u32|
            #[trigger] plan_ledgers(a).contains(l) <==> exists|i: int|
                0 <= i < a.len() && #[trigger] a[i].ledger == l,
        genesis_accounts_for(plan_ledgers(a)).len() == 2 * plan_ledgers(a).len(),
        regular_accounts_for(a).len() == a.len(),
{
    broadcast use vstd::seq_lib::group_to_multiset_ensures;

    let lk = ledger_keys(a);
    lemma_key_leq_total();
    lk.lemma_sort_by_ensures(key_leq());
    let sorted = lk.sort_by(key_leq());
    assert forall|j: int, k: int| 0 <= j < k < sorted.len() implies #[trigger] sorted[j].0
        <= #[trigger] sorted[k].0 by {
        assert(key_leq()(sorted[j], sorted[k]));
    }
    assert forall|k: int| 0 <= k < sorted.len() implies #[trigger] sorted[k].0 <= u32::MAX by {
        assert(sorted.contains(sorted[k]));
        assert(sorted.to_multiset().count(sorted[k]) > 0);
        assert(lk.contains(sorted[k]));
    }
    lemma_distinct_firsts_sorted(sorted);
    let pl = plan_ledgers(a);
    assert forall|l: u32| #[trigger] pl.contains(l) <==> exists|i: int|
        0 <= i < a.len() && #[trigger] a[i].ledger == l by {
        if pl.contains(l) {
            let k = choose|k: int| 0 <= k < sorted.len() && #[trigger] sorted[k].0 == l;
            assert(sorted.contains(sorted[k]));
            assert(sorted.to_multiset().count(sorted[k]) > 0);
            assert(lk.contains(sorted[k]));
            let i = choose|i: int| 0 <= i < lk.len() && lk[i] == sorted[k];
            assert(a[i].ledger == l);
        }
        if exists|i: int| 0 <= i < a.len() && #[trigger] a[i].ledger == l {
            let i = choose|i: int| 0 <= i < a.len() && #[trigger] a[i].ledger == l;
            assert(lk.contains(lk[i]));
            assert(lk.to_multiset().count(lk[i]) > 0);
            assert(sorted.contains(lk[i]));
            let k = choose|k: int| 0 <= k < sorted.len() && sorted[k] == lk[i];
            assert(sorted[k].0 == l);
        }
    }
    law_regular_accounts_are_inputs(a);
}


/// `t` with its timestamp replaced by `timestamp`.
pub open spec fn retimed(t: SyntheticTransfer, timestamp: u64) -> SyntheticTransfer {
    SyntheticTransfer { timestamp, ..t }
}

/// The synthetic transfers of the same accounts under two floors differ in
/// their timestamps alone.
proof fn lemma_transfers_retimed(r: Seq<Account>, f1: int, f2: int)
    ensures
        synthetic_transfers_for(r, f2).len() == synthetic_transfers_for(r, f1).len(),
        forall|k: int|
            0 <= k < synthetic_transfers_for(r, f2).len() ==> #[trigger] synthetic_transfers_for(
                r,
                f2,
            )[k] == retimed(synthetic_transfers_for(r, f1)[k], synthetic_transfers_for(r, f2)[k].timestamp),
    decreases r.len(),
{
    if r.len() > 0 {
        let rp = r.drop_last();
        lemma_transfers_retimed(rp, f1, f2);
        let p1 = synthetic_transfers_for(rp, f1);
        let p2 = synthetic_transfers_for(rp, f2);
        let t1 = transfers_for(r.last(), p1.len() as int, f1);
        let t2 = transfers_for(r.last(), p2.len() as int, f2);
        let s1 = synthetic_transfers_for(r, f1);
        let s2 = synthetic_transfers_for(r, f2);
        assert(s1 == p1 + t1);
        assert(s2 == p2 + t2);
        assert(t1.len() == t2.len());
        assert forall|k: int| 0 <= k < s2.len() implies #[trigger] s2[k] == retimed(s1[k], s2[k].timestamp) by {
            if k < p2.len() {
                assert(s2[k] == p2[k]);
                assert(s1[k] == p1[k]);
            } else {
                assert(s2[k] == t2[k - p2.len()]);
                assert(s1[k] == t1[k - p1.len()]);
            }
        }
    }
}

/// A time-window plan whose accounts all predate the cutoff and take no
/// part in the window's transfers is the snapshot plan of the same
/// accounts but for the timestamps of its synthetic transfers: the same
/// genesis and regular accounts, and the same synthetic transfers in the
/// same order apart from their timestamps.
pub proof fn law_window_without_movement(a: Seq<Account>, wt: Seq<Transfer>, cutoff: u64)
    requires
        forall|i: int|
            0 <= i < a.len() ==> #[trigger] a[i].timestamp < cutoff && debit_total(wt, a[i].id) == 0
                && credit_total(wt, a[i].id) == 0,
    ensures
        adjusted_accounts(a, wt, cutoff) == a,
        genesis_accounts_for(plan_ledgers(adjusted_accounts(a, wt, cutoff))) == genesis_accounts_for(
            plan_ledgers(a),
        ),
        regular_accounts_for(adjusted_accounts(a, wt, cutoff)) == regular_accounts_for(a),
        plan_synthetic_transfers(adjusted_accounts(a, wt, cutoff), true).len()
            == plan_synthetic_transfers(a, false).len(),
        forall|k: int|
            0 <= k < plan_synthetic_transfers(a, false).len() ==> #[trigger] plan_synthetic_transfers(
                adjusted_accounts(a, wt, cutoff),
                true,
            )[k] == retimed(
                plan_synthetic_transfers(a, false)[k],
                plan_synthetic_transfers(adjusted_accounts(a, wt, cutoff), true)[k].timestamp,
            ),
{
    let adj = adjusted_accounts(a, wt, cutoff);
    assert forall|i: int| 0 <= i < a.len() implies #[trigger] adj[i] == a[i] by {
        assert(adj[i] == adjusted_account(a[i], wt, cutoff));
    }
    assert(adj =~= a);
    lemma_transfers_retimed(
        regular_accounts_for(a),
        plan_transfer_floor(a, false),
        plan_transfer_floor(a, true),
    );
}


/// Whether the synthetic transfer `s` rebuilds a posted balance of `x`: it
/// is on `x`'s ledger with `x`'s code and either credits `x` its
/// `credits_posted` from the ledger's credit genesis or debits `x` its
/// `debits_posted` to the ledger's debit genesis.
pub open spec fn rebuilds_balance_of(s: SyntheticTransfer, x: Account) -> bool {
    &&& s.ledger == x.ledger
    &&& s.code == x.code
    &&& ((s.credit_account_id == x.id && s.debit_account_id == genesis_credit_id(x.ledger) && s.amount
        == x.credits_posted && x.credits_posted > 0) || (s.debit_account_id == x.id
        && s.credit_account_id == genesis_debit_id(x.ledger) && s.amount == x.debits_posted
        && x.debits_posted > 0))
}

proof fn lemma_transfers_rebuild(r: Seq<Account>, floor: int)
    ensures
        forall|k: int|
            0 <= k < synthetic_transfers_for(r, floor).len() ==> exists|j: int|
                0 <= j < r.len() && rebuilds_balance_of(#[trigger] synthetic_transfers_for(r, floor)[k], r[j]),
    decreases r.len(),
{
    if r.len() > 0 {
        let rp = r.drop_last();
        lemma_transfers_rebuild(rp, floor);
        let p = synthetic_transfers_for(rp, floor);
        let x = r.last();
        let t = transfers_for(x, p.len() as int, floor);
        let st = synthetic_transfers_for(r, floor);
        assert(st == p + t);
        assert(x == r[r.len() - 1]);
        assert forall|k: int| 0 <= k < st.len() implies exists|j: int|
            0 <= j < r.len() && rebuilds_balance_of(#[trigger] st[k], r[j]) by {
            if k < p.len() {
                assert(st[k] == p[k]);
                let j = choose|j: int| 0 <= j < rp.len() && rebuilds_balance_of(p[k], rp[j]);
                assert(rp[j] == r[j]);
            } else {
                assert(st[k] == t[k - p.len()]);
                assert(rebuilds_balance_of(t[k - p.len()], r[r.len() - 1]));
            }
        }
    }
}

/// Every synthetic transfer of a plan rebuilds a posted balance of one of
/// its input accounts, on that account's ledger and with that account's
/// code: the credit side credits the account its `credits_posted` from the
/// ledger's credit genesis, the debit side debits it its `debits_posted`
/// to the ledger's debit genesis.
pub proof fn law_plan_transfers_rebuild_inputs(a: Seq<Account>, windowed: bool)
    requires
        a.len() <= u64::MAX,
    ensures
        forall|k: int|
            0 <= k < plan_synthetic_transfers(a, windowed).len() ==> exists|i: int|
                0 <= i < a.len() && rebuilds_balance_of(#[trigger] plan_synthetic_transfers(a, windowed)[k], a[i]),
{
    let r = regular_accounts_for(a);
    let st = plan_synthetic_transfers(a, windowed);
    lemma_transfers_rebuild(r, plan_transfer_floor(a, windowed));
    lemma_regular_sources(a);
    assert forall|k: int| 0 <= k < st.len() implies exists|i: int|
        0 <= i < a.len() && rebuilds_balance_of(#[trigger] st[k], a[i]) by {
        let j = choose|j: int| 0 <= j < r.len() && rebuilds_balance_of(st[k], r[j]);
        let i = regular_source(a, j);
        assert(r[j] == with_timestamp(a[i], r[j].timestamp));
        assert(rebuilds_balance_of(st[k], a[i]));
    }
}


/// The transfer records an import sends for the synthetic transfers `s`.
pub open spec fn imported_transfers(s: Seq<SyntheticTransfer>) -> Seq<Transfer> {
    s.map_values(|t: SyntheticTransfer| spec_convert_transfer(t))
}

proof fn lemma_imported_totals(s: Seq<SyntheticTransfer>, id: u128)
    ensures
        credit_total(imported_transfers(s), id) == credited_amount(s, id),
        debit_total(imported_transfers(s), id) == debited_amount(s, id),
    decreases s.len(),
{
    if s.len() > 0 {
        lemma_imported_totals(s.drop_last(), id);
        assert(imported_transfers(s).drop_last() =~= imported_transfers(s.drop_last()));
        assert(imported_transfers(s).last() == spec_convert_transfer(s.last()));
    }
}

/// The records an import sends for a plan's synthetic transfers move the
/// same funds between the same accounts: each has the id, debit account,
/// credit account, amount, ledger, code and timestamp of its synthetic
/// transfer, so once imported they credit each input account exactly its
/// `credits_posted` and debit it exactly its `debits_posted` (input ids
/// distinct and apart from the genesis ids).
pub proof fn law_imported_transfers_rebuild_balances(a: Seq<Account>, windowed: bool)
    requires
        a.len() <= u64::MAX,
        ids_distinct_from_genesis(a),
    ensures
        imported_transfers(plan_synthetic_transfers(a, windowed)).len() == plan_synthetic_transfers(
            a,
            windowed,
        ).len(),
        forall|k: int|
            0 <= k < plan_synthetic_transfers(a, windowed).len() ==> {
                let s = plan_synthetic_transfers(a, windowed)[k];
                let t = #[trigger] imported_transfers(plan_synthetic_transfers(a, windowed))[k];
                &&& t.id == s.id
                &&& t.debit_account_id == s.debit_account_id
                &&& t.credit_account_id == s.credit_account_id
                &&& t.amount == s.amount
                &&& t.ledger == s.ledger
                &&& t.code == s.code
                &&& t.timestamp == s.timestamp
            },
        forall|i: int|
            0 <= i < a.len() ==> credit_total(
                imported_transfers(plan_synthetic_transfers(a, windowed)),
                #[trigger] a[i].id,
            ) == a[i].credits_posted && debit_total(
                imported_transfers(plan_synthetic_transfers(a, windowed)),
                a[i].id,
            ) == a[i].debits_posted,
{
    let s = plan_synthetic_transfers(a, windowed);
    law_plan_balances(a, windowed);
    assert forall|i: int| 0 <= i < a.len() implies credit_total(imported_transfers(s), #[trigger] a[i].id)
        == a[i].credits_posted && debit_total(imported_transfers(s), a[i].id) == a[i].debits_posted by {
        lemma_imported_totals(s, a[i].id);
    }
}

} // verus!
