//! Merge sorts: integer-triple keys in lexicographic order, and transfers
//! by timestamp.

use vstd::prelude::*;
use vstd::relations::{sorted_by, total_ordering};
use crate::types::Transfer;

verus! {

/// A sort key: three unsigned integers compared lexicographically.
pub type Key3 = (u64, u64, u64);

/// Lexicographic `<=` on [`Key3`].
pub open spec fn key_le(x: Key3, y: Key3) -> bool {
    x.0 < y.0 || (x.0 == y.0 && (x.1 < y.1 || (x.1 == y.1 && x.2 <= y.2)))
}

/// [`key_le`] as a relation value.
pub open spec fn key_leq() -> spec_fn(Key3, Key3) -> bool {
    |x: Key3, y: Key3| key_le(x, y)
}

pub proof fn lemma_key_leq_total()
    ensures
        total_ordering(key_leq()),
{
}

fn key_le_exec(x: Key3, y: Key3) -> (r: bool)
    ensures
        r == key_le(x, y),
{
    x.0 < y.0 || (x.0 == y.0 && (x.1 < y.1 || (x.1 == y.1 && x.2 <= y.2)))
}

proof fn lemma_take_push<T>(s: Seq<T>, i: int)
    requires
        0 <= i < s.len(),
    ensures
        s.take(i + 1) == s.take(i).push(s[i]),
{
    assert(s.take(i + 1) =~= s.take(i).push(s[i]));
}

/// Merge two sorted key vectors into one sorted vector with all their keys.
fn merge(left: Vec<Key3>, right: Vec<Key3>) -> (out: Vec<Key3>)
    requires
        sorted_by(left@, key_leq()),
        sorted_by(right@, key_leq()),
    ensures
        sorted_by(out@, key_leq()),
        out@.to_multiset() == left@.to_multiset().add(right@.to_multiset()),
{
    broadcast use vstd::seq_lib::group_to_multiset_ensures;
    broadcast use vstd::multiset::group_multiset_axioms;

    let mut out: Vec<Key3> = Vec::new();
    let mut i: usize = 0;
    let mut j: usize = 0;
    let nl = left.len();
    let nr = right.len();
    assert(left@.take(0) =~= Seq::<Key3>::empty());
    assert(right@.take(0) =~= Seq::<Key3>::empty());
    while i < nl || j < nr
        invariant
            nl == left@.len(),
            nr == right@.len(),
            i <= nl,
            j <= nr,
            sorted_by(left@, key_leq()),
            sorted_by(right@, key_leq()),
            sorted_by(out@, key_leq()),
            out@.len() == i + j,
            out@.to_multiset() == left@.take(i as int).to_multiset().add(
                right@.take(j as int).to_multiset(),
            ),
            out@.len() > 0 && i < nl ==> key_le(out@.last(), left@[i as int]),
            out@.len() > 0 && j < nr ==> key_le(out@.last(), right@[j as int]),
        decreases nl + nr - i - j,
    {
        let take_left = if i >= nl {
            false
        } else if j >= nr {
            true
        } else {
            key_le_exec(left[i], right[j])
        };
        if take_left {
            let x = left[i];
            proof {
                lemma_take_push(left@, i as int);
                assert forall|a: int, b: int| 0 <= a < b < out@.len() + 1 implies #[trigger] key_leq()(
                    out@.push(x)[a],
                    out@.push(x)[b],
                ) by {
                    if b == out@.len() as int && a < out@.len() - 1 {
                        assert(key_leq()(out@[a], out@[out@.len() - 1]));
                    }
                }
            }
            let ghost prev = out@;
            let ghost lt = left@.take(i as int);
            let ghost rt = right@.take(j as int);
            out.push(x);
            i = i + 1;
            proof {
                assert(out@ == prev.push(x));
                assert(left@.take(i as int) == lt.push(x));
                vstd::seq_lib::to_multiset_build(lt, x);
                vstd::seq_lib::to_multiset_build(prev, x);
                assert(out@.to_multiset() =~= prev.to_multiset().insert(x));
                assert(lt.to_multiset().insert(x).add(rt.to_multiset()) =~= lt.to_multiset().add(
                    rt.to_multiset()).insert(x));
            }
            proof {
                if i < nl {
                    assert(key_leq()(left@[i - 1], left@[i as int]));
                }
            }
        } else {
            let x = right[j];
            proof {
                lemma_take_push(right@, j as int);
                assert forall|a: int, b: int| 0 <= a < b < out@.len() + 1 implies #[trigger] key_leq()(
                    out@.push(x)[a],
                    out@.push(x)[b],
                ) by {
                    if b == out@.len() as int && a < out@.len() - 1 {
                        assert(key_leq()(out@[a], out@[out@.len() - 1]));
                    }
                }
            }
            let ghost prev = out@;
            let ghost lt = left@.take(i as int);
            let ghost rt = right@.take(j as int);
            out.push(x);
            j = j + 1;
            proof {
                assert(out@ == prev.push(x));
                assert(right@.take(j as int) == rt.push(x));
                vstd::seq_lib::to_multiset_build(rt, x);
                vstd::seq_lib::to_multiset_build(prev, x);
                assert(out@.to_multiset() =~= prev.to_multiset().insert(x));
                assert(lt.to_multiset().add(rt.to_multiset().insert(x)) =~= lt.to_multiset().add(
                    rt.to_multiset()).insert(x));
            }
            proof {
                if j < nr {
                    assert(key_leq()(right@[j - 1], right@[j as int]));
                }
            }
        }
    }
    assert(left@.take(nl as int) =~= left@);
    assert(right@.take(nr as int) =~= right@);
    out
}

/// Sort keys into ascending lexicographic order.
pub fn sort_keys(v: Vec<Key3>) -> (out: Vec<Key3>)
    ensures
        sorted_by(out@, key_leq()),
        out@.to_multiset() == v@.to_multiset(),
    decreases v@.len(),
{
    broadcast use vstd::seq_lib::group_to_multiset_ensures;

    let n = v.len();
    if n <= 1 {
        return v;
    }
    let mut left = v;
    let mid = n / 2;
    let ghost whole = left@;
    let right = left.split_off(mid);
    proof {
        assert(whole =~= left@ + right@);
        vstd::seq_lib::lemma_multiset_commutative(left@, right@);
    }
    let sl = sort_keys(left);
    let sr = sort_keys(right);
    merge(sl, sr)
}

/// Order of transfers by timestamp.
pub open spec fn ts_leq() -> spec_fn(Transfer, Transfer) -> bool {
    |x: Transfer, y: Transfer| x.timestamp <= y.timestamp
}

/// Merge two timestamp-sorted transfer vectors into one sorted vector with
/// all their transfers.
fn merge_transfers(left: Vec<Transfer>, right: Vec<Transfer>) -> (out: Vec<Transfer>)
    requires
        sorted_by(left@, ts_leq()),
        sorted_by(right@, ts_leq()),
    ensures
        sorted_by(out@, ts_leq()),
        out@.to_multiset() == left@.to_multiset().add(right@.to_multiset()),
{
    broadcast use vstd::seq_lib::group_to_multiset_ensures;
    broadcast use vstd::multiset::group_multiset_axioms;

    let mut out: Vec<Transfer> = Vec::new();
    let mut i: usize = 0;
    let mut j: usize = 0;
    let nl = left.len();
    let nr = right.len();
    assert(left@.take(0) =~= Seq::<Transfer>::empty());
    assert(right@.take(0) =~= Seq::<Transfer>::empty());
    while i < nl || j < nr
        invariant
            nl == left@.len(),
            nr == right@.len(),
            i <= nl,
            j <= nr,
            sorted_by(left@, ts_leq()),
            sorted_by(right@, ts_leq()),
            sorted_by(out@, ts_leq()),
            out@.len() == i + j,
            out@.to_multiset() == left@.take(i as int).to_multiset().add(
                right@.take(j as int).to_multiset(),
            ),
            out@.len() > 0 && i < nl ==> out@.last().timestamp <= left@[i as int].timestamp,
            out@.len() > 0 && j < nr ==> out@.last().timestamp <= right@[j as int].timestamp,
        decreases nl + nr - i - j,
    {
        let take_left = if i >= nl {
            false
        } else if j >= nr {
            true
        } else {
            left[i].timestamp <= right[j].timestamp
        };
        if take_left {
            let x = left[i];
            proof {
                lemma_take_push(left@, i as int);
                assert forall|a: int, b: int| 0 <= a < b < out@.len() + 1 implies #[trigger] ts_leq()(
                    out@.push(x)[a],
                    out@.push(x)[b],
                ) by {
                    if b == out@.len() as int && a < out@.len() - 1 {
                        assert(ts_leq()(out@[a], out@[out@.len() - 1]));
                    }
                }
            }
            let ghost prev = out@;
            let ghost lt = left@.take(i as int);
            let ghost rt = right@.take(j as int);
            out.push(x);
            i = i + 1;
            proof {
                assert(out@ == prev.push(x));
                assert(left@.take(i as int) == lt.push(x));
                vstd::seq_lib::to_multiset_build(lt, x);
                vstd::seq_lib::to_multiset_build(prev, x);
                assert(out@.to_multiset() =~= prev.to_multiset().insert(x));
                assert(lt.to_multiset().insert(x).add(rt.to_multiset()) =~= lt.to_multiset().add(
                    rt.to_multiset()).insert(x));
                if i < nl {
                    assert(ts_leq()(left@[i - 1], left@[i as int]));
                }
            }
        } else {
            let x = right[j];
            proof {
                lemma_take_push(right@, j as int);
                assert forall|a: int, b: int| 0 <= a < b < out@.len() + 1 implies #[trigger] ts_leq()(
                    out@.push(x)[a],
                    out@.push(x)[b],
                ) by {
                    if b == out@.len() as int && a < out@.len() - 1 {
                        assert(ts_leq()(out@[a], out@[out@.len() - 1]));
                    }
                }
            }
            let ghost prev = out@;
            let ghost lt = left@.take(i as int);
            let ghost rt = right@.take(j as int);
            out.push(x);
            j = j + 1;
            proof {
                assert(out@ == prev.push(x));
                assert(right@.take(j as int) == rt.push(x));
                vstd::seq_lib::to_multiset_build(rt, x);
                vstd::seq_lib::to_multiset_build(prev, x);
                assert(out@.to_multiset() =~= prev.to_multiset().insert(x));
                assert(lt.to_multiset().add(rt.to_multiset().insert(x)) =~= lt.to_multiset().add(
                    rt.to_multiset()).insert(x));
                if j < nr {
                    assert(ts_leq()(right@[j - 1], right@[j as int]));
                }
            }
        }
    }
    assert(left@.take(nl as int) =~= left@);
    assert(right@.take(nr as int) =~= right@);
    out
}

/// Sort transfers into ascending timestamp order.
pub fn sort_transfers_by_timestamp(v: Vec<Transfer>) -> (out: Vec<Transfer>)
    ensures
        sorted_by(out@, ts_leq()),
        out@.to_multiset() == v@.to_multiset(),
    decreases v@.len(),
{
    broadcast use vstd::seq_lib::group_to_multiset_ensures;

    let n = v.len();
    if n <= 1 {
        return v;
    }
    let mut left = v;
    let mid = n / 2;
    let ghost whole = left@;
    let right = left.split_off(mid);
    proof {
        assert(whole =~= left@ + right@);
        vstd::seq_lib::lemma_multiset_commutative(left@, right@);
    }
    let sl = sort_transfers_by_timestamp(left);
    let sr = sort_transfers_by_timestamp(right);
    merge_transfers(sl, sr)
}

} // verus!
