//! What a data file reader decides around its block walks: capacity
//! statistics, whether checkpointed tables exist, and the paging of a
//! record stream.

use vstd::prelude::*;
use vstd::string::StringExecFns;
use crate::error::{reader_error_text, ReaderError};
use crate::layout::TBConfig;
use crate::superblock::SuperblockInfo;

verus! {

/// Data file capacity statistics.
#[derive(Debug, Clone)]
pub struct CapacityStats {
    /// Total file size in bytes (= formatted capacity, since the file is
    /// pre-allocated).
    pub data_file_size_bytes: u64,
    /// Total number of grid blocks that fit in the data file.
    pub grid_blocks_total: u64,
    /// Number of grid blocks occupied by live LSM tables (index blocks
    /// only). This is a lower bound: value blocks, manifest blocks and
    /// free-list blocks are not counted.
    pub grid_blocks_used: u64,
}

impl CapacityStats {
    /// Statistics of a data file of `file_size` bytes laid out as `config`,
    /// whose manifest lists `grid_blocks_used` live index blocks.
    pub fn compute(file_size: u64, config: &TBConfig, grid_blocks_used: u64) -> (s: CapacityStats)
        requires
            config.block_size > 0,
        ensures
            s.data_file_size_bytes == file_size,
            s.grid_blocks_total == (if file_size > config.grid_zone_start {
                file_size - config.grid_zone_start
            } else {
                0
            }) / (config.block_size as int),
            s.grid_blocks_used == grid_blocks_used,
    {
        let grid_bytes = file_size.saturating_sub(config.grid_zone_start);
        CapacityStats {
            data_file_size_bytes: file_size,
            grid_blocks_total: grid_bytes / config.block_size,
            grid_blocks_used,
        }
    }
}

/// Whether the checkpointed tables of `sb` must be read from its manifest
/// (`Ok(true)`), or there are none (`Ok(false)`, a cluster that never
/// started); `NotCheckpointed` when the cluster started but never
/// checkpointed.
pub fn lsm_tables_present(sb: &SuperblockInfo) -> (r: Result<bool, ReaderError>)
    ensures
        sb.manifest_block_count != 0 ==> r == Ok::<bool, ReaderError>(true),
        sb.manifest_block_count == 0 && sb.sequence == 0 ==> r == Ok::<bool, ReaderError>(false),
        sb.manifest_block_count == 0 && sb.sequence > 0 ==> r == Err::<bool, ReaderError>(
            ReaderError::NotCheckpointed { sequence: sb.sequence },
        ),
{
    if sb.manifest_block_count == 0 {
        if sb.sequence > 0 {
            return Err(ReaderError::NotCheckpointed { sequence: sb.sequence });
        }
        return Ok(false);
    }
    Ok(true)
}

/// A page read of checkpointed records treats a cluster that never
/// checkpointed as holding no records.
pub fn empty_when_not_checkpointed<T>(r: Result<Vec<T>, ReaderError>) -> (out: Result<
    Vec<T>,
    ReaderError,
>)
    ensures
        match r {
            Err(ReaderError::NotCheckpointed { .. }) => out matches Ok(v) && v@.len() == 0,
            _ => out == r,
        },
{
    match r {
        Err(ReaderError::NotCheckpointed { .. }) => Ok(Vec::new()),
        other => other,
    }
}

/// The checkpointed records of a merged read: what the table walk listed,
/// none when the cluster never checkpointed, and otherwise the error,
/// named by where it came (`iter` when the walk could not start, `read`
/// when a record could not be read) and by what was read (`what`).
pub fn lsm_records_or_empty<T>(listed: Result<Result<Vec<T>, ReaderError>, ReaderError>, what: &str) -> (r:
    Result<Vec<T>, String>)
    ensures
        match listed {
            Ok(Ok(v)) => r == Ok::<Vec<T>, String>(v),
            Ok(Err(e)) => r matches Err(m) && m@ == "read LSM "@ + what@ + ": "@ + reader_error_text(e),
            Err(ReaderError::NotCheckpointed { .. }) => r matches Ok(v) && v@.len() == 0,
            Err(e) => r matches Err(m) && m@ == "iter LSM "@ + what@ + ": "@ + reader_error_text(e),
        },
{
    match listed {
        Ok(Ok(v)) => Ok(v),
        Ok(Err(e)) => {
            let mut m = String::from_str("read LSM ");
            m.append(what);
            m.append(": ");
            let t = e.to_display_string();
            m.append(t.as_str());
            Err(m)
        },
        Err(ReaderError::NotCheckpointed { .. }) => Ok(Vec::new()),
        Err(e) => {
            let mut m = String::from_str("iter LSM ");
            m.append(what);
            m.append(": ");
            let t = e.to_display_string();
            m.append(t.as_str());
            Err(m)
        },
    }
}

/// The values of `w` up to its first error: `Ok` of them all when there is
/// none, else that first error.
pub open spec fn collect_ok<T>(w: Seq<Result<T, ReaderError>>) -> Result<Seq<T>, ReaderError>
    decreases w.len(),
{
    if w.len() == 0 {
        Ok(Seq::empty())
    } else {
        match collect_ok(w.drop_last()) {
            Err(e) => Err(e),
            Ok(s) => match w.last() {
                Ok(v) => Ok(s.push(v)),
                Err(e) => Err(e),
            },
        }
    }
}

/// The page of a record stream `items` that skips `skip` items and takes
/// the next `take`: the values of that window up to its first error.
pub open spec fn page_result<T>(items: Seq<Result<T, ReaderError>>, skip: nat, take: nat) -> Result<
    Seq<T>,
    ReaderError,
> {
    let lo = if skip < items.len() { skip } else { items.len() };
    let hi = if skip + take < items.len() { skip + take } else { items.len() };
    collect_ok(items.subrange(lo as int, hi as int))
}

/// Collects page `page` of `limit` records from a stream of records that
/// may end in an error, item by item.
pub struct PageCollector<T> {
    skip: usize,
    take: usize,
    to_skip: usize,
    records: Vec<T>,
    failed: Option<ReaderError>,
    saw_error: bool,
    offered: Ghost<Seq<Result<T, ReaderError>>>,
}

impl<T> PageCollector<T> {
    /// Number of leading items skipped.
    pub closed spec fn skip(&self) -> nat {
        self.skip as nat
    }

    /// Number of items taken after those.
    pub closed spec fn take(&self) -> nat {
        self.take as nat
    }

    /// The items offered so far.
    pub closed spec fn offered(&self) -> Seq<Result<T, ReaderError>> {
        self.offered@
    }

    /// Whether the collector wants another item: the window is neither
    /// complete nor cut short by an error.
    pub open spec fn spec_wants_more(&self) -> bool {
        &&& self.offered().len() < self.skip() + self.take()
        &&& collect_ok(self.offered()) is Ok
    }

    /// The state's invariant.
    pub closed spec fn wf(&self) -> bool {
        &&& self.offered@.len() <= self.skip + self.take
        &&& self.offered@.len() <= self.skip ==> {
            &&& self.to_skip == self.skip - self.offered@.len()
            &&& self.records@.len() == 0
            &&& self.failed is None
        }
        &&& self.offered@.len() > self.skip ==> {
            &&& self.to_skip == 0
            &&& match collect_ok(self.offered@.subrange(self.skip as int, self.offered@.len() as int)) {
                Ok(s) => self.records@ == s && self.failed is None,
                Err(e) => self.failed == Some(e),
            }
        }
        &&& self.saw_error == collect_ok(self.offered@) is Err
    }

    /// A collector for page `page` (0-based) of `limit` records.
    pub fn new(page: usize, limit: usize) -> (c: PageCollector<T>)
        requires
            page * limit <= usize::MAX,
        ensures
            c.wf(),
            c.skip() == page * limit,
            c.take() == limit,
            c.offered() == Seq::<Result<T, ReaderError>>::empty(),
    {
        let skip = page * limit;
        PageCollector {
            skip,
            take: limit,
            to_skip: skip,
            records: Vec::new(),
            failed: None,
            saw_error: false,
            offered: Ghost(Seq::empty()),
        }
    }

    /// Whether the collector wants another item.
    pub fn wants_more(&self) -> (b: bool)
        requires
            self.wf(),
        ensures
            b == self.spec_wants_more(),
    {
        proof {
            self.lemma_window_len();
        }
        if self.saw_error {
            return false;
        }
        if self.to_skip > 0 {
            return true;
        }
        self.records.len() < self.take
    }

    proof fn lemma_window_len(&self)
        requires
            self.wf(),
        ensures
            !self.saw_error && self.to_skip == 0 ==> self.offered@.len() == self.skip
                + self.records@.len(),
    {
        let o = self.offered@;
        if o.len() > self.skip {
            lemma_collect_split(o, self.skip as int);
            lemma_collect_len(o.subrange(self.skip as int, o.len() as int));
        }
    }

    /// Hand in the next item of the stream.
    pub fn offer(&mut self, item: Result<T, ReaderError>)
        requires
            old(self).wf(),
            old(self).spec_wants_more(),
        ensures
            final(self).wf(),
            final(self).skip() == old(self).skip(),
            final(self).take() == old(self).take(),
            final(self).offered() == old(self).offered().push(item),
    {
        let ghost o = self.offered@;
        let ghost item_g = item;
        proof {
            self.lemma_window_len();
            lemma_collect_push(o, item_g);
        }
        self.saw_error = item.is_err();
        if self.to_skip > 0 {
            self.to_skip = self.to_skip - 1;
            proof {
                self.offered@ = o.push(item_g);
            }
            return;
        }
        proof {
            let w = o.subrange(self.skip as int, o.len() as int);
            assert(o.push(item_g).subrange(self.skip as int, o.len() as int + 1) =~= w.push(item_g));
            assert(w.push(item_g).drop_last() =~= w);
            lemma_collect_split(o, self.skip as int);
            lemma_collect_push(w, item_g);
            if o.len() == self.skip {
                assert(w =~= Seq::<Result<T, ReaderError>>::empty());
                assert(self.records@ =~= Seq::<T>::empty());
            }
            self.offered@ = o.push(item_g);
        }
        match item {
            Ok(r) => {
                self.records.push(r);
            },
            Err(e) => {
                self.failed = Some(e);
            },
        }
    }

    /// The page collected: `page_result` of the items offered.
    pub fn finish(self) -> (r: Result<Vec<T>, ReaderError>)
        requires
            self.wf(),
        ensures
            match (r, page_result(self.offered(), self.skip(), self.take())) {
                (Ok(v), Ok(s)) => v@ == s,
                (Err(e), Err(se)) => e == se,
                _ => false,
            },
    {
        let ghost o = self.offered@;
        proof {
            if o.len() <= self.skip {
                assert(o.subrange(o.len() as int, o.len() as int) =~= Seq::<
                    Result<T, ReaderError>,
                >::empty());
            } else {
                assert(o.subrange(self.skip as int, o.len() as int) =~= o.subrange(
                    self.skip as int,
                    o.len() as int,
                ));
            }
        }
        match self.failed {
            Some(e) => Err(e),
            None => Ok(self.records),
        }
    }
}

/// `collect_ok` of a stream extended by one item.
pub proof fn lemma_collect_push<T>(w: Seq<Result<T, ReaderError>>, x: Result<T, ReaderError>)
    ensures
        collect_ok(w.push(x)) == match collect_ok(w) {
            Err(e) => Err(e),
            Ok(s) => match x {
                Ok(v) => Ok(s.push(v)),
                Err(e) => Err(e),
            },
        },
{
    assert(w.push(x).drop_last() =~= w);
}

/// When `collect_ok` succeeds, it keeps every item.
pub proof fn lemma_collect_len<T>(w: Seq<Result<T, ReaderError>>)
    ensures
        collect_ok(w) matches Ok(s) ==> s.len() == w.len(),
    decreases w.len(),
{
    if w.len() > 0 {
        lemma_collect_len(w.drop_last());
    }
}

/// An error in a prefix of the stream is an error of the whole, and a
/// prefix without error passes its verdict on to the suffix.
pub proof fn lemma_collect_split<T>(w: Seq<Result<T, ReaderError>>, k: int)
    requires
        0 <= k <= w.len(),
    ensures
        collect_ok(w.subrange(0, k)) is Err ==> collect_ok(w) is Err,
        collect_ok(w.subrange(0, k)) is Ok ==> (collect_ok(w) is Err <==> collect_ok(
            w.subrange(k, w.len() as int),
        ) is Err),
    decreases w.len(),
{
    if k == w.len() {
        assert(w.subrange(0, k) =~= w);
        assert(w.subrange(k, w.len() as int) =~= Seq::<Result<T, ReaderError>>::empty());
    } else {
        let d = w.drop_last();
        lemma_collect_split(d, k);
        assert(d.subrange(0, k) =~= w.subrange(0, k));
        assert(w.subrange(k, w.len() as int).drop_last() =~= d.subrange(k, d.len() as int));
    }
}

/// A record stream that ends at its first error, as the block walks do.
pub open spec fn ends_at_first_error<T>(items: Seq<Result<T, ReaderError>>) -> bool {
    forall|i: int| 0 <= i < items.len() - 1 ==> #[trigger] items[i] is Ok
}

/// A page needs no more of a stream than what a collector takes in before
/// it stops wanting items: once the first `k` items fill the window or
/// end in an error, the page of those `k` items is the page of the whole
/// stream.
pub proof fn law_page_from_prefix<T>(
    items: Seq<Result<T, ReaderError>>,
    k: int,
    skip: nat,
    take: nat,
)
    requires
        ends_at_first_error(items),
        0 <= k <= items.len(),
        k >= skip + take || collect_ok(items.subrange(0, k)) is Err,
    ensures
        page_result(items.subrange(0, k), skip, take) == page_result(items, skip, take),
{
    let p = items.subrange(0, k);
    if k >= skip + take {
        let lo = if skip < items.len() { skip } else { items.len() };
        let hi = if skip + take < items.len() { skip + take } else { items.len() };
        assert(p.subrange(lo as int, hi as int) =~= items.subrange(lo as int, hi as int));
    } else {
        lemma_first_error_is_last(p);
        assert(p[k - 1] is Err);
        assert(k == items.len()) by {
            if k < items.len() {
                assert(items[k - 1] is Ok);
            }
        }
        assert(p =~= items);
    }
}

/// When `collect_ok` fails on a non-empty stream whose items before the
/// last are all values, the last item is the error.
proof fn lemma_first_error_is_last<T>(w: Seq<Result<T, ReaderError>>)
    requires
        collect_ok(w) is Err,
    ensures
        w.len() > 0,
        exists|i: int| 0 <= i < w.len() && #[trigger] w[i] is Err,
    decreases w.len(),
{
    if w.len() > 0 {
        match collect_ok(w.drop_last()) {
            Err(_) => {
                lemma_first_error_is_last(w.drop_last());
                let i = choose|i: int| 0 <= i < w.drop_last().len() && #[trigger] w.drop_last()[i] is Err;
                assert(w[i] is Err);
            },
            Ok(_) => {
                assert(w[w.len() - 1] is Err);
            },
        }
    }
}

} // verus!
