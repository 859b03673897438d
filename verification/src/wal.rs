//! The decisions of a streaming walk over the WAL: which header slots to
//! read, which prepares hold records of a given type that the last
//! checkpoint has not yet flushed, and where their bodies lie.
//!
//! WAL header fields (in a 256-byte header slot): message `size` (u32) at
//! 96, `op` (u64) at 224, `operation` (u8) at 252. A prepare's body follows
//! its 256-byte header in the prepares zone, one `message_size_max` slot
//! per journal slot.

use vstd::prelude::*;
use std::collections::VecDeque;
use crate::bytes::{le_field, read_u32, read_u64};
use crate::layout::TBConfig;
use crate::lsm::{
    block_slots, decode_records, is_real, law_slot_records_are_the_slots, lemma_slot_records_real,
    no_padding, slot_record, slot_records,
};
use crate::types::TBObject;

verus! {

/// Offset of the message `size` in a WAL header.
pub const WAL_HDR_SIZE: usize = 96;
/// Offset of the `op` number in a WAL header.
pub const WAL_HDR_OP: usize = 224;
/// Offset of the `operation` code in a WAL header.
pub const WAL_HDR_OPERATION: usize = 252;

/// Body size of the prepare whose header is `hdr`, when it creates records
/// of operation `operation`, is newer than `checkpoint_op` and holds at
/// least one 128-byte record; `None` for a slot to skip.
pub open spec fn wal_body_size(hdr: Seq<u8>, operation: u8, checkpoint_op: u64) -> Option<nat> {
    if hdr[252] != operation {
        None
    } else if le_field(hdr, 224, 8) == 0 || le_field(hdr, 224, 8) <= checkpoint_op {
        None
    } else if le_field(hdr, 96, 4) <= 256 {
        None
    } else if (le_field(hdr, 96, 4) - 256) / 128 == 0 {
        None
    } else {
        Some((le_field(hdr, 96, 4) - 256) as nat)
    }
}

/// Whether the offsets of every header slot and prepare body of `config`
/// fit in `u64`.
pub open spec fn wal_offsets_fit(config: TBConfig) -> bool {
    &&& config.spec_wal_prepares_start() + config.journal_slot_count * config.message_size_max
        + 256 <= u64::MAX
}

/// What a streaming walk over WAL records needs next.
pub enum WalStep<T> {
    /// The next record.
    Record(T),
    /// Read the 256-byte WAL header at this file offset and hand it to
    /// [`WalCursor::on_header`].
    ReadHeader(u64),
    /// Read `len` bytes of prepare body at `offset` and hand them to
    /// [`WalCursor::on_body`].
    ReadBody { offset: u64, len: usize },
    /// No more records.
    Done,
}

/// The decision state of a streaming walk over the WAL records of one type:
/// header slots in order, matching prepares' records in slot order with
/// padding slots skipped. After the first error the walk yields nothing
/// more.
pub struct WalCursor<T> {
    checkpoint_op: u64,
    operation: u8,
    slot: u64,
    slot_count: u64,
    headers_start: u64,
    prepares_start: u64,
    message_size_max: u64,
    body: Option<(u64, usize)>,
    records: VecDeque<T>,
    done: bool,
}

/// What a walk over WAL records holds, as its steps see it.
pub struct WalWalk<T> {
    /// Number of header slots handed out.
    pub slot: int,
    /// Number of journal slots.
    pub slots: int,
    /// Only prepares with an op above this are read.
    pub checkpoint: u64,
    /// File offset of the first header slot.
    pub headers_start: int,
    /// File offset of the first prepare.
    pub prepares_start: int,
    /// Size of a prepare slot.
    pub message_size_max: int,
    /// The body to read next, if a matching header was handed in.
    pub body: Option<(u64, usize)>,
    /// Records of the current prepare not yet yielded.
    pub pending: Seq<T>,
    /// Whether the walk stopped after an error.
    pub stopped: bool,
}

/// The step a walk in `w` takes next, and the walk after it.
pub open spec fn wal_next<T>(w: WalWalk<T>) -> (WalStep<T>, WalWalk<T>) {
    if w.stopped {
        (WalStep::Done, w)
    } else if w.pending.len() > 0 {
        (WalStep::Record(w.pending[0]), WalWalk { pending: w.pending.drop_first(), ..w })
    } else if w.body is Some {
        let (offset, len) = w.body->0;
        (WalStep::ReadBody { offset, len }, WalWalk { body: None, ..w })
    } else if w.slot < w.slots {
        (WalStep::ReadHeader((w.headers_start + w.slot * 256) as u64), WalWalk { slot: w.slot + 1, ..w })
    } else {
        (WalStep::Done, w)
    }
}

/// The walk after taking in the header `hdr` of the slot last handed out:
/// a matching prepare's body becomes the next thing to read.
pub open spec fn wal_on_header<T: TBObject>(w: WalWalk<T>, hdr: Seq<u8>) -> WalWalk<T> {
    match wal_body_size(hdr, T::spec_wal_operation(), w.checkpoint) {
        Some(n) => WalWalk {
            body: Some(((w.prepares_start + (w.slot - 1) * w.message_size_max + 256) as u64, n as usize)),
            ..w
        },
        None => w,
    }
}

/// The walk after taking in a prepare body: its records become pending.
pub open spec fn wal_on_body<T: TBObject>(w: WalWalk<T>, body: Seq<u8>) -> WalWalk<T> {
    WalWalk { pending: slot_records::<T>(body, 0, body.len() / 128), ..w }
}

impl<T: TBObject> WalCursor<T> {
    /// Number of header slots already handed out.
    pub closed spec fn slot_position(&self) -> int {
        self.slot as int
    }

    /// Number of journal slots of the walk.
    pub closed spec fn slots(&self) -> int {
        self.slot_count as int
    }

    /// Only prepares with an op above this are read.
    pub closed spec fn checkpoint(&self) -> u64 {
        self.checkpoint_op
    }

    /// File offset of the header of slot `slot`.
    pub closed spec fn header_offset(&self, slot: int) -> int {
        self.headers_start + slot * 256
    }

    /// File offset of the body of the prepare in slot `slot`.
    pub closed spec fn body_offset(&self, slot: int) -> int {
        self.prepares_start + slot * self.message_size_max + 256
    }

    /// The body to read next, if a matching header was handed in.
    pub closed spec fn pending_body(&self) -> Option<(u64, usize)> {
        self.body
    }

    /// Records of the current prepare not yet yielded.
    pub closed spec fn pending_records(&self) -> Seq<T> {
        self.records@
    }

    /// Whether the walk has stopped after an error.
    pub closed spec fn stopped(&self) -> bool {
        self.done
    }

    /// The walk as its steps see it.
    pub closed spec fn walk(&self) -> WalWalk<T> {
        WalWalk {
            slot: self.slot as int,
            slots: self.slot_count as int,
            checkpoint: self.checkpoint_op,
            headers_start: self.headers_start as int,
            prepares_start: self.prepares_start as int,
            message_size_max: self.message_size_max as int,
            body: self.body,
            pending: self.records@,
            stopped: self.done,
        }
    }

    /// The state's invariant.
    pub closed spec fn wf(&self) -> bool {
        &&& self.slot <= self.slot_count
        &&& self.operation == T::spec_wal_operation()
        &&& self.headers_start + self.slot_count * 256 <= self.prepares_start
        &&& self.prepares_start + self.slot_count * self.message_size_max + 256 <= u64::MAX
    }

    /// Start a walk over the WAL of `config`, keeping prepares whose op is
    /// above `checkpoint_op`.
    pub fn new(config: &TBConfig, checkpoint_op: u64) -> (c: WalCursor<T>)
        requires
            wal_offsets_fit(*config),
        ensures
            c.wf(),
            c.slot_position() == 0,
            c.slots() == config.journal_slot_count,
            c.checkpoint() == checkpoint_op,
            forall|s: int| #[trigger] c.header_offset(s) == config.spec_wal_headers_start() + s * 256,
            forall|s: int|
                #[trigger] c.body_offset(s) == config.spec_wal_prepares_start() + s
                    * config.message_size_max + 256,
            c.pending_body() is None,
            c.pending_records() == Seq::<T>::empty(),
            !c.stopped(),
            c.walk() == (WalWalk::<T> {
                slot: 0,
                slots: config.journal_slot_count as int,
                checkpoint: checkpoint_op,
                headers_start: config.spec_wal_headers_start(),
                prepares_start: config.spec_wal_prepares_start(),
                message_size_max: config.message_size_max as int,
                body: None,
                pending: Seq::empty(),
                stopped: false,
            }),
    {
        proof {
            assert(config.spec_wal_prepares_start() <= config.spec_wal_prepares_start()
                + config.journal_slot_count * config.message_size_max) by (nonlinear_arith)
                requires
                    config.journal_slot_count >= 0,
                    config.message_size_max >= 0,
            ;
        }
        let prepares_start = config.wal_prepares_start();
        let headers_start = config.wal_headers_start();
        WalCursor {
            checkpoint_op,
            operation: T::wal_operation(),
            slot: 0,
            slot_count: config.journal_slot_count,
            headers_start,
            prepares_start,
            message_size_max: config.message_size_max,
            body: None,
            records: VecDeque::new(),
            done: false,
        }
    }

    /// The next step of the walk: a pending record, else the body of the
    /// prepare whose header matched, else the next header slot, else the
    /// end.
    pub fn next_step(&mut self) -> (step: WalStep<T>)
        requires
            old(self).wf(),
        ensures
            final(self).wf(),
            final(self).slots() == old(self).slots(),
            final(self).checkpoint() == old(self).checkpoint(),
            final(self).stopped() == old(self).stopped(),
            forall|s: int| #[trigger] final(self).header_offset(s) == old(self).header_offset(s),
            forall|s: int| #[trigger] final(self).body_offset(s) == old(self).body_offset(s),
            (step, final(self).walk()) == wal_next(old(self).walk()),
            if old(self).stopped() {
                &&& step is Done
                &&& final(self).slot_position() == old(self).slot_position()
                &&& final(self).pending_body() == old(self).pending_body()
                &&& final(self).pending_records() == old(self).pending_records()
            } else if old(self).pending_records().len() > 0 {
                &&& step == WalStep::Record(old(self).pending_records()[0])
                &&& final(self).pending_records() == old(self).pending_records().drop_first()
                &&& final(self).slot_position() == old(self).slot_position()
                &&& final(self).pending_body() == old(self).pending_body()
            } else if old(self).pending_body() is Some {
                &&& old(self).pending_body() matches Some((o, l)) && step == (WalStep::<T>::ReadBody {
                    offset: o,
                    len: l,
                })
                &&& final(self).pending_body() is None
                &&& final(self).pending_records() == old(self).pending_records()
                &&& final(self).slot_position() == old(self).slot_position()
            } else if old(self).slot_position() < old(self).slots() {
                &&& step == WalStep::<T>::ReadHeader(
                    old(self).header_offset(old(self).slot_position()) as u64,
                )
                &&& final(self).slot_position() == old(self).slot_position() + 1
                &&& final(self).pending_body() == old(self).pending_body()
                &&& final(self).pending_records() == old(self).pending_records()
            } else {
                &&& step is Done
                &&& final(self).slot_position() == old(self).slot_position()
                &&& final(self).pending_body() == old(self).pending_body()
                &&& final(self).pending_records() == old(self).pending_records()
            },
    {
        if self.done {
            return WalStep::Done;
        }
        match self.records.pop_front() {
            Some(r) => {
                assert(self.records@ =~= old(self).records@.drop_first());
                return WalStep::Record(r);
            },
            None => {},
        }
        match self.body {
            Some((offset, len)) => {
                self.body = None;
                return WalStep::ReadBody { offset, len };
            },
            None => {},
        }
        if self.slot < self.slot_count {
            proof {
                assert(self.headers_start + self.slot * 256 <= self.headers_start + self.slot_count
                    * 256) by (nonlinear_arith)
                    requires
                        self.slot <= self.slot_count,
                ;
            }
            let offset = self.headers_start + self.slot * 256;
            self.slot = self.slot + 1;
            return WalStep::ReadHeader(offset);
        }
        WalStep::Done
    }

    /// Take in the 256-byte header of the slot last handed out: when its
    /// prepare matches, its body becomes the next thing to read.
    pub fn on_header(&mut self, hdr: &[u8])
        requires
            old(self).wf(),
            old(self).slot_position() > 0,
            hdr@.len() >= 256,
        ensures
            final(self).wf(),
            final(self).slot_position() == old(self).slot_position(),
            final(self).slots() == old(self).slots(),
            final(self).checkpoint() == old(self).checkpoint(),
            final(self).stopped() == old(self).stopped(),
            final(self).pending_records() == old(self).pending_records(),
            forall|s: int| #[trigger] final(self).header_offset(s) == old(self).header_offset(s),
            forall|s: int| #[trigger] final(self).body_offset(s) == old(self).body_offset(s),
            final(self).walk() == wal_on_header(old(self).walk(), hdr@),
            final(self).pending_body() == match wal_body_size(
                hdr@,
                T::spec_wal_operation(),
                old(self).checkpoint(),
            ) {
                Some(n) => Some(
                    (old(self).body_offset(old(self).slot_position() - 1) as u64, n as usize),
                ),
                None => old(self).pending_body(),
            },
    {
        if hdr[WAL_HDR_OPERATION] != self.operation {
            return;
        }
        let op = read_u64(hdr, WAL_HDR_OP);
        if op == 0 || op <= self.checkpoint_op {
            return;
        }
        let msg_size = read_u32(hdr, WAL_HDR_SIZE);
        if msg_size <= 256 {
            return;
        }
        let body_size = (msg_size - 256) as usize;
        if body_size / 128 == 0 {
            return;
        }
        let slot = self.slot - 1;
        proof {
            assert(self.prepares_start + slot * self.message_size_max <= self.prepares_start
                + self.slot_count * self.message_size_max) by (nonlinear_arith)
                requires
                    slot < self.slot_count,
            ;
        }
        let offset = self.prepares_start + slot * self.message_size_max + 256;
        self.body = Some((offset, body_size));
    }

    /// Take in the body of the matching prepare: its records become the
    /// pending ones.
    pub fn on_body(&mut self, body: &[u8])
        requires
            old(self).wf(),
        ensures
            final(self).wf(),
            final(self).slot_position() == old(self).slot_position(),
            final(self).slots() == old(self).slots(),
            final(self).checkpoint() == old(self).checkpoint(),
            final(self).stopped() == old(self).stopped(),
            final(self).pending_body() == old(self).pending_body(),
            forall|s: int| #[trigger] final(self).header_offset(s) == old(self).header_offset(s),
            forall|s: int| #[trigger] final(self).body_offset(s) == old(self).body_offset(s),
            final(self).pending_records() == slot_records::<T>(body@, 0, body@.len() / 128),
            final(self).walk() == wal_on_body(old(self).walk(), body@),
    {
        let count = body.len() / 128;
        self.records = decode_records(body, 0, count);
    }

    /// Stop the walk (after a read failed).
    pub fn stop(&mut self)
        requires
            old(self).wf(),
        ensures
            final(self).wf(),
            final(self).stopped(),
            final(self).walk() == (WalWalk { stopped: true, ..old(self).walk() }),
            final(self).slot_position() == old(self).slot_position(),
            final(self).slots() == old(self).slots(),
            final(self).checkpoint() == old(self).checkpoint(),
            final(self).pending_body() == old(self).pending_body(),
            final(self).pending_records() == old(self).pending_records(),
            forall|s: int| #[trigger] final(self).header_offset(s) == old(self).header_offset(s),
            forall|s: int| #[trigger] final(self).body_offset(s) == old(self).body_offset(s),
    {
        self.done = true;
    }
}


/// What a walk's driver hands it.
pub enum WalInput {
    /// Ask for the next step.
    Next,
    /// The header of the slot last handed out.
    Header(Seq<u8>),
    /// The body asked for.
    Body(Seq<u8>),
    /// A read failed: stop.
    Stop,
}

/// The steps a walk in `w` takes over the inputs `ins` (one per `Next`),
/// and the walk after them.
pub open spec fn wal_run<T: TBObject>(w: WalWalk<T>, ins: Seq<WalInput>) -> (Seq<WalStep<T>>, WalWalk<T>)
    decreases ins.len(),
{
    if ins.len() == 0 {
        (Seq::empty(), w)
    } else {
        let (steps, v) = wal_run(w, ins.drop_last());
        match ins.last() {
            WalInput::Next => (steps.push(wal_next(v).0), wal_next(v).1),
            WalInput::Header(h) => (steps, wal_on_header(v, h)),
            WalInput::Body(b) => (steps, wal_on_body(v, b)),
            WalInput::Stop => (steps, WalWalk { stopped: true, ..v }),
        }
    }
}

/// Whether every record step of `steps` is a real record.
pub open spec fn wal_records_real<T: TBObject>(steps: Seq<WalStep<T>>) -> bool {
    forall|i: int| 0 <= i < steps.len() ==> (#[trigger] steps[i] matches WalStep::Record(x) ==> !x.spec_is_padding())
}

/// Once a walk over WAL records has stopped after an error, it yields
/// nothing more, whatever it is handed.
pub proof fn law_wal_stopped_yields_nothing<T: TBObject>(w: WalWalk<T>, ins: Seq<WalInput>)
    requires
        w.stopped,
    ensures
        wal_run(w, ins).1.stopped,
        forall|i: int| 0 <= i < wal_run(w, ins).0.len() ==> #[trigger] wal_run(w, ins).0[i] is Done,
    decreases ins.len(),
{
    if ins.len() > 0 {
        law_wal_stopped_yields_nothing(w, ins.drop_last());
    }
}

/// A walk over WAL records yields real records only: padding slots of a
/// prepare body are skipped.
pub proof fn law_wal_skips_padding<T: TBObject>(w: WalWalk<T>, ins: Seq<WalInput>)
    requires
        no_padding(w.pending),
    ensures
        wal_records_real(wal_run(w, ins).0),
        no_padding(wal_run(w, ins).1.pending),
    decreases ins.len(),
{
    if ins.len() > 0 {
        law_wal_skips_padding(w, ins.drop_last());
        let (steps, v) = wal_run(w, ins.drop_last());
        match ins.last() {
            WalInput::Next => {
                let st = wal_next(v).0;
                assert forall|i: int| 0 <= i < steps.push(st).len() implies (#[trigger] steps.push(st)[i] matches WalStep::Record(x) ==> !x.spec_is_padding()) by {
                    if i < steps.len() {
                        assert(steps.push(st)[i] == steps[i]);
                    }
                }
                assert forall|i: int| 0 <= i < wal_next(v).1.pending.len() implies !(#[trigger] wal_next(v).1.pending[i]).spec_is_padding() by {
                    if v.pending.len() > 0 && !v.stopped {
                        assert(wal_next(v).1.pending[i] == v.pending[i + 1]);
                    }
                }
            },
            WalInput::Body(b) => {
                lemma_slot_records_real::<T>(b, 0, b.len() / 128);
            },
            _ => {},
        }
    }
}

/// Whether the header of slot `s` among `hdrs` names a prepare the walk in
/// `w` reads.
pub open spec fn slot_matches<T: TBObject>(w: WalWalk<T>, hdrs: Seq<Seq<u8>>, s: int) -> bool {
    wal_body_size(hdrs[s], T::spec_wal_operation(), w.checkpoint) is Some
}

/// A walk with nothing pending that is handed, for each header slot it
/// asks for, that slot's header out of `hdrs`: the walk when it has a body
/// to read or has run out of slots.
pub open spec fn wal_scan<T: TBObject>(w: WalWalk<T>, hdrs: Seq<Seq<u8>>) -> WalWalk<T>
    decreases w.slots - w.slot,
{
    if !w.stopped && w.pending.len() == 0 && w.body is None && w.slot < w.slots {
        wal_scan(wal_on_header(wal_next(w).1, hdrs[w.slot]), hdrs)
    } else {
        w
    }
}

/// Whether `s` is the least slot from where `w` stands whose prepare the
/// walk reads.
pub open spec fn least_matching<T: TBObject>(w: WalWalk<T>, hdrs: Seq<Seq<u8>>, s: int) -> bool {
    &&& w.slot <= s < w.slots
    &&& slot_matches(w, hdrs, s)
    &&& forall|p: int| w.slot <= p < s ==> !#[trigger] slot_matches(w, hdrs, p)
}

/// The body a walk reads for the prepare of slot `s`: at the slot's
/// prepare offset past its header, of the prepare's body size.
pub open spec fn slot_body<T: TBObject>(w: WalWalk<T>, hdrs: Seq<Seq<u8>>, s: int) -> Option<(u64, usize)> {
    Some(
        (
            (w.prepares_start + s * w.message_size_max + 256) as u64,
            wal_body_size(hdrs[s], T::spec_wal_operation(), w.checkpoint)->0 as usize,
        ),
    )
}

/// Scanning header slots, a walk stops at the least slot from where it
/// stands whose prepare it reads: it has handed out that slot and will
/// read that prepare's body. With no such slot it hands out every slot and
/// reads no body.
pub proof fn law_wal_scan_least_slot<T: TBObject>(w: WalWalk<T>, hdrs: Seq<Seq<u8>>)
    requires
        !w.stopped,
        w.pending.len() == 0,
        w.body is None,
        0 <= w.slot <= w.slots,
    ensures
        !wal_scan(w, hdrs).stopped,
        wal_scan(w, hdrs).pending.len() == 0,
        (forall|s: int| w.slot <= s < w.slots ==> !#[trigger] slot_matches(w, hdrs, s)) ==> wal_scan(
            w,
            hdrs,
        ).slot == w.slots && wal_scan(w, hdrs).body is None,
        (exists|s: int| w.slot <= s < w.slots && #[trigger] slot_matches(w, hdrs, s)) ==> exists|s: int|
            #[trigger] least_matching(w, hdrs, s),
        forall|s: int|
            #[trigger] least_matching(w, hdrs, s) ==> wal_scan(w, hdrs).slot == s + 1 && wal_scan(w, hdrs).body
                == slot_body(w, hdrs, s),
    decreases w.slots - w.slot,
{
    if w.slot < w.slots {
        let w1 = wal_on_header(wal_next(w).1, hdrs[w.slot]);
        if slot_matches(w, hdrs, w.slot) {
            assert(wal_scan(w1, hdrs) == w1);
            assert(least_matching(w, hdrs, w.slot));
            assert forall|s: int| #[trigger] least_matching(w, hdrs, s) implies s == w.slot by {
                if s > w.slot {
                    assert(!slot_matches(w, hdrs, w.slot));
                }
            }
        } else {
            assert(w1 == WalWalk { slot: w.slot + 1, ..w });
            law_wal_scan_least_slot(w1, hdrs);
            assert forall|s: int| #[trigger] least_matching(w, hdrs, s) implies least_matching(w1, hdrs, s) by {
                assert(slot_matches(w1, hdrs, s) == slot_matches(w, hdrs, s));
                assert forall|p: int| w1.slot <= p < s implies !#[trigger] slot_matches(w1, hdrs, p) by {
                    assert(slot_matches(w1, hdrs, p) == slot_matches(w, hdrs, p));
                }
            }
            if exists|s: int| w.slot <= s < w.slots && #[trigger] slot_matches(w, hdrs, s) {
                let s = choose|s: int| w.slot <= s < w.slots && #[trigger] slot_matches(w, hdrs, s);
                assert(slot_matches(w1, hdrs, s) == slot_matches(w, hdrs, s));
                let t = choose|t: int| #[trigger] least_matching(w1, hdrs, t);
                assert(least_matching(w, hdrs, t)) by {
                    assert(slot_matches(w1, hdrs, t) == slot_matches(w, hdrs, t));
                    assert forall|p: int| w.slot <= p < t implies !#[trigger] slot_matches(w, hdrs, p) by {
                        if p > w.slot {
                            assert(slot_matches(w1, hdrs, p) == slot_matches(w, hdrs, p));
                        }
                    }
                }
            }
            assert forall|s: int| w.slot <= s < w.slots && !slot_matches(w, hdrs, s) implies !#[trigger] slot_matches(w1, hdrs, s) by {}
        }
    }
}


/// A prepare body hands the walk the records of all of its whole 128-byte
/// slots, in slot order, padding slots skipped: when none is padding,
/// exactly `len / 128` records, each its slot decoded.
pub proof fn law_wal_body_records<T: TBObject>(w: WalWalk<T>, body: Seq<u8>)
    ensures
        ({
            let n = body.len() / 128;
            let p = wal_on_body(w, body).pending;
            &&& p == block_slots::<T>(body, 0, n).filter(is_real::<T>())
            &&& (forall|i: int| 0 <= i < n ==> !(#[trigger] slot_record::<T>(body, 0, i)).spec_is_padding()) ==> p.len()
                == n && forall|i: int| 0 <= i < n ==> #[trigger] p[i] == slot_record::<T>(body, 0, i)
        }),
{
    law_slot_records_are_the_slots::<T>(body, 0, body.len() / 128);
}

} // verus!
