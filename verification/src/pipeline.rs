//! The hand-over of the two scan buffers between the reader and the workers.
//!
//! Exactly two buffers exist. At any time one is the staging buffer, which
//! the reader fills, and the other is the worker buffer, which the workers
//! classify. A swap exchanges the two roles. It is permitted only once the
//! staging buffer is filled and every worker has finished its pass over the
//! worker buffer, so that no buffer is ever read and written at once.
//!
//! `Handoff` holds the decisions only. The threads, and the barrier that the
//! reader waits at, belong to the program that runs the scan: it asks the
//! `Handoff` for each step and acts on a step only if it was permitted.

use crate::math_util::ceil_div;
use vstd::prelude::*;

verus! {

/// One of the two buffers.
#[derive(Debug, Clone, Copy, PartialEq, Eq, Structural)]
pub enum Buffer {
    First,
    Second,
}

impl Buffer {
    /// The other buffer.
    pub open spec fn opposite(self) -> Buffer {
        match self {
            Buffer::First => Buffer::Second,
            Buffer::Second => Buffer::First,
        }
    }

    /// The other buffer.
    pub fn other(self) -> (other: Buffer)
        ensures
            other == self.opposite(),
    {
        match self {
            Buffer::First => Buffer::Second,
            Buffer::Second => Buffer::First,
        }
    }
}

/// The mathematical content of a hand-over state.
pub struct HandoffView {
    /// Number of workers in the pool.
    pub workers: nat,
    /// The buffer that is in the staging role.
    pub staging: Buffer,
    /// Whether the reader is writing into the staging buffer.
    pub filling: bool,
    /// Whether the staging buffer holds a chunk that is not handed over yet.
    pub staged: bool,
    /// Number of workers that are still reading the first buffer.
    pub reading_first: nat,
    /// Number of workers that are still reading the second buffer.
    pub reading_second: nat,
}

impl HandoffView {
    /// Whether `buffer` is being written.
    pub open spec fn written(self, buffer: Buffer) -> bool {
        self.filling && buffer == self.staging
    }

    /// Number of workers that are reading `buffer`.
    pub open spec fn readers(self, buffer: Buffer) -> nat {
        match buffer {
            Buffer::First => self.reading_first,
            Buffer::Second => self.reading_second,
        }
    }

    /// No worker reads the staging buffer, no more workers read than there
    /// are, and a filled staging buffer is not filled again before it is
    /// handed over.
    pub open spec fn wf(self) -> bool {
        &&& self.readers(self.staging) == 0
        &&& self.readers(self.staging.opposite()) <= self.workers
        &&& !(self.filling && self.staged)
    }

    /// Whether no buffer is read and written at once.
    pub open spec fn exclusive(self) -> bool {
        forall|buffer: Buffer| !(self.written(buffer) && self.readers(buffer) > 0)
    }

    /// The state before anything has been read.
    pub open spec fn initial(workers: nat) -> HandoffView {
        HandoffView {
            workers,
            staging: Buffer::First,
            filling: false,
            staged: false,
            reading_first: 0,
            reading_second: 0,
        }
    }

    /// Whether the reader may begin to fill the staging buffer.
    pub open spec fn can_begin_fill(self) -> bool {
        !self.filling && !self.staged
    }

    /// The state once the reader has begun to fill the staging buffer.
    pub open spec fn fill_begun(self) -> HandoffView {
        HandoffView { filling: true, ..self }
    }

    /// The state once the reader has filled the staging buffer.
    pub open spec fn fill_ended(self) -> HandoffView {
        HandoffView { filling: false, staged: true, ..self }
    }

    /// Whether the buffers may be swapped: the staging buffer is filled, and
    /// no worker is reading the worker buffer any more.
    pub open spec fn can_swap(self) -> bool {
        self.staged && self.readers(self.staging.opposite()) == 0
    }

    /// The state once the buffers are swapped: every worker starts a pass
    /// over the buffer that was filled.
    pub open spec fn swapped(self) -> HandoffView {
        HandoffView {
            staging: self.staging.opposite(),
            staged: false,
            reading_first: if self.staging == Buffer::First {
                self.workers
            } else {
                0
            },
            reading_second: if self.staging == Buffer::Second {
                self.workers
            } else {
                0
            },
            ..self
        }
    }

    /// Whether a worker is still on its pass over the worker buffer.
    pub open spec fn can_end_pass(self) -> bool {
        self.readers(self.staging.opposite()) > 0
    }

    /// The state once one more worker has finished its pass.
    pub open spec fn pass_ended(self) -> HandoffView {
        HandoffView {
            reading_first: if self.staging == Buffer::Second {
                (self.reading_first - 1) as nat
            } else {
                self.reading_first
            },
            reading_second: if self.staging == Buffer::First {
                (self.reading_second - 1) as nat
            } else {
                self.reading_second
            },
            ..self
        }
    }
}

/// In every well-formed state no buffer is read and written at once.
pub proof fn lemma_exclusive(state: HandoffView)
    requires
        state.wf(),
    ensures
        state.exclusive(),
        forall|buffer: Buffer| state.written(buffer) ==> state.readers(buffer) == 0,
{
}

/// Every permitted step leads from a well-formed state to a well-formed
/// state, and so does the first state of all.
pub proof fn lemma_steps_keep_order(state: HandoffView)
    requires
        state.wf(),
    ensures
        HandoffView::initial(state.workers).wf(),
        state.can_begin_fill() ==> state.fill_begun().wf(),
        state.filling ==> state.fill_ended().wf(),
        state.can_swap() ==> state.swapped().wf(),
        state.can_end_pass() ==> state.pass_ended().wf(),
{
}

/// The hand-over state of a scan.
#[derive(Debug, Clone, Copy, PartialEq, Eq)]
pub struct Handoff {
    workers: usize,
    staging: Buffer,
    filling: bool,
    staged: bool,
    reading_first: usize,
    reading_second: usize,
}

impl View for Handoff {
    type V = HandoffView;

    closed spec fn view(&self) -> HandoffView {
        HandoffView {
            workers: self.workers as nat,
            staging: self.staging,
            filling: self.filling,
            staged: self.staged,
            reading_first: self.reading_first as nat,
            reading_second: self.reading_second as nat,
        }
    }
}

impl Handoff {
    /// Well-formedness of the state.
    pub open spec fn wf(&self) -> bool {
        self@.wf()
    }

    /// The state before anything has been read, for a pool of `workers`
    /// workers.
    pub fn new(workers: usize) -> (handoff: Handoff)
        ensures
            handoff.wf(),
            handoff@ == HandoffView::initial(workers as nat),
    {
        Handoff {
            workers,
            staging: Buffer::First,
            filling: false,
            staged: false,
            reading_first: 0,
            reading_second: 0,
        }
    }

    /// The buffer that is in the staging role.
    pub fn staging(&self) -> (buffer: Buffer)
        ensures
            buffer == self@.staging,
    {
        self.staging
    }

    /// The buffer that is in the worker role.
    pub fn worker(&self) -> (buffer: Buffer)
        ensures
            buffer == self@.staging.opposite(),
    {
        self.staging.other()
    }

    /// Whether `buffer` is being written.
    pub fn is_written(&self, buffer: Buffer) -> (written: bool)
        ensures
            written == self@.written(buffer),
    {
        self.filling && buffer == self.staging
    }

    /// Number of workers that are reading `buffer`.
    pub fn readers(&self, buffer: Buffer) -> (readers: usize)
        ensures
            readers == self@.readers(buffer),
    {
        match buffer {
            Buffer::First => self.reading_first,
            Buffer::Second => self.reading_second,
        }
    }

    /// The reader asks to fill the staging buffer. It may, unless it is
    /// filling it already or the buffer holds a chunk that is not handed
    /// over yet; the answer is the buffer to fill.
    pub fn begin_fill(&mut self) -> (buffer: Option<Buffer>)
        requires
            old(self).wf(),
        ensures
            final(self).wf(),
            old(self)@.can_begin_fill() ==> buffer == Some(old(self)@.staging) && final(self)@
                == old(self)@.fill_begun(),
            !old(self)@.can_begin_fill() ==> buffer is None && final(self)@ == old(self)@,
    {
        if self.filling || self.staged {
            None
        } else {
            self.filling = true;
            Some(self.staging)
        }
    }

    /// The reader reports that the staging buffer is filled; `false` if it
    /// was not filling it.
    pub fn end_fill(&mut self) -> (accepted: bool)
        requires
            old(self).wf(),
        ensures
            final(self).wf(),
            accepted == old(self)@.filling,
            accepted ==> final(self)@ == old(self)@.fill_ended(),
            !accepted ==> final(self)@ == old(self)@,
    {
        if self.filling {
            self.filling = false;
            self.staged = true;
            true
        } else {
            false
        }
    }

    /// The reader asks to swap the buffers. It may once the staging buffer is
    /// filled and every worker has finished its pass; the answer is the
    /// buffer that the workers classify next.
    pub fn swap(&mut self) -> (buffer: Option<Buffer>)
        requires
            old(self).wf(),
        ensures
            final(self).wf(),
            old(self)@.can_swap() ==> buffer == Some(old(self)@.staging) && final(self)@ == old(
                self,
            )@.swapped(),
            !old(self)@.can_swap() ==> buffer is None && final(self)@ == old(self)@,
    {
        if !self.staged || self.readers(self.staging.other()) != 0 {
            return None;
        }
        let filled = self.staging;
        self.staging = filled.other();
        self.staged = false;
        match filled {
            Buffer::First => {
                self.reading_first = self.workers;
                self.reading_second = 0;
            },
            Buffer::Second => {
                self.reading_first = 0;
                self.reading_second = self.workers;
            },
        }
        Some(filled)
    }

    /// A worker reports that it has finished its pass over the worker
    /// buffer; `false` if no worker was on a pass.
    pub fn end_pass(&mut self) -> (accepted: bool)
        requires
            old(self).wf(),
        ensures
            final(self).wf(),
            accepted == old(self)@.can_end_pass(),
            accepted ==> final(self)@ == old(self)@.pass_ended(),
            !accepted ==> final(self)@ == old(self)@,
    {
        match self.staging {
            Buffer::First => {
                if self.reading_second == 0 {
                    return false;
                }
                self.reading_second = self.reading_second - 1;
            },
            Buffer::Second => {
                if self.reading_first == 0 {
                    return false;
                }
                self.reading_first = self.reading_first - 1;
            },
        }
        true
    }
}

/// Number of sectors that a worker takes at most: the sectors shared out
/// among the workers, rounded up.
pub open spec fn worker_share(sectors: int, workers: int) -> int {
    ceil_div(sectors, workers)
}

/// The first sector of worker number `worker`, when every worker before it
/// takes a full share as long as sectors are left; for `worker == workers`
/// this is the number of sectors.
pub open spec fn worker_start(sectors: int, workers: int, worker: int) -> int {
    if worker * worker_share(sectors, workers) < sectors {
        worker * worker_share(sectors, workers)
    } else {
        sectors
    }
}

/// The ranges of the workers are in order, do not overlap, and together are
/// the sectors from the first to the last: the first range starts at sector
/// 0, each range ends where the next begins, and the last ends with the
/// sectors.
pub proof fn lemma_worker_ranges(sectors: int, workers: int, worker: int)
    requires
        0 <= sectors,
        0 <= worker < workers,
    ensures
        worker_start(sectors, workers, 0) == 0,
        worker_start(sectors, workers, workers) == sectors,
        0 <= worker_start(sectors, workers, worker) <= worker_start(sectors, workers, worker + 1)
            <= sectors,
{
    let share = worker_share(sectors, workers);
    assert(share >= 0 && workers * share >= sectors) by (nonlinear_arith)
        requires
            0 <= sectors,
            0 < workers,
            share == if sectors == 0 {
                0
            } else {
                (sectors - 1) / workers + 1
            },
    ;
    assert(0 <= worker * share <= (worker + 1) * share) by (nonlinear_arith)
        requires
            0 <= worker,
            0 <= share,
    ;
    assert(0 * share == 0);
}

/// The sectors that worker number `worker` of `workers` classifies, of the
/// `sectors` sectors of a buffer: the first of them and their number.
pub fn worker_range(sectors: usize, workers: usize, worker: usize) -> (range: (usize, usize))
    requires
        workers > 0,
        worker < workers,
    ensures
        range.0 == worker_start(sectors as int, workers as int, worker as int),
        range.0 + range.1 == worker_start(sectors as int, workers as int, worker + 1),
        range.0 + range.1 <= sectors,
        worker == 0 ==> range.0 == 0,
        worker + 1 == workers ==> range.0 + range.1 == sectors,
{
    proof {
        lemma_worker_ranges(sectors as int, workers as int, worker as int);
    }
    let share = if sectors == 0 {
        0
    } else {
        (sectors - 1) / workers + 1
    };
    let first = match worker.checked_mul(share) {
        Some(product) => if product < sectors {
            product
        } else {
            sectors
        },
        None => sectors,
    };
    let next = match (worker + 1).checked_mul(share) {
        Some(product) => if product < sectors {
            product
        } else {
            sectors
        },
        None => sectors,
    };
    (first, next - first)
}

} // verus!
