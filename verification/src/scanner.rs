//! Building a sector map from the classification of a device's sectors.
//!
//! The scanner takes one classification per sector, in address order. It
//! keeps one segment open: the segment starts at an occupied sector and grows
//! by one bit per sector. Once more than `gap_threshold` empty sectors have
//! followed the last occupied one, and the byte that holds that last occupied
//! bit is complete, the segment is closed: it is cut after the byte of its
//! last occupied sector and appended to the map. The empty sectors after it
//! are not stored. A low threshold gives many short segments, a high one few
//! long ones whose bitmaps hold more zero bits.

use crate::codec::{encoded_len, SectorAddress, MAX_ADDRESS};
use crate::error::IndexError;
use crate::math_util::ceil_div;
use crate::sector_map::{
    appended, encodable, fits_device, index_bytes, lemma_append_is_insert, lemma_appended,
    lemma_serialization_round_trip, occupied, parse_index, segments_wf, SectorMap,
};
use crate::sector::{classification, classify, sector_count, sector_occupied, SectorSize};
use crate::segment::{bit_of, Segment, SegmentView, MAX_BITMAP_LEN};
use vstd::prelude::*;

verus! {

/// `byte` with bit `k` set.
pub open spec fn with_bit(byte: u8, k: u8) -> u8 {
    byte | (1u8 << k)
}

/// The segment in progress.
pub struct OpenRun {
    /// Address of the first sector of the run, which is occupied.
    pub start: int,
    /// Number of sectors recorded so far.
    pub count: int,
    /// Index, within the run, of the last occupied sector.
    pub last: int,
    /// The bits recorded so far, eight to a byte.
    pub bitmap: Seq<u8>,
}

impl OpenRun {
    /// Whether the run records `addr`.
    pub open spec fn covers(self, addr: int) -> bool {
        self.start <= addr < self.start + self.count
    }

    /// The `i`-th recorded bit.
    pub open spec fn bit(self, i: int) -> bool {
        bit_of(self.bitmap[i / 8], (i % 8) as u8)
    }

    /// Number of bitmap bytes up to and including the one that holds the last
    /// occupied sector.
    pub open spec fn keep(self) -> int {
        self.last / 8 + 1
    }

    /// Number of empty sectors seen since the last occupied one.
    pub open spec fn empty_run(self) -> int {
        self.count - 1 - self.last
    }

    pub open spec fn wf(self) -> bool {
        &&& 0 <= self.start
        &&& 0 <= self.last < self.count <= 8 * MAX_BITMAP_LEN
        &&& self.start + self.count <= u64::MAX
        &&& self.bitmap.len() == ceil_div(self.count, 8)
        &&& self.bit(self.last)
        &&& forall|i: int| self.last < i < 8 * self.bitmap.len() ==> !#[trigger] self.bit(i)
    }

    /// The run with the classification of one more sector.
    pub open spec fn extended(self, is_set: bool) -> OpenRun {
        let slot = self.count / 8;
        let k = (self.count % 8) as u8;
        OpenRun {
            start: self.start,
            count: self.count + 1,
            last: if is_set {
                self.count
            } else {
                self.last
            },
            bitmap: if k == 0 {
                self.bitmap.push(
                    if is_set {
                        1u8
                    } else {
                        0u8
                    },
                )
            } else if is_set {
                self.bitmap.update(slot, with_bit(self.bitmap[slot], k))
            } else {
                self.bitmap
            },
        }
    }

    /// Whether the run is to be closed: the gap after its last occupied
    /// sector has passed the threshold and the byte of that sector is
    /// complete, or the bitmap has reached the longest that can be stored.
    pub open spec fn closes(self, gap_threshold: int) -> bool {
        ||| self.empty_run() > gap_threshold && self.count >= 8 * self.keep()
        ||| self.count >= 8 * MAX_BITMAP_LEN
    }

    /// The run as a stored segment, cut after the byte of its last occupied
    /// sector.
    pub open spec fn trimmed(self) -> SegmentView {
        SegmentView {
            start: self.start,
            bit_count: 8 * self.keep(),
            bitmap: self.bitmap.take(self.keep()),
            to_eof: false,
        }
    }

    /// The run as the terminal segment of a device of `device_sectors`
    /// sectors.
    pub open spec fn terminal(self, device_sectors: int) -> SegmentView {
        SegmentView {
            start: self.start,
            bit_count: device_sectors - self.start,
            bitmap: self.bitmap.take(self.keep()),
            to_eof: true,
        }
    }

    /// The segment that the run becomes at the end of a device of
    /// `device_sectors` sectors: the terminal one if, cut after the byte of
    /// its last occupied sector, it reaches the last sector.
    pub open spec fn at_end(self, device_sectors: int) -> SegmentView {
        if self.start + 8 * self.keep() >= device_sectors {
            self.terminal(device_sectors)
        } else {
            self.trimmed()
        }
    }
}

/// The mathematical content of a scanner.
pub struct ScannerView {
    /// The segments closed so far.
    pub closed: Seq<SegmentView>,
    /// The segment in progress, if there is one.
    pub open: Option<OpenRun>,
    /// Address of the next sector to be classified.
    pub next: int,
    /// Number of empty sectors after which an open segment is closed.
    pub gap_threshold: int,
    /// Number of sectors of the device.
    pub device_sectors: int,
}

impl ScannerView {
    /// Address before which every closed segment ends.
    pub open spec fn frontier(self) -> int {
        match self.open {
            Some(run) => run.start,
            None => self.next,
        }
    }

    pub open spec fn wf(self) -> bool {
        &&& segments_wf(self.closed)
        &&& 0 <= self.next <= self.device_sectors <= u64::MAX
        &&& 0 <= self.gap_threshold
        &&& self.closed.len() > 0 ==> !self.closed.last().to_eof
            && self.closed.last().next_floor() <= self.frontier()
        &&& self.open matches Some(run) ==> run.wf() && run.start + run.count == self.next
            && run.count < 8 * MAX_BITMAP_LEN
    }

    /// Whether the sector at `addr` has been seen occupied.
    pub open spec fn occupancy(self, addr: int) -> bool {
        ||| occupied(self.closed, addr)
        ||| self.open matches Some(run) && run.covers(addr) && run.bit(addr - run.start)
    }

    /// The state after the next sector has been classified.
    pub open spec fn pushed(self, is_set: bool) -> ScannerView {
        match self.open {
            None => ScannerView {
                open: if is_set {
                    Some(OpenRun { start: self.next, count: 1, last: 0, bitmap: seq![1u8] })
                } else {
                    None
                },
                next: self.next + 1,
                ..self
            },
            Some(run) => {
                let longer = run.extended(is_set);
                if longer.closes(self.gap_threshold) {
                    ScannerView {
                        closed: appended(self.closed, longer.trimmed()),
                        open: None,
                        next: self.next + 1,
                        ..self
                    }
                } else {
                    ScannerView { open: Some(longer), next: self.next + 1, ..self }
                }
            },
        }
    }

    /// The segments of the finished map: the closed ones, and what the open
    /// one becomes at the end of the device.
    pub open spec fn finished(self) -> Seq<SegmentView> {
        match self.open {
            None => self.closed,
            Some(run) => appended(self.closed, run.at_end(self.device_sectors)),
        }
    }
}

proof fn lemma_bits(byte: u8, k: u8, j: u8)
    requires
        k < 8,
        j < 8,
    ensures
        bit_of(with_bit(byte, k), j) == (j == k || bit_of(byte, j)),
        !bit_of(0u8, j),
        bit_of(1u8, j) == (j == 0),
{
    assert(((byte | (1u8 << k)) >> j) & 1u8 == 1u8 <==> (j == k || (byte >> j) & 1u8 == 1u8))
        by (bit_vector)
        requires
            k < 8,
            j < 8,
    ;
    assert((0u8 >> j) & 1u8 != 1u8) by (bit_vector)
        requires
            j < 8,
    ;
    assert(((1u8 >> j) & 1u8 == 1u8) <==> j == 0) by (bit_vector)
        requires
            j < 8,
    ;
}

/// Extending a run keeps the bits recorded so far and records the new one.
pub proof fn lemma_extended(run: OpenRun, is_set: bool)
    requires
        run.wf(),
        run.start + run.count < u64::MAX,
        run.count < 8 * MAX_BITMAP_LEN,
    ensures
        run.extended(is_set).bitmap.len() == ceil_div(run.count + 1, 8),
        forall|i: int| 0 <= i < run.count ==> #[trigger] run.extended(is_set).bit(i) == run.bit(i),
        run.extended(is_set).bit(run.count) == is_set,
        forall|i: int|
            run.extended(is_set).last < i < 8 * run.extended(is_set).bitmap.len()
                ==> !#[trigger] run.extended(is_set).bit(i),
        run.extended(is_set).wf(),
{
    let longer = run.extended(is_set);
    let slot = run.count / 8;
    let k = (run.count % 8) as u8;
    assert forall|i: int| 0 <= i < 8 * longer.bitmap.len() implies #[trigger] longer.bit(i) == (if i
        == run.count {
        is_set
    } else if i < 8 * run.bitmap.len() {
        run.bit(i)
    } else {
        false
    }) by {
        let j = (i % 8) as u8;
        if k == 0 {
            if i / 8 == slot {
                lemma_bits(0u8, 0u8, j);
            } else {
                assert(longer.bitmap[i / 8] == run.bitmap[i / 8]);
            }
        } else if is_set {
            if i / 8 == slot {
                lemma_bits(run.bitmap[slot], k, j);
                if j == k {
                    assert(i == run.count);
                } else {
                    assert(i != run.count);
                }
            } else {
                assert(longer.bitmap[i / 8] == run.bitmap[i / 8]);
            }
        } else {
            if i == run.count {
                assert(run.last < i < 8 * run.bitmap.len());
                assert(!run.bit(i));
            }
        }
    }
    assert(run.count < 8 * longer.bitmap.len());
    assert(longer.bit(run.count) == is_set);
    assert forall|i: int| 0 <= i < run.count implies #[trigger] longer.bit(i) == run.bit(i) by {
        assert(i < 8 * run.bitmap.len());
    }
    assert(is_set || longer.bit(longer.last) == run.bit(run.last));
}

/// With a threshold of seven sectors or more, the byte of the last occupied
/// sector is complete by the time the gap has passed the threshold: the run
/// closes as soon as it has.
pub proof fn lemma_closes_with_the_gap(run: OpenRun, gap_threshold: int)
    requires
        run.wf(),
        gap_threshold >= 7,
    ensures
        run.closes(gap_threshold) == (run.empty_run() > gap_threshold || run.count >= 8
            * MAX_BITMAP_LEN),
{
}

/// Cutting a run after the byte of its last occupied sector loses no
/// occupied sector.
pub proof fn lemma_trimmed(run: OpenRun)
    requires
        run.wf(),
        run.count >= 8 * run.keep(),
    ensures
        run.trimmed().wf(),
        run.trimmed().bit_count > 0,
        run.trimmed().end() <= run.start + run.count,
        forall|addr: int|
            (#[trigger] run.trimmed().covers(addr) && run.trimmed().bit(addr - run.start)) == (
            run.covers(addr) && run.bit(addr - run.start)),
{
    let seg = run.trimmed();
    assert forall|addr: int|
        (#[trigger] seg.covers(addr) && seg.bit(addr - run.start)) == (run.covers(addr) && run.bit(
            addr - run.start,
        )) by {
        let i = addr - run.start;
        if seg.covers(addr) {
            assert(seg.bitmap[i / 8] == run.bitmap[i / 8]);
        } else if run.covers(addr) {
            assert(run.last < i < 8 * run.bitmap.len());
            assert(!run.bit(i));
        }
    }
}

/// A run that reaches the end of the device is its terminal segment, bit for
/// bit.
pub proof fn lemma_terminal(run: OpenRun, device_sectors: int)
    requires
        run.wf(),
        run.start + run.count == device_sectors,
        run.start + 8 * run.keep() >= device_sectors,
    ensures
        run.terminal(device_sectors).wf(),
        run.terminal(device_sectors).end() == device_sectors,
        forall|addr: int|
            (#[trigger] run.terminal(device_sectors).covers(addr) && run.terminal(
                device_sectors,
            ).bit(addr - run.start)) == (run.covers(addr) && run.bit(addr - run.start)),
{
    let seg = run.terminal(device_sectors);
    assert(run.keep() == run.bitmap.len());
    assert(seg.bitmap =~= run.bitmap);
}

/// Every closed segment starts and ends before the floor that the last one
/// sets.
proof fn lemma_closed_below(segs: Seq<SegmentView>, addr: int)
    requires
        segments_wf(segs),
        segs.len() > 0 ==> segs.last().next_floor() <= addr,
    ensures
        forall|i: int|
            0 <= i < segs.len() ==> (#[trigger] segs[i]).start < addr && segs[i].end() <= addr,
{
    assert forall|i: int| 0 <= i < segs.len() implies (#[trigger] segs[i]).start < addr
        && segs[i].end() <= addr by {
        let n = segs.len() - 1;
        if i < n {
            assert(segs[i].start < segs[n].start && segs[i].end() <= segs[n].start);
        }
    }
}

/// Classifying one more sector keeps the scanner in order and records
/// exactly that sector's classification.
pub proof fn lemma_pushed(state: ScannerView, is_set: bool)
    requires
        state.wf(),
        state.next < state.device_sectors,
    ensures
        state.pushed(is_set).wf(),
        state.pushed(is_set).next == state.next + 1,
        state.pushed(is_set).device_sectors == state.device_sectors,
        state.pushed(is_set).gap_threshold == state.gap_threshold,
        forall|addr: int| #[trigger]
            state.pushed(is_set).occupancy(addr) == (if addr == state.next {
                is_set
            } else {
                state.occupancy(addr)
            }),
{
    let after = state.pushed(is_set);
    lemma_closed_below(state.closed, state.next);
    match state.open {
        None => {
            if is_set {
                let run = after.open->0;
                assert forall|i: int| 0 <= i < 8 implies #[trigger] run.bit(i) == (i == 0) by {
                    lemma_bits(0u8, 0u8, (i % 8) as u8);
                }
                assert(run.wf());
            }
            assert forall|addr: int| #[trigger]
                after.occupancy(addr) == (if addr == state.next {
                    is_set
                } else {
                    state.occupancy(addr)
                }) by {
                if addr == state.next {
                    assert(!occupied(state.closed, addr));
                }
            }
        },
        Some(run) => {
            let longer = run.extended(is_set);
            lemma_extended(run, is_set);
            lemma_closed_below(state.closed, run.start);
            if longer.closes(state.gap_threshold) {
                let seg = longer.trimmed();
                lemma_trimmed(longer);
                lemma_appended(state.closed, seg);
                assert(after.closed.last().end() == seg.end());
                assert(after.closed.last().bit_count > 0);
                assert forall|addr: int| #[trigger]
                    after.occupancy(addr) == (if addr == state.next {
                        is_set
                    } else {
                        state.occupancy(addr)
                    }) by {
                    assert(occupied(after.closed, addr) == (occupied(state.closed, addr) || (
                    seg.covers(addr) && seg.bit(addr - seg.start))));
                    assert((seg.covers(addr) && seg.bit(addr - run.start)) == (longer.covers(addr)
                        && longer.bit(addr - run.start)));
                    if run.covers(addr) {
                        assert(longer.bit(addr - run.start) == run.bit(addr - run.start));
                    }
                    if addr == state.next {
                        assert(!occupied(state.closed, addr));
                    }
                }
            } else {
                assert forall|addr: int| #[trigger]
                    after.occupancy(addr) == (if addr == state.next {
                        is_set
                    } else {
                        state.occupancy(addr)
                    }) by {
                    if run.covers(addr) {
                        assert(longer.bit(addr - run.start) == run.bit(addr - run.start));
                    }
                    if addr == state.next {
                        assert(!occupied(state.closed, addr));
                    }
                }
            }
        },
    }
}

/// The finished map is in order, its terminal segment ends with the device,
/// and it says of every sector what the scanner saw.
pub proof fn lemma_finished(state: ScannerView)
    requires
        state.wf(),
        state.next == state.device_sectors,
    ensures
        segments_wf(state.finished()),
        fits_device(state.finished(), state.device_sectors),
        forall|addr: int| #[trigger] occupied(state.finished(), addr) == state.occupancy(addr),
{
    match state.open {
        None => {},
        Some(run) => {
            let seg = run.at_end(state.device_sectors);
            if run.start + 8 * run.keep() >= state.device_sectors {
                lemma_terminal(run, state.device_sectors);
            } else {
                lemma_trimmed(run);
            }
            lemma_appended(state.closed, seg);
            assert(state.finished().last().to_eof ==> state.finished().last().end() == seg.end());
            assert forall|addr: int| #[trigger]
                occupied(state.finished(), addr) == state.occupancy(addr) by {
                assert(occupied(state.finished(), addr) == (occupied(state.closed, addr) || (
                seg.covers(addr) && seg.bit(addr - seg.start))));
                assert((seg.covers(addr) && seg.bit(addr - run.start)) == (run.covers(addr)
                    && run.bit(addr - run.start)));
            }
        },
    }
}

/// Every segment of the finished map starts on the device.
pub proof fn lemma_finished_on_device(state: ScannerView)
    requires
        state.wf(),
        state.next == state.device_sectors,
    ensures
        forall|i: int|
            0 <= i < state.finished().len() ==> 0 <= (#[trigger] state.finished()[i]).start
                < state.device_sectors,
{
    lemma_closed_below(state.closed, state.frontier());
    match state.open {
        None => {
            assert forall|i: int| 0 <= i < state.closed.len() implies 0 <= (
            #[trigger] state.closed[i]).start by {
                assert(state.closed[i].wf());
            }
        },
        Some(run) => {
            let done = state.finished();
            assert forall|i: int| 0 <= i < done.len() implies 0 <= (#[trigger] done[i]).start
                < state.device_sectors by {
                if i < state.closed.len() {
                    assert(state.closed[i].wf());
                    assert(done[i].start == state.closed[i].start);
                }
            }
        },
    }
}

/// Reading the persisted index of a finished scan gives the map back, if the
/// device is not larger than compressed addresses reach.
pub proof fn lemma_finished_round_trip(state: ScannerView)
    requires
        state.wf(),
        state.next == state.device_sectors,
        state.device_sectors <= MAX_ADDRESS + 1,
    ensures
        encodable(state.finished()),
        parse_index(index_bytes(state.finished()), 0, 0, state.device_sectors) == Ok::<
            Seq<SegmentView>,
            int,
        >(state.finished()),
{
    lemma_finished(state);
    lemma_finished_on_device(state);
    lemma_serialization_round_trip(state.finished(), state.device_sectors);
}

/// The scanner's state before any sector of a device of `device_sectors`
/// sectors has been classified.
pub open spec fn initial(gap_threshold: int, device_sectors: int) -> ScannerView {
    ScannerView {
        closed: Seq::empty(),
        open: None,
        next: 0,
        gap_threshold,
        device_sectors,
    }
}

/// The scanner's state after the sectors of `sectors` have been classified in
/// order, `true` standing for an occupied sector.
pub open spec fn scanned(sectors: Seq<bool>, gap_threshold: int, device_sectors: int)
    -> ScannerView
    decreases sectors.len(),
{
    if sectors.len() == 0 {
        initial(gap_threshold, device_sectors)
    } else {
        scanned(sectors.drop_last(), gap_threshold, device_sectors).pushed(sectors.last())
    }
}

/// After any number of sectors the scanner is in order and has seen exactly
/// what it was given.
pub proof fn lemma_scanned(sectors: Seq<bool>, gap_threshold: int, device_sectors: int)
    requires
        0 <= gap_threshold,
        sectors.len() <= device_sectors <= u64::MAX,
    ensures
        scanned(sectors, gap_threshold, device_sectors).wf(),
        scanned(sectors, gap_threshold, device_sectors).next == sectors.len(),
        scanned(sectors, gap_threshold, device_sectors).device_sectors == device_sectors,
        scanned(sectors, gap_threshold, device_sectors).gap_threshold == gap_threshold,
        forall|addr: int| #[trigger]
            scanned(sectors, gap_threshold, device_sectors).occupancy(addr) == (0 <= addr
                < sectors.len() && sectors[addr]),
    decreases sectors.len(),
{
    if sectors.len() == 0 {
        let start = initial(gap_threshold, device_sectors);
        assert forall|addr: int| !#[trigger] start.occupancy(addr) by {}
    } else {
        let before = scanned(sectors.drop_last(), gap_threshold, device_sectors);
        lemma_scanned(sectors.drop_last(), gap_threshold, device_sectors);
        lemma_pushed(before, sectors.last());
        assert forall|addr: int| #[trigger]
            before.pushed(sectors.last()).occupancy(addr) == (0 <= addr < sectors.len()
                && sectors[addr]) by {
            if 0 <= addr < sectors.len() - 1 {
                assert(sectors.drop_last()[addr] == sectors[addr]);
            }
        }
    }
}

/// The segment in progress, as the scanner holds it.
#[derive(Debug, Clone, PartialEq, Eq)]
struct OpenSegment {
    start: u64,
    count: u64,
    last: u64,
    bitmap: Vec<u8>,
}

impl View for OpenSegment {
    type V = OpenRun;

    closed spec fn view(&self) -> OpenRun {
        OpenRun {
            start: self.start as int,
            count: self.count as int,
            last: self.last as int,
            bitmap: self.bitmap@,
        }
    }
}

/// Builds a sector map from the classification of a device's sectors, taken
/// in address order.
#[derive(Debug, Clone, PartialEq, Eq)]
pub struct Scanner {
    map: SectorMap,
    open: Option<OpenSegment>,
    next: u64,
    gap_threshold: u64,
    device_sectors: u64,
}

impl View for Scanner {
    type V = ScannerView;

    closed spec fn view(&self) -> ScannerView {
        ScannerView {
            closed: self.map@,
            open: match self.open {
                Some(run) => Some(run@),
                None => None,
            },
            next: self.next as int,
            gap_threshold: self.gap_threshold as int,
            device_sectors: self.device_sectors as int,
        }
    }
}

impl Scanner {
    /// Well-formedness of the scanner's state.
    pub open spec fn wf(&self) -> bool {
        self@.wf()
    }

    /// A scanner for a device of `device_sectors` sectors that closes a
    /// segment once more than `gap_threshold` empty sectors have followed its
    /// last occupied one.
    pub fn new(device_sectors: u64, gap_threshold: u64) -> (scanner: Scanner)
        ensures
            scanner.wf(),
            scanner@ == initial(gap_threshold as int, device_sectors as int),
    {
        let scanner = Scanner {
            map: SectorMap::new(),
            open: None,
            next: 0,
            gap_threshold,
            device_sectors,
        };
        assert(scanner@.closed =~= Seq::<SegmentView>::empty());
        scanner
    }

    /// Address of the next sector to be classified.
    pub fn position(&self) -> (next: SectorAddress)
        ensures
            next == self@.next,
    {
        self.next
    }

    /// Whether every sector of the device has been classified.
    pub fn is_complete(&self) -> (complete: bool)
        requires
            self.wf(),
        ensures
            complete == (self@.next == self@.device_sectors),
    {
        self.next == self.device_sectors
    }

    /// The segments closed so far.
    pub fn map(&self) -> (map: &SectorMap)
        requires
            self.wf(),
        ensures
            map@ == self@.closed,
            map.wf(),
    {
        &self.map
    }

    /// Takes the classification of the next sector: `true` for a sector with
    /// at least one non-zero byte.
    pub fn push(&mut self, is_set: bool)
        requires
            old(self).wf(),
            old(self)@.next < old(self)@.device_sectors,
        ensures
            final(self).wf(),
            final(self)@ == old(self)@.pushed(is_set),
    {
        proof {
            lemma_pushed(self@, is_set);
        }
        let ghost before = self@;
        match self.open.take() {
            None => {
                if is_set {
                    let mut bitmap: Vec<u8> = Vec::new();
                    bitmap.push(1u8);
                    assert(bitmap@ =~= seq![1u8]);
                    self.open = Some(OpenSegment { start: self.next, count: 1, last: 0, bitmap });
                }
            },
            Some(run) => {
                let ghost longer = run@.extended(is_set);
                let mut run = run;
                proof {
                    lemma_extended(run@, is_set);
                }
                let k: u8 = (run.count % 8) as u8;
                if k == 0 {
                    run.bitmap.push(
                        if is_set {
                            1u8
                        } else {
                            0u8
                        },
                    );
                } else if is_set {
                    let len = run.bitmap.len();
                    assert(run.count / 8 < len);
                    let slot = (run.count / 8) as usize;
                    let byte = run.bitmap[slot];
                    run.bitmap.set(slot, byte | (1u8 << k));
                }
                if is_set {
                    run.last = run.count;
                }
                run.count = run.count + 1;
                assert(run@.bitmap =~= longer.bitmap);
                assert(run@ == longer);
                let keep: u64 = run.last / 8 + 1;
                let empty_run: u64 = run.count - 1 - run.last;
                if (empty_run > self.gap_threshold && run.count >= 8 * keep) || run.count >= 8 * (
                MAX_BITMAP_LEN as u64) {
                    proof {
                        lemma_trimmed(longer);
                    }
                    let mut bitmap = run.bitmap;
                    bitmap.truncate(keep as usize);
                    assert(bitmap@ =~= longer.bitmap.take(longer.keep()));
                    let seg = Segment::new(run.start, bitmap).unwrap();
                    assert(seg@ == longer.trimmed());
                    proof {
                        lemma_append_is_insert(self.map@, seg@);
                    }
                    let accepted = self.map.append_segment(seg);
                    assert(accepted is Ok);
                } else {
                    self.open = Some(run);
                }
            },
        }
        self.next = self.next + 1;
        assert(self@ == before.pushed(is_set));
    }

    /// Closes the scan at the end of the device: an open segment is closed,
    /// as the terminal segment if it reaches the last sector.
    pub fn finish(self) -> (map: SectorMap)
        requires
            self.wf(),
            self@.next == self@.device_sectors,
        ensures
            map.wf(),
            map@ == self@.finished(),
            fits_device(map@, self@.device_sectors),
            forall|addr: int| #[trigger] occupied(map@, addr) == self@.occupancy(addr),
    {
        proof {
            lemma_finished(self@);
        }
        let mut map = self.map;
        match self.open {
            None => {},
            Some(run) => {
                let ghost model = run@;
                let keep: u64 = run.last / 8 + 1;
                let seg = if 8 * keep >= self.device_sectors - run.start {
                    proof {
                        lemma_terminal(model, self.device_sectors as int);
                    }
                    let mut bitmap = run.bitmap;
                    bitmap.truncate(keep as usize);
                    assert(bitmap@ =~= model.bitmap.take(model.keep()));
                    Segment::to_end(run.start, bitmap, self.device_sectors).unwrap()
                } else {
                    proof {
                        lemma_trimmed(model);
                    }
                    let mut bitmap = run.bitmap;
                    bitmap.truncate(keep as usize);
                    assert(bitmap@ =~= model.bitmap.take(model.keep()));
                    Segment::new(run.start, bitmap).unwrap()
                };
                assert(seg@ == model.at_end(self.device_sectors as int));
                proof {
                    lemma_append_is_insert(map@, seg@);
                }
                let accepted = map.append_segment(seg);
                assert(accepted is Ok);
            },
        }
        map
    }

    /// Ends the scan because the device could not be read at `byte_offset`.
    /// The open segment is discarded; the map of the segments closed so far
    /// stays whole and can be queried.
    pub fn fail_at(self, byte_offset: u64) -> (outcome: (IndexError, SectorMap))
        requires
            self.wf(),
        ensures
            outcome.0 == (IndexError::DeviceReadError { byte_offset }),
            outcome.1.wf(),
            outcome.1@ == self@.closed,
    {
        (IndexError::DeviceReadError { byte_offset }, self.map)
    }

    /// Gives up the scan. The open segment is discarded, so that the map
    /// claims nothing past the last segment that was closed.
    pub fn abort(self) -> (map: SectorMap)
        requires
            self.wf(),
        ensures
            map.wf(),
            map@ == self@.closed,
    {
        self.map
    }
}

/// The map of a device whose sectors are classified by `sectors`, `true`
/// standing for an occupied sector: it says of every sector of the device
/// what `sectors` says, and of every other address that it is empty.
pub fn build_map(sectors: &[bool], gap_threshold: u64) -> (map: SectorMap)
    ensures
        map.wf(),
        map@ == scanned(sectors@, gap_threshold as int, sectors@.len() as int).finished(),
        fits_device(map@, sectors@.len() as int),
        forall|addr: int| #[trigger]
            occupied(map@, addr) == (0 <= addr < sectors@.len() && sectors@[addr]),
{
    let total = sectors.len();
    let mut scanner = Scanner::new(total as u64, gap_threshold);
    let mut i: usize = 0;
    assert(sectors@.take(0) =~= Seq::<bool>::empty());
    while i < total
        invariant
            total == sectors@.len(),
            i <= total,
            scanner.wf(),
            scanner@ == scanned(sectors@.take(i as int), gap_threshold as int, total as int),
        decreases total - i,
    {
        proof {
            lemma_scanned(sectors@.take(i as int), gap_threshold as int, total as int);
            assert(sectors@.take(i + 1).drop_last() =~= sectors@.take(i as int));
        }
        scanner.push(sectors[i]);
        i += 1;
    }
    proof {
        assert(sectors@.take(total as int) =~= sectors@);
        lemma_scanned(sectors@, gap_threshold as int, total as int);
    }
    scanner.finish()
}

/// Scans `data`, the whole content of a device, cut into sectors of the size
/// `sector_size`: the map says of every sector of the device whether it
/// holds a non-zero byte, and of every other address that it is empty.
pub fn scan_device(data: &[u8], sector_size: SectorSize, gap_threshold: u64) -> (map: SectorMap)
    ensures
        map.wf(),
        map@ == scanned(
            classification(data@, sector_size.byte_len()),
            gap_threshold as int,
            sector_count(data@.len() as int, sector_size.byte_len()),
        ).finished(),
        fits_device(map@, sector_count(data@.len() as int, sector_size.byte_len())),
        forall|addr: int| #[trigger]
            occupied(map@, addr) == (0 <= addr < sector_count(
                data@.len() as int,
                sector_size.byte_len(),
            ) && sector_occupied(data@, sector_size.byte_len(), addr)),
{
    let bits = classify(data, sector_size.bytes());
    build_map(bits.as_slice(), gap_threshold)
}

/// The threshold at which closing a segment and opening the next costs as
/// many bits as the zero bits that keeping it open would store: eight times
/// the bytes of a segment's fixed part, which is the compressed address of a
/// sector near the end of the device and the three-byte length field.
pub fn default_gap_threshold(device_sectors: u64) -> (gap_threshold: u64)
    ensures
        gap_threshold == 8 * (encoded_len(device_sectors) + 3),
{
    if device_sectors < 0x4000_0000 {
        56
    } else if device_sectors < 0x40_0000_0000 {
        64
    } else if device_sectors < 0x4000_0000_0000 {
        72
    } else {
        88
    }
}

} // verus!
