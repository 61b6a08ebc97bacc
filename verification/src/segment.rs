//! Segments: contiguous runs of sectors with an explicitly stored occupancy
//! bitmap, one bit per sector, least significant bit first within each byte.

use crate::codec::{be_bytes, encode, encode_spec, push_be, SectorAddress, MAX_ADDRESS};
use crate::error::IndexError;
use crate::math_util::ceil_div;
use vstd::prelude::*;

verus! {

/// The longest bitmap, in bytes, whose length fits the three-byte length field.
pub const MAX_BITMAP_LEN: usize = 0xff_fffe;

/// The reserved value of the length field that means "extends to the end of
/// the device".
pub const EOF_SENTINEL: u64 = 0xff_ffff;

/// Bit `k` of `byte`, counting from the least significant.
pub open spec fn bit_of(byte: u8, k: u8) -> bool {
    (byte >> k) & 1u8 == 1u8
}

/// The mathematical content of a segment.
pub struct SegmentView {
    /// Address of the first sector recorded.
    pub start: int,
    /// Number of sectors recorded.
    pub bit_count: int,
    /// The occupancy bits, eight sectors to a byte.
    pub bitmap: Seq<u8>,
    /// Whether the segment is the terminal one that extends to the end of the
    /// device; its persisted length field is then the sentinel.
    pub to_eof: bool,
}

impl SegmentView {
    /// Address just past the last sector recorded.
    pub open spec fn end(self) -> int {
        self.start + self.bit_count
    }

    /// Whether `addr` lies within the recorded range.
    pub open spec fn covers(self, addr: int) -> bool {
        self.start <= addr < self.end()
    }

    /// The occupancy bit of the `i`-th recorded sector.
    pub open spec fn bit(self, i: int) -> bool {
        bit_of(self.bitmap[i / 8], (i % 8) as u8)
    }

    /// The occupancy bit of `addr` if the segment records it.
    pub open spec fn occupancy(self, addr: int) -> Option<bool> {
        if self.covers(addr) {
            Some(self.bit(addr - self.start))
        } else {
            None
        }
    }

    /// The smallest start address that a segment following this one may have.
    pub open spec fn next_floor(self) -> int {
        if self.bit_count == 0 {
            self.start + 1
        } else {
            self.end()
        }
    }

    /// A segment records whole bytes of bits, unless it is the terminal one,
    /// whose bit count is whatever is left of the device.
    pub open spec fn wf(self) -> bool {
        &&& 0 <= self.start
        &&& 0 <= self.bit_count
        &&& self.end() <= u64::MAX
        &&& self.bitmap.len() == ceil_div(self.bit_count, 8)
        &&& !self.to_eof ==> self.bit_count == 8 * self.bitmap.len() && self.bitmap.len()
            <= MAX_BITMAP_LEN
    }

    /// Whether `next`, which starts where this segment ends, can be joined
    /// onto it: the joined bitmap must still fit the length field, unless
    /// the result is the terminal segment, which has no length of its own.
    pub open spec fn joins(self, next: SegmentView) -> bool {
        &&& !self.to_eof
        &&& self.end() == next.start
        &&& next.to_eof || self.bitmap.len() + next.bitmap.len() <= MAX_BITMAP_LEN
    }

    /// This segment with `next` joined onto it: the bitmaps one after the
    /// other.
    pub open spec fn joined(self, next: SegmentView) -> SegmentView {
        SegmentView {
            start: self.start,
            bit_count: self.bit_count + next.bit_count,
            bitmap: self.bitmap + next.bitmap,
            to_eof: next.to_eof,
        }
    }

    /// The value of the persisted length field.
    pub open spec fn length_field(self) -> nat {
        if self.to_eof {
            EOF_SENTINEL as nat
        } else {
            self.bitmap.len()
        }
    }

    /// The persisted record: compressed start address, three-byte length
    /// field, bitmap bytes.
    pub open spec fn record_bytes(self) -> Seq<u8> {
        encode_spec(self.start as u64) + be_bytes(self.length_field(), 3) + self.bitmap
    }
}

/// A contiguous occupancy record.
#[derive(Debug, Clone, PartialEq, Eq)]
pub struct Segment {
    start: u64,
    bit_count: u64,
    bitmap: Vec<u8>,
    to_eof: bool,
}

impl View for Segment {
    type V = SegmentView;

    closed spec fn view(&self) -> SegmentView {
        SegmentView {
            start: self.start as int,
            bit_count: self.bit_count as int,
            bitmap: self.bitmap@,
            to_eof: self.to_eof,
        }
    }
}

impl Segment {
    /// Well-formedness of the segment's content.
    pub open spec fn wf(&self) -> bool {
        self@.wf()
    }

    /// A segment of `8 * bitmap.len()` sectors from `start` on. `None` when
    /// the bitmap is too long for the length field or runs past the last
    /// address.
    pub fn new(start: SectorAddress, bitmap: Vec<u8>) -> (result: Option<Segment>)
        ensures
            result is Some <==> bitmap@.len() <= MAX_BITMAP_LEN && start + 8 * bitmap@.len()
                <= u64::MAX,
            result matches Some(seg) ==> seg.wf() && seg@ == (SegmentView {
                start: start as int,
                bit_count: 8 * (bitmap@.len() as int),
                bitmap: bitmap@,
                to_eof: false,
            }),
    {
        if bitmap.len() > MAX_BITMAP_LEN {
            return None;
        }
        let bit_count: u64 = 8 * (bitmap.len() as u64);
        if bit_count > u64::MAX - start {
            return None;
        }
        Some(Segment { start, bit_count, bitmap, to_eof: false })
    }

    /// The terminal segment of a device of `device_sectors` sectors: it
    /// records every sector from `start` to the end of the device. `None`
    /// when `start` lies past the end or the bitmap has not exactly the bytes
    /// that those sectors need.
    pub fn to_end(start: SectorAddress, bitmap: Vec<u8>, device_sectors: u64) -> (result: Option<
        Segment,
    >)
        ensures
            result is Some <==> start <= device_sectors && bitmap@.len() == ceil_div(
                device_sectors - start,
                8,
            ),
            result matches Some(seg) ==> seg.wf() && seg@ == (SegmentView {
                start: start as int,
                bit_count: device_sectors - start,
                bitmap: bitmap@,
                to_eof: true,
            }),
    {
        if start > device_sectors {
            return None;
        }
        let bit_count: u64 = device_sectors - start;
        let needed: u64 = if bit_count == 0 {
            0
        } else {
            (bit_count - 1) / 8 + 1
        };
        if bitmap.len() as u64 != needed {
            return None;
        }
        Some(Segment { start, bit_count, bitmap, to_eof: true })
    }

    /// Address of the first sector recorded.
    pub fn start(&self) -> (start: SectorAddress)
        ensures
            start == self@.start,
    {
        self.start
    }

    /// Number of sectors recorded.
    pub fn bit_count(&self) -> (count: u64)
        ensures
            count == self@.bit_count,
    {
        self.bit_count
    }

    /// Address just past the last sector recorded.
    pub fn end(&self) -> (end: SectorAddress)
        requires
            self.wf(),
        ensures
            end == self@.end(),
    {
        self.start + self.bit_count
    }

    /// The occupancy bits, eight sectors to a byte.
    pub fn bitmap(&self) -> (bitmap: &Vec<u8>)
        ensures
            bitmap@ == self@.bitmap,
    {
        &self.bitmap
    }

    /// Whether this is the terminal segment that extends to the end of the
    /// device.
    pub fn is_to_eof(&self) -> (to_eof: bool)
        ensures
            to_eof == self@.to_eof,
    {
        self.to_eof
    }

    /// The `index`-th recorded bit.
    pub fn bit(&self, index: u64) -> (bit: bool)
        requires
            self.wf(),
            index < self@.bit_count,
        ensures
            bit == self@.bit(index as int),
    {
        let len = self.bitmap.len();
        assert(index / 8 < len);
        let byte: u8 = self.bitmap[(index / 8) as usize];
        let k: u8 = (index % 8) as u8;
        (byte >> k) & 1u8 == 1u8
    }

    /// The occupancy bit of `addr` if the segment records that sector.
    pub fn covers(&self, addr: SectorAddress) -> (bit: Option<bool>)
        requires
            self.wf(),
        ensures
            bit == self@.occupancy(addr as int),
    {
        if addr < self.start || addr - self.start >= self.bit_count {
            None
        } else {
            Some(self.bit(addr - self.start))
        }
    }

    /// Joins `next`, which starts where this segment ends, onto this one.
    pub fn absorb(&mut self, next: Segment)
        requires
            old(self).wf(),
            next.wf(),
            old(self)@.joins(next@),
        ensures
            final(self).wf(),
            final(self)@ == old(self)@.joined(next@),
    {
        let mut tail = next.bitmap;
        self.bitmap.append(&mut tail);
        self.bit_count = self.bit_count + next.bit_count;
        self.to_eof = next.to_eof;
    }

    /// Appends the segment's persisted record to `out`.
    pub fn write_record(&self, out: &mut Vec<u8>) -> (result: Result<(), IndexError>)
        requires
            self.wf(),
        ensures
            self@.start <= MAX_ADDRESS ==> result is Ok && final(out)@ == old(out)@
                + self@.record_bytes(),
            self@.start > MAX_ADDRESS ==> final(out)@ == old(out)@ && result == Err::<
                (),
                IndexError,
            >(IndexError::AddressTooLarge { address: self@.start as u64 }),
    {
        let mut address = match encode(self.start) {
            Ok(bytes) => bytes,
            Err(e) => {
                return Err(e);
            },
        };
        out.append(&mut address);
        if self.to_eof {
            push_be(out, EOF_SENTINEL, 3);
        } else {
            push_be(out, self.bitmap.len() as u64, 3);
        }
        let mut i: usize = 0;
        while i < self.bitmap.len()
            invariant
                i <= self.bitmap@.len(),
                out@ == old(out)@ + encode_spec(self.start) + be_bytes(self@.length_field(), 3)
                    + self.bitmap@.subrange(0, i as int),
            decreases self.bitmap@.len() - i,
        {
            out.push(self.bitmap[i]);
            i += 1;
            assert(self.bitmap@.subrange(0, i as int) =~= self.bitmap@.subrange(0, i - 1).push(
                self.bitmap@[i - 1],
            ));
        }
        assert(self.bitmap@.subrange(0, i as int) =~= self.bitmap@);
        assert(out@ =~= old(out)@ + self@.record_bytes());
        Ok(())
    }
}

} // verus!
