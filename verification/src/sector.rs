//! Sectors: the fixed-size units of device addressing, and their
//! classification as empty or occupied.

use crate::codec::SectorAddress;
use crate::math_util::ceil_div;
use vstd::prelude::*;

verus! {

/// The sector sizes that an index can be built for. The size is fixed for the
/// lifetime of an index.
#[derive(Debug, Clone, Copy, PartialEq, Eq, Structural)]
pub enum SectorSize {
    /// One byte.
    B1,
    /// 1024 bytes.
    K1,
    /// 4096 bytes.
    K4,
    /// 16384 bytes.
    K16,
}

impl SectorSize {
    /// Number of bytes in a sector.
    pub open spec fn byte_len(self) -> int {
        match self {
            SectorSize::B1 => 1,
            SectorSize::K1 => 1024,
            SectorSize::K4 => 4096,
            SectorSize::K16 => 16384,
        }
    }

    /// Number of bytes in a sector.
    pub fn bytes(self) -> (len: usize)
        ensures
            len == self.byte_len(),
    {
        match self {
            SectorSize::B1 => 1,
            SectorSize::K1 => 1024,
            SectorSize::K4 => 4096,
            SectorSize::K16 => 16384,
        }
    }

    /// The sector size of `len` bytes, if there is one.
    pub fn from_bytes(len: u64) -> (size: Option<SectorSize>)
        ensures
            size matches Some(s) ==> s.byte_len() == len,
            size is Some <==> len == 1 || len == 1024 || len == 4096 || len == 16384,
    {
        if len == 1 {
            Some(SectorSize::B1)
        } else if len == 1024 {
            Some(SectorSize::K1)
        } else if len == 4096 {
            Some(SectorSize::K4)
        } else if len == 16384 {
            Some(SectorSize::K16)
        } else {
            None
        }
    }

    /// Byte offset on the device of the sector at `addr`; `None` when the
    /// offset does not fit 64 bits.
    pub fn byte_offset(self, addr: SectorAddress) -> (offset: Option<u64>)
        ensures
            offset is Some <==> addr * self.byte_len() <= u64::MAX,
            offset matches Some(o) ==> o == addr * self.byte_len(),
    {
        addr.checked_mul(self.bytes() as u64)
    }

    /// Address of the sector that holds the byte at `offset`.
    pub fn sector_of(self, offset: u64) -> (addr: SectorAddress)
        ensures
            addr == offset as int / self.byte_len(),
    {
        offset / (self.bytes() as u64)
    }

    /// Number of sectors of a device of `device_bytes` bytes; a last sector
    /// that the device cuts short counts.
    pub fn sector_count(self, device_bytes: u64) -> (count: u64)
        ensures
            count == ceil_div(device_bytes as int, self.byte_len()),
    {
        crate::math_util::ceil_divide(device_bytes, self.bytes() as u64)
    }
}

/// Whether every byte of `bytes` is zero.
pub open spec fn all_zero(bytes: Seq<u8>) -> bool {
    forall|i: int| 0 <= i < bytes.len() ==> bytes[i] == 0
}

/// Number of sectors of `sector_len` bytes in `data_len` bytes of data; a
/// last sector that the data cuts short counts.
pub open spec fn sector_count(data_len: int, sector_len: int) -> int {
    ceil_div(data_len, sector_len)
}

/// The bytes of sector `index` of `data`, cut into sectors of `sector_len`
/// bytes.
pub open spec fn sector_bytes(data: Seq<u8>, sector_len: int, index: int) -> Seq<u8> {
    let low = index * sector_len;
    let high = if low + sector_len <= data.len() {
        low + sector_len
    } else {
        data.len() as int
    };
    data.subrange(low, high)
}

/// Whether sector `index` of `data` is occupied: at least one of its bytes is
/// not zero.
pub open spec fn sector_occupied(data: Seq<u8>, sector_len: int, index: int) -> bool {
    !all_zero(sector_bytes(data, sector_len, index))
}

/// The classification of every sector of `data`.
pub open spec fn classification(data: Seq<u8>, sector_len: int) -> Seq<bool> {
    Seq::new(
        sector_count(data.len() as int, sector_len) as nat,
        |index: int| sector_occupied(data, sector_len, index),
    )
}

/// Sector `index` of the data lies within it.
pub proof fn lemma_sector_bounds(data_len: int, sector_len: int, index: int)
    requires
        0 < sector_len,
        0 <= index < sector_count(data_len, sector_len),
        0 <= data_len,
    ensures
        0 <= index * sector_len < data_len,
        (index + 1) * sector_len == index * sector_len + sector_len,
        index + 1 < sector_count(data_len, sector_len) ==> (index + 1) * sector_len < data_len,
        index + 1 == sector_count(data_len, sector_len) ==> (index + 1) * sector_len >= data_len,
{
    let count = sector_count(data_len, sector_len);
    assert(data_len > 0);
    assert(count == (data_len - 1) / sector_len + 1);
    let q = (data_len - 1) / sector_len;
    assert(q * sector_len <= data_len - 1 < (q + 1) * sector_len) by (nonlinear_arith)
        requires
            q == (data_len - 1) / sector_len,
            sector_len > 0,
            data_len - 1 >= 0,
    ;
    assert(0 <= index * sector_len && index * sector_len <= q * sector_len) by (nonlinear_arith)
        requires
            0 <= index <= q,
            sector_len > 0,
    ;
    assert((index + 1) * sector_len == index * sector_len + sector_len) by (nonlinear_arith);
    if index + 1 < count {
        assert((index + 1) * sector_len <= q * sector_len) by (nonlinear_arith)
            requires
                index + 1 <= q,
                sector_len > 0,
        ;
    }
}

/// Number of sectors of `sector_len` bytes in `data_len` bytes of data.
pub fn sector_total(data_len: usize, sector_len: usize) -> (count: usize)
    requires
        0 < sector_len,
    ensures
        count == sector_count(data_len as int, sector_len as int),
{
    if data_len == 0 {
        0
    } else {
        (data_len - 1) / sector_len + 1
    }
}

/// Whether `sector` holds at least one non-zero byte.
pub fn is_occupied_sector(sector: &[u8]) -> (is_set: bool)
    ensures
        is_set == !all_zero(sector@),
{
    let mut i: usize = 0;
    while i < sector.len()
        invariant
            i <= sector@.len(),
            forall|j: int| 0 <= j < i ==> sector@[j] == 0,
        decreases sector@.len() - i,
    {
        if sector[i] != 0 {
            return true;
        }
        i += 1;
    }
    false
}

/// Classifies `count` sectors of `data` from sector `first` on. Ranges that
/// do not share a sector can be classified independently of each other.
pub fn classify_range(data: &[u8], sector_len: usize, first: usize, count: usize) -> (bits: Vec<
    bool,
>)
    requires
        0 < sector_len,
        first + count <= sector_count(data@.len() as int, sector_len as int),
    ensures
        bits@.len() == count,
        forall|i: int|
            0 <= i < count ==> #[trigger] bits@[i] == sector_occupied(
                data@,
                sector_len as int,
                first + i,
            ),
{
    let total = data.len();
    let mut bits: Vec<bool> = Vec::new();
    let mut i: usize = 0;
    while i < count
        invariant
            0 < sector_len,
            total == data@.len(),
            first + count <= sector_count(total as int, sector_len as int),
            i <= count,
            bits@.len() == i,
            forall|j: int|
                0 <= j < i ==> #[trigger] bits@[j] == sector_occupied(
                    data@,
                    sector_len as int,
                    first + j,
                ),
        decreases count - i,
    {
        proof {
            lemma_sector_bounds(total as int, sector_len as int, first + i);
        }
        let low = (first + i) * sector_len;
        let high = if total - low >= sector_len {
            low + sector_len
        } else {
            total
        };
        let is_set = is_occupied_sector(vstd::slice::slice_subrange(data, low, high));
        bits.push(is_set);
        i += 1;
    }
    bits
}

/// Classifies every sector of `data`.
pub fn classify(data: &[u8], sector_len: usize) -> (bits: Vec<bool>)
    requires
        0 < sector_len,
    ensures
        bits@ == classification(data@, sector_len as int),
{
    let count = sector_total(data.len(), sector_len);
    let bits = classify_range(data, sector_len, 0, count);
    assert(bits@ =~= classification(data@, sector_len as int));
    bits
}

} // verus!
