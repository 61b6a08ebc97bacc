//! Compressed sector addresses.
//!
//! A sector address is written on 4, 5, 6 or 8 bytes, most significant byte
//! first. The top two bits of the first byte name the length class; the
//! remaining bits of the record hold the address itself.

use crate::error::IndexError;
use vstd::prelude::*;

verus! {

/// Logical index of a sector on the device.
pub type SectorAddress = u64;

/// The largest address that can be encoded: 62 payload bits, all set.
pub const MAX_ADDRESS: u64 = 0x3fff_ffff_ffff_ffff;

/// 256 raised to the power `n`.
pub open spec fn pow256(n: nat) -> nat
    decreases n,
{
    if n == 0 {
        1
    } else {
        256 * pow256((n - 1) as nat)
    }
}

/// The `width` low-order base-256 digits of `value`, most significant first.
pub open spec fn be_bytes(value: nat, width: nat) -> Seq<u8>
    decreases width,
{
    if width == 0 {
        Seq::empty()
    } else {
        be_bytes(value / 256, (width - 1) as nat).push((value % 256) as u8)
    }
}

/// The number whose base-256 digits, most significant first, are `bytes`.
pub open spec fn be_value(bytes: Seq<u8>) -> nat
    decreases bytes.len(),
{
    if bytes.len() == 0 {
        0
    } else {
        be_value(bytes.drop_last()) * 256 + bytes.last() as nat
    }
}

/// Total encoded length, in bytes, of length class `class`.
pub open spec fn class_len(class: nat) -> nat {
    if class == 0 {
        4
    } else if class == 1 {
        5
    } else if class == 2 {
        6
    } else {
        8
    }
}

/// Number of addresses that class `class` can represent: two to the power of
/// its payload width, which is the record's bit width less the two header bits.
pub open spec fn class_capacity(class: nat) -> nat {
    if class == 0 {
        0x4000_0000
    } else if class == 1 {
        0x40_0000_0000
    } else if class == 2 {
        0x4000_0000_0000
    } else {
        0x4000_0000_0000_0000
    }
}

/// The smallest class whose payload can represent `addr`.
pub open spec fn class_of(addr: u64) -> nat {
    if addr < 0x4000_0000 {
        0
    } else if addr < 0x40_0000_0000 {
        1
    } else if addr < 0x4000_0000_0000 {
        2
    } else {
        3
    }
}

/// Encoded length of `addr`, in bytes.
pub open spec fn encoded_len(addr: u64) -> nat {
    class_len(class_of(addr))
}

/// The number that is written for `addr`: the class number sits in the two
/// bits above the payload.
pub open spec fn record_of(addr: u64) -> nat {
    class_of(addr) * class_capacity(class_of(addr)) + addr as nat
}

/// The encoding of `addr`: its record, most significant byte first.
pub open spec fn encode_spec(addr: u64) -> Seq<u8> {
    be_bytes(record_of(addr), encoded_len(addr))
}

/// What decoding the front of `bytes` yields: the address and the number of
/// bytes it occupied, or `None` when the bytes end before the record does.
pub open spec fn decode_spec(bytes: Seq<u8>) -> Option<(u64, nat)> {
    if bytes.len() == 0 {
        None
    } else {
        let class = (bytes[0] / 64) as nat;
        let len = class_len(class);
        if bytes.len() < len {
            None
        } else {
            let record = be_value(bytes.subrange(0, len as int));
            Some(((record % class_capacity(class)) as u64, len))
        }
    }
}

pub proof fn lemma_be_bytes_len(value: nat, width: nat)
    ensures
        be_bytes(value, width).len() == width,
    decreases width,
{
    if width > 0 {
        lemma_be_bytes_len(value / 256, (width - 1) as nat);
    }
}

/// Reading back the digits of a number that fits in them gives the number.
pub proof fn lemma_be_value_of_bytes(value: nat, width: nat)
    requires
        value < pow256(width),
    ensures
        be_value(be_bytes(value, width)) == value,
    decreases width,
{
    if width > 0 {
        let rest = be_bytes(value / 256, (width - 1) as nat);
        lemma_be_bytes_len(value / 256, (width - 1) as nat);
        lemma_be_value_of_bytes(value / 256, (width - 1) as nat);
        assert(be_bytes(value, width).drop_last() =~= rest);
    }
}

/// Writing the digits of what a byte string denotes gives the string back.
pub proof fn lemma_be_bytes_of_value(bytes: Seq<u8>)
    ensures
        be_bytes(be_value(bytes), bytes.len()) == bytes,
        be_value(bytes) < pow256(bytes.len()),
    decreases bytes.len(),
{
    if bytes.len() > 0 {
        lemma_be_bytes_of_value(bytes.drop_last());
        assert(be_bytes(be_value(bytes), bytes.len()) =~= bytes);
    }
}

/// The first digit of a number written on `width` digits counts how many
/// times 256 to the power `width - 1` goes into it.
pub proof fn lemma_be_bytes_first(value: nat, width: nat)
    requires
        width > 0,
        value < pow256(width),
    ensures
        be_bytes(value, width).len() == width,
        be_bytes(value, width)[0] as nat * pow256((width - 1) as nat) <= value,
        value < (be_bytes(value, width)[0] as nat + 1) * pow256((width - 1) as nat),
    decreases width,
{
    lemma_be_bytes_len(value, width);
    lemma_be_bytes_len(value / 256, (width - 1) as nat);
    let first = be_bytes(value, width)[0] as nat;
    let unit = pow256((width - 1) as nat);
    if width == 1 {
        reveal_with_fuel(pow256, 2);
        assert(be_bytes(value / 256, 0).len() == 0);
        assert(first == value % 256);
        assert(unit == 1);
        assert(first * unit == first) by (nonlinear_arith)
            requires
                unit == 1,
        ;
        assert((first + 1) * unit == first + 1) by (nonlinear_arith)
            requires
                unit == 1,
        ;
    } else {
        let p = pow256((width - 2) as nat);
        assert(unit == 256 * p);
        assert(pow256(width) == 256 * unit);
        lemma_be_bytes_first(value / 256, (width - 1) as nat);
        assert(first == be_bytes(value / 256, (width - 1) as nat)[0]);
        assert(first * unit <= value && value < (first + 1) * unit) by (nonlinear_arith)
            requires
                unit == 256 * p,
                first * p <= value / 256,
                value / 256 < (first + 1) * p,
        ;
    }
}

proof fn lemma_pow256_values()
    ensures
        pow256(0) == 1,
        pow256(1) == 0x100,
        pow256(2) == 0x1_0000,
        pow256(3) == 0x100_0000,
        pow256(4) == 0x1_0000_0000,
        pow256(5) == 0x100_0000_0000,
        pow256(6) == 0x1_0000_0000_0000,
        pow256(7) == 0x100_0000_0000_0000,
        pow256(8) == 0x1_0000_0000_0000_0000,
{
    reveal_with_fuel(pow256, 9);
}

/// An encoded address followed by anything decodes to the address, and the
/// decoder consumes exactly the encoding.
pub proof fn lemma_decode_encoded_prefix(addr: u64, tail: Seq<u8>)
    requires
        addr <= MAX_ADDRESS,
    ensures
        decode_spec(encode_spec(addr) + tail) == Some((addr, encoded_len(addr))),
        encode_spec(addr).len() == encoded_len(addr),
{
    let class = class_of(addr);
    let len = class_len(class);
    let record = record_of(addr);
    let enc = encode_spec(addr);
    let unit = pow256((len - 1) as nat);
    lemma_pow256_values();
    assert(record == class * class_capacity(class) + addr);
    assert(class == 0 || class == 1 || class == 2 || class == 3);
    assert(record < pow256(len));
    assert(unit * 64 == class_capacity(class));
    assert(record == class * 64 * unit + addr);
    assert(addr < 64 * unit);
    lemma_be_bytes_len(record, len);
    lemma_be_bytes_first(record, len);
    lemma_be_value_of_bytes(record, len);
    let all = enc + tail;
    let first = enc[0] as nat;
    assert(first / 64 == class) by (nonlinear_arith)
        requires
            first * unit <= record < (first + 1) * unit,
            record == class * 64 * unit + addr,
            addr < 64 * unit,
            unit > 0,
    ;
    assert(all[0] == enc[0]);
    assert(all.subrange(0, len as int) =~= enc);
    assert(record % class_capacity(class) == addr);
}

/// Decoding an encoded address gives the address back.
pub proof fn lemma_round_trip(addr: u64)
    requires
        addr <= MAX_ADDRESS,
    ensures
        decode_spec(encode_spec(addr)) == Some((addr, encoded_len(addr))),
{
    lemma_decode_encoded_prefix(addr, Seq::empty());
    assert(encode_spec(addr) + Seq::<u8>::empty() =~= encode_spec(addr));
}

/// The largest address of each class is encoded on that class's length, and
/// the address after it on the next class's length; past the last class no
/// address is left.
pub proof fn lemma_class_boundary(class: nat)
    requires
        class < 4,
    ensures
        class_capacity(class) - 1 <= MAX_ADDRESS,
        encode_spec((class_capacity(class) - 1) as u64).len() == class_len(class),
        class < 3 ==> encode_spec(class_capacity(class) as u64).len() == class_len(class + 1),
        class == 3 ==> class_capacity(class) > MAX_ADDRESS,
{
    let last = (class_capacity(class) - 1) as u64;
    lemma_be_bytes_len(record_of(last), encoded_len(last));
    if class < 3 {
        let next = class_capacity(class) as u64;
        lemma_be_bytes_len(record_of(next), encoded_len(next));
    }
}

/// Appends the `width` low-order base-256 digits of `value` to `out`.
pub fn push_be(out: &mut Vec<u8>, value: u64, width: usize)
    ensures
        final(out)@ == old(out)@ + be_bytes(value as nat, width as nat),
    decreases width,
{
    if width > 0 {
        push_be(out, value / 256, width - 1);
        out.push((value % 256) as u8);
        assert(out@ =~= old(out)@ + be_bytes(value as nat, width as nat));
    } else {
        assert(out@ =~= old(out)@ + be_bytes(value as nat, width as nat));
    }
}

/// Reads the number written on `width` bytes of `bytes` from `start` on.
pub fn read_be(bytes: &[u8], start: usize, width: usize) -> (value: u64)
    requires
        width <= 8,
        start + width <= bytes@.len(),
    ensures
        value == be_value(bytes@.subrange(start as int, start + width)),
{
    let mut value: u64 = 0;
    let mut i: usize = 0;
    while i < width
        invariant
            i <= width <= 8,
            start + width <= bytes.len(),
            value == be_value(bytes@.subrange(start as int, start + i)),
        decreases width - i,
    {
        proof {
            lemma_pow256_values();
            let read = bytes@.subrange(start as int, start + i);
            let next = bytes@.subrange(start as int, start + i + 1);
            lemma_be_bytes_of_value(read);
            lemma_pow256_monotonic(i as nat, 7);
            assert(next.drop_last() =~= read);
            assert(next.last() == bytes@[start + i]);
        }
        value = value * 256 + bytes[start + i] as u64;
        i += 1;
    }
    value
}

proof fn lemma_pow256_monotonic(low: nat, high: nat)
    requires
        low <= high,
    ensures
        pow256(low) <= pow256(high),
    decreases high,
{
    if low < high {
        lemma_pow256_monotonic(low, (high - 1) as nat);
    }
}

/// Encodes `addr` on the smallest class that can represent it.
pub fn encode(addr: SectorAddress) -> (result: Result<Vec<u8>, IndexError>)
    ensures
        addr <= MAX_ADDRESS ==> (result matches Ok(bytes) && bytes@ == encode_spec(addr)
            && bytes@.len() == encoded_len(addr)),
        addr > MAX_ADDRESS ==> (result matches Err(e) && e == (IndexError::AddressTooLarge {
            address: addr,
        })),
{
    if addr > MAX_ADDRESS {
        return Err(IndexError::AddressTooLarge { address: addr });
    }
    let mut out: Vec<u8> = Vec::new();
    if addr < 0x4000_0000 {
        push_be(&mut out, addr, 4);
    } else if addr < 0x40_0000_0000 {
        push_be(&mut out, 0x40_0000_0000 + addr, 5);
    } else if addr < 0x4000_0000_0000 {
        push_be(&mut out, 0x8000_0000_0000 + addr, 6);
    } else {
        push_be(&mut out, 0xc000_0000_0000_0000 + addr, 8);
    }
    proof {
        lemma_be_bytes_len(record_of(addr), encoded_len(addr));
        assert(out@ =~= encode_spec(addr));
    }
    Ok(out)
}

/// Decodes the compressed address at the front of `bytes`, and says how many
/// bytes it occupied.
pub fn decode(bytes: &[u8]) -> (result: Result<(SectorAddress, usize), IndexError>)
    ensures
        match decode_spec(bytes@) {
            Some((addr, used)) => result == Ok::<(u64, usize), IndexError>((addr, used as usize)),
            None => result == Err::<(u64, usize), IndexError>(IndexError::TruncatedInput),
        },
{
    if bytes.len() == 0 {
        return Err(IndexError::TruncatedInput);
    }
    let class: u8 = bytes[0] / 64;
    let len: usize = if class == 0 {
        4
    } else if class == 1 {
        5
    } else if class == 2 {
        6
    } else {
        8
    };
    if bytes.len() < len {
        return Err(IndexError::TruncatedInput);
    }
    let record = read_be(bytes, 0, len);
    let addr = if class == 0 {
        record % 0x4000_0000
    } else if class == 1 {
        record % 0x40_0000_0000
    } else if class == 2 {
        record % 0x4000_0000_0000
    } else {
        record % 0x4000_0000_0000_0000
    };
    Ok((addr, len))
}

} // verus!
