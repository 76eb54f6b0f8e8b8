//! Integers as little-endian bytes.

use vstd::prelude::*;
use crate::allocation::RawPtr;

verus! {

/// The two bytes of `x`, the low one first.
pub open spec fn u16_le(x: u16) -> Seq<u8> {
    seq![(x % 256) as u8, (x / 256) as u8]
}

/// The four bytes of `x`, the lowest first.
pub open spec fn u32_le(x: u32) -> Seq<u8> {
    seq![
        (x % 256) as u8,
        ((x / 256) % 256) as u8,
        ((x / 65536) % 256) as u8,
        (x / 16777216) as u8,
    ]
}

/// The eight bytes of `x`, the lowest first.
pub open spec fn u64_le(x: u64) -> Seq<u8> {
    u32_le((x % 0x1_0000_0000) as u32) + u32_le((x / 0x1_0000_0000) as u32)
}

/// The number that the two bytes of `bytes` from the index `at` on stand for.
pub open spec fn u16_at(bytes: Seq<u8>, at: int) -> u16 {
    (bytes[at] + 256 * bytes[at + 1]) as u16
}

/// The number that the four bytes of `bytes` from the index `at` on stand for.
pub open spec fn u32_at(bytes: Seq<u8>, at: int) -> u32 {
    (bytes[at] + 256 * bytes[at + 1] + 65536 * bytes[at + 2] + 16777216 * bytes[at + 3]) as u32
}

/// The number that the eight bytes of `bytes` from the index `at` on stand for.
pub open spec fn u64_at(bytes: Seq<u8>, at: int) -> u64 {
    (u32_at(bytes, at) + 0x1_0000_0000 * u32_at(bytes, at + 4)) as u64
}

/// A number is read back from its two bytes, wherever they stand in a sequence.
pub proof fn lemma_u16_round_trip(x: u16, bytes: Seq<u8>, at: int)
    requires
        0 <= at,
        at + 2 <= bytes.len(),
        bytes.subrange(at, at + 2) == u16_le(x),
    ensures
        u16_at(bytes, at) == x,
{
    assert(bytes[at] == bytes.subrange(at, at + 2)[0]);
    assert(bytes[at + 1] == bytes.subrange(at, at + 2)[1]);
}

/// A number is read back from its four bytes, wherever they stand in a sequence.
pub proof fn lemma_u32_round_trip(x: u32, bytes: Seq<u8>, at: int)
    requires
        0 <= at,
        at + 4 <= bytes.len(),
        bytes.subrange(at, at + 4) == u32_le(x),
    ensures
        u32_at(bytes, at) == x,
{
    assert(bytes[at] == bytes.subrange(at, at + 4)[0]);
    assert(bytes[at + 1] == bytes.subrange(at, at + 4)[1]);
    assert(bytes[at + 2] == bytes.subrange(at, at + 4)[2]);
    assert(bytes[at + 3] == bytes.subrange(at, at + 4)[3]);
}

/// A number is read back from its eight bytes, wherever they stand in a sequence.
pub proof fn lemma_u64_round_trip(x: u64, bytes: Seq<u8>, at: int)
    requires
        0 <= at,
        at + 8 <= bytes.len(),
        bytes.subrange(at, at + 8) == u64_le(x),
    ensures
        u64_at(bytes, at) == x,
{
    let low = (x % 0x1_0000_0000) as u32;
    let high = (x / 0x1_0000_0000) as u32;
    assert(bytes.subrange(at, at + 4) =~= bytes.subrange(at, at + 8).subrange(0, 4));
    assert(bytes.subrange(at + 4, at + 8) =~= bytes.subrange(at, at + 8).subrange(4, 8));
    assert(u64_le(x).subrange(0, 4) =~= u32_le(low));
    assert(u64_le(x).subrange(4, 8) =~= u32_le(high));
    lemma_u32_round_trip(low, bytes, at);
    lemma_u32_round_trip(high, bytes, at + 4);
}

/// Appends the two bytes of `x` to `out`.
pub fn put_u16(out: &mut Vec<u8>, x: u16)
    ensures
        final(out)@ == old(out)@ + u16_le(x),
{
    out.push((x % 256) as u8);
    out.push((x / 256) as u8);
    assert(out@ =~= old(out)@ + u16_le(x));
}

/// Appends the four bytes of `x` to `out`.
pub fn put_u32(out: &mut Vec<u8>, x: u32)
    ensures
        final(out)@ == old(out)@ + u32_le(x),
{
    out.push((x % 256) as u8);
    out.push(((x / 256) % 256) as u8);
    out.push(((x / 65536) % 256) as u8);
    out.push((x / 16777216) as u8);
    assert(out@ =~= old(out)@ + u32_le(x));
}

/// Appends the eight bytes of `x` to `out`.
pub fn put_u64(out: &mut Vec<u8>, x: u64)
    ensures
        final(out)@ == old(out)@ + u64_le(x),
{
    put_u32(out, (x % 0x1_0000_0000) as u32);
    put_u32(out, (x / 0x1_0000_0000) as u32);
    assert(out@ =~= old(out)@ + u64_le(x));
}

/// Reads a number from the two bytes of `bytes` from the index `at` on.
pub fn get_u16(bytes: &Vec<u8>, at: usize) -> (x: u16)
    requires
        at + 2 <= bytes.len(),
    ensures
        x == u16_at(bytes@, at as int),
{
    bytes[at] as u16 + 256 * (bytes[at + 1] as u16)
}

/// Reads a number from the four bytes of `bytes` from the index `at` on.
pub fn get_u32(bytes: &Vec<u8>, at: usize) -> (x: u32)
    requires
        at + 4 <= bytes.len(),
    ensures
        x == u32_at(bytes@, at as int),
{
    bytes[at] as u32 + 256 * (bytes[at + 1] as u32) + 65536 * (bytes[at + 2] as u32) + 16777216
        * (bytes[at + 3] as u32)
}

/// Reads a number from the eight bytes of `bytes` from the index `at` on.
pub fn get_u64(bytes: &Vec<u8>, at: usize) -> (x: u64)
    requires
        at + 8 <= bytes.len(),
    ensures
        x == u64_at(bytes@, at as int),
{
    get_u32(bytes, at) as u64 + 0x1_0000_0000 * (get_u32(bytes, at + 4) as u64)
}

/// The eight bytes of the signed number `x` in two's complement, the lowest first.
pub open spec fn i64_le(x: i64) -> Seq<u8> {
    u64_le(
        if x >= 0 {
            x as u64
        } else {
            (x + 0x1_0000_0000_0000_0000) as u64
        },
    )
}

/// The signed number that the eight bytes of `bytes` from the index `at`
/// on stand for.
pub open spec fn i64_at(bytes: Seq<u8>, at: int) -> i64 {
    if u64_at(bytes, at) <= i64::MAX {
        u64_at(bytes, at) as i64
    } else {
        (u64_at(bytes, at) - 0x1_0000_0000_0000_0000) as i64
    }
}

/// A signed number is read back from its eight bytes, wherever they
/// stand in a sequence.
pub proof fn lemma_i64_round_trip(x: i64, bytes: Seq<u8>, at: int)
    requires
        0 <= at,
        at + 8 <= bytes.len(),
        bytes.subrange(at, at + 8) == i64_le(x),
    ensures
        i64_at(bytes, at) == x,
{
    let unsigned = if x >= 0 {
        x as u64
    } else {
        (x + 0x1_0000_0000_0000_0000) as u64
    };
    lemma_u64_round_trip(unsigned, bytes, at);
}

/// Appends the eight bytes of the signed number `x` to `out`.
pub fn put_i64(out: &mut Vec<u8>, x: i64)
    ensures
        final(out)@ == old(out)@ + i64_le(x),
{
    let unsigned: u64 = if x >= 0 {
        x as u64
    } else {
        u64::MAX - ((-(x + 1)) as u64)
    };
    put_u64(out, unsigned);
}

/// Reads a signed number from the eight bytes of `bytes` from the index `at` on.
pub fn get_i64(bytes: &Vec<u8>, at: usize) -> (x: i64)
    requires
        at + 8 <= bytes.len(),
    ensures
        x == i64_at(bytes@, at as int),
{
    let unsigned: u64 = get_u64(bytes, at);
    if unsigned <= i64::MAX as u64 {
        unsigned as i64
    } else {
        -((u64::MAX - unsigned) as i64) - 1
    }
}

/// The bytes of `bytes` from the index `from` up to, not including, the index `to`.
pub fn part(bytes: &Vec<u8>, from: usize, to: usize) -> (out: Vec<u8>)
    requires
        from <= to <= bytes.len(),
    ensures
        out@ == bytes@.subrange(from as int, to as int),
{
    let mut out: Vec<u8> = Vec::new();
    let mut i: usize = from;
    while i < to
        invariant
            from <= i <= to <= bytes.len(),
            out@ == bytes@.subrange(from as int, i as int),
        decreases to - i,
    {
        out.push(bytes[i]);
        i = i + 1;
        assert(out@ =~= bytes@.subrange(from as int, i as int));
    }
    out
}

/// Appends `bytes` to `out`.
pub fn put_bytes(out: &mut Vec<u8>, bytes: &Vec<u8>)
    ensures
        final(out)@ == old(out)@ + bytes@,
{
    let mut i: usize = 0;
    while i < bytes.len()
        invariant
            i <= bytes.len(),
            out@ == old(out)@ + bytes@.subrange(0, i as int),
        decreases bytes.len() - i,
    {
        out.push(bytes[i]);
        i = i + 1;
        assert(out@ =~= old(out)@ + bytes@.subrange(0, i as int));
    }
    assert(bytes@.subrange(0, bytes.len() as int) =~= bytes@);
}

/// The sixteen bytes that stand for a pointer that may be missing:
/// whether there is one, and its address, eight bytes each.
pub open spec fn ptr_bytes(ptr: Option<RawPtr>) -> Seq<u8> {
    match ptr {
        Some(ptr) => u64_le(1) + u64_le(ptr.addr() as u64),
        None => u64_le(0) + u64_le(0),
    }
}

/// The pointer that the sixteen bytes of `bytes` from the index `at` on
/// stand for, if they stand for one or for a missing one.
pub open spec fn ptr_at(bytes: Seq<u8>, at: int) -> Option<Option<RawPtr>> {
    if u64_at(bytes, at) == 0 {
        Some(None)
    } else if u64_at(bytes, at) == 1 && u64_at(bytes, at + 8) <= usize::MAX {
        Some(Some(RawPtr::at(u64_at(bytes, at + 8) as int)))
    } else {
        None
    }
}

/// A pointer that may be missing is read back from its bytes, wherever
/// they stand in a sequence.
pub proof fn lemma_ptr_round_trip(ptr: Option<RawPtr>, bytes: Seq<u8>, at: int)
    requires
        0 <= at,
        at + 16 <= bytes.len(),
        bytes.subrange(at, at + 16) == ptr_bytes(ptr),
    ensures
        ptr_at(bytes, at) == Some(ptr),
{
    let part = bytes.subrange(at, at + 16);
    assert(bytes.subrange(at, at + 8) =~= part.subrange(0, 8));
    assert(bytes.subrange(at + 8, at + 16) =~= part.subrange(8, 16));
    match ptr {
        Some(ptr) => {
            ptr.lemma_addr_bounds();
            assert(part.subrange(0, 8) =~= u64_le(1));
            assert(part.subrange(8, 16) =~= u64_le(ptr.addr() as u64));
            lemma_u64_round_trip(1, bytes, at);
            lemma_u64_round_trip(ptr.addr() as u64, bytes, at + 8);
            RawPtr::lemma_at_addr(ptr);
        },
        None => {
            assert(part.subrange(0, 8) =~= u64_le(0));
            lemma_u64_round_trip(0, bytes, at);
        },
    }
}

/// Appends the bytes of a pointer that may be missing to `out`.
pub fn put_ptr(out: &mut Vec<u8>, ptr: Option<RawPtr>)
    ensures
        final(out)@ == old(out)@ + ptr_bytes(ptr),
{
    match ptr {
        Some(ptr) => {
            put_u64(out, 1);
            put_u64(out, ptr.as_word() as u64);
            assert(out@ =~= old(out)@ + ptr_bytes(Some(ptr)));
        },
        None => {
            put_u64(out, 0);
            put_u64(out, 0);
            assert(out@ =~= old(out)@ + ptr_bytes(None));
        },
    }
}

/// Reads a pointer that may be missing from the sixteen bytes of
/// `bytes` from the index `at` on.
pub fn get_ptr(bytes: &Vec<u8>, at: usize) -> (ptr: Option<Option<RawPtr>>)
    requires
        at + 16 <= bytes.len(),
    ensures
        ptr == ptr_at(bytes@, at as int),
{
    let present: u64 = get_u64(bytes, at);
    if present == 0 {
        Some(None)
    } else if present == 1 {
        let addr: u64 = get_u64(bytes, at + 8);
        if addr <= usize::MAX as u64 {
            Some(Some(RawPtr::new(addr as usize)))
        } else {
            None
        }
    } else {
        None
    }
}

} // verus!
