//! Big-endian integer fields of the IPP wire format.

use vstd::prelude::*;

verus! {

/// The two bytes of a big-endian 16-bit field.
pub open spec fn spec_u16_be(x: u16) -> Seq<u8> {
    seq![(x / 0x100) as u8, (x % 0x100) as u8]
}

/// The four bytes of a big-endian 32-bit field.
pub open spec fn spec_u32_be(x: u32) -> Seq<u8> {
    seq![
        (x / 0x1000000) as u8,
        ((x / 0x10000) % 0x100) as u8,
        ((x / 0x100) % 0x100) as u8,
        (x % 0x100) as u8,
    ]
}

/// The 16-bit value a big-endian field holds.
pub open spec fn spec_u16_from_be(b0: u8, b1: u8) -> u16 {
    (b0 * 0x100 + b1) as u16
}

/// The 32-bit value a big-endian field holds.
pub open spec fn spec_u32_from_be(b0: u8, b1: u8, b2: u8, b3: u8) -> u32 {
    (b0 * 0x1000000 + b1 * 0x10000 + b2 * 0x100 + b3) as u32
}

/// The unsigned reinterpretation of a signed 32-bit value (two's complement).
pub open spec fn spec_i32_as_u32(x: i32) -> u32 {
    if x >= 0 {
        x as u32
    } else {
        (x + 0x1_0000_0000) as u32
    }
}

/// The signed reinterpretation of an unsigned 32-bit value (two's complement).
pub open spec fn spec_u32_as_i32(x: u32) -> i32 {
    if x < 0x8000_0000 {
        x as i32
    } else {
        (x - 0x1_0000_0000) as i32
    }
}

/// The unsigned reinterpretation of a signed byte (two's complement).
pub open spec fn spec_i8_as_u8(x: i8) -> u8 {
    if x >= 0 {
        x as u8
    } else {
        (x + 0x100) as u8
    }
}

/// The signed reinterpretation of an unsigned byte (two's complement).
pub open spec fn spec_u8_as_i8(x: u8) -> i8 {
    if x < 0x80 {
        x as i8
    } else {
        (x - 0x100) as i8
    }
}

pub proof fn lemma_u16_be_roundtrip(x: u16)
    ensures
        spec_u16_from_be(spec_u16_be(x)[0], spec_u16_be(x)[1]) == x,
{
}

pub proof fn lemma_u32_be_roundtrip(x: u32)
    ensures
        spec_u32_from_be(
            spec_u32_be(x)[0],
            spec_u32_be(x)[1],
            spec_u32_be(x)[2],
            spec_u32_be(x)[3],
        ) == x,
{
}

pub proof fn lemma_i32_u32_roundtrip(x: i32)
    ensures
        spec_u32_as_i32(spec_i32_as_u32(x)) == x,
{
}

pub proof fn lemma_i8_u8_roundtrip(x: i8)
    ensures
        spec_u8_as_i8(spec_i8_as_u8(x)) == x,
{
}

/// Append a big-endian 16-bit field.
pub fn put_u16_be(buf: &mut Vec<u8>, x: u16)
    ensures
        final(buf)@ == old(buf)@ + spec_u16_be(x),
{
    buf.push((x / 0x100) as u8);
    buf.push((x % 0x100) as u8);
    assert(buf@ =~= old(buf)@ + spec_u16_be(x));
}

/// Append a big-endian 32-bit field.
pub fn put_u32_be(buf: &mut Vec<u8>, x: u32)
    ensures
        final(buf)@ == old(buf)@ + spec_u32_be(x),
{
    buf.push((x / 0x1000000) as u8);
    buf.push(((x / 0x10000) % 0x100) as u8);
    buf.push(((x / 0x100) % 0x100) as u8);
    buf.push((x % 0x100) as u8);
    assert(buf@ =~= old(buf)@ + spec_u32_be(x));
}

/// Append a big-endian 32-bit signed field (two's complement).
pub fn put_i32_be(buf: &mut Vec<u8>, x: i32)
    ensures
        final(buf)@ == old(buf)@ + spec_u32_be(spec_i32_as_u32(x)),
{
    let ux: u32 = if x >= 0 {
        x as u32
    } else {
        (x as i64 + 0x1_0000_0000) as u32
    };
    assert(ux == spec_i32_as_u32(x));
    put_u32_be(buf, ux);
}

/// Read the big-endian 16-bit field at `pos`.
pub fn get_u16_be(data: &[u8], pos: usize) -> (r: u16)
    requires
        pos + 2 <= data@.len(),
    ensures
        r == spec_u16_from_be(data@[pos as int], data@[pos + 1]),
{
    let b0 = data[pos];
    let b1 = data[pos + 1];
    b0 as u16 * 0x100 + b1 as u16
}

/// Read the big-endian 32-bit field at `pos`.
pub fn get_u32_be(data: &[u8], pos: usize) -> (r: u32)
    requires
        pos + 4 <= data@.len(),
    ensures
        r == spec_u32_from_be(data@[pos as int], data@[pos + 1], data@[pos + 2], data@[pos + 3]),
{
    let b0 = data[pos];
    let b1 = data[pos + 1];
    let b2 = data[pos + 2];
    let b3 = data[pos + 3];
    b0 as u32 * 0x1000000 + b1 as u32 * 0x10000 + b2 as u32 * 0x100 + b3 as u32
}

/// Read the big-endian 32-bit signed field at `pos` (two's complement).
pub fn get_i32_be(data: &[u8], pos: usize) -> (r: i32)
    requires
        pos + 4 <= data@.len(),
    ensures
        spec_i32_as_u32(r) == spec_u32_from_be(
            data@[pos as int],
            data@[pos + 1],
            data@[pos + 2],
            data@[pos + 3],
        ),
{
    let ux = get_u32_be(data, pos);
    let r: i32 = if ux < 0x8000_0000 {
        ux as i32
    } else {
        ((ux as i64) - 0x1_0000_0000) as i32
    };
    assert(spec_i32_as_u32(r) == ux);
    r
}

/// Append all bytes of a slice.
pub fn put_bytes(buf: &mut Vec<u8>, s: &[u8])
    ensures
        final(buf)@ == old(buf)@ + s@,
{
    let n = s.len();
    for i in 0..n
        invariant
            n == s@.len(),
            buf@ == old(buf)@ + s@.subrange(0, i as int),
        decreases n - i,
    {
        buf.push(s[i]);
        assert(buf@ =~= old(buf)@ + s@.subrange(0, i + 1));
    }
    assert(buf@ =~= old(buf)@ + s@);
}

/// Copy the bytes of `data[start..end]` into a fresh vector.
pub fn sub_vec(data: &[u8], start: usize, end: usize) -> (r: Vec<u8>)
    requires
        start <= end <= data@.len(),
    ensures
        r@ == data@.subrange(start as int, end as int),
{
    let mut out: Vec<u8> = Vec::new();
    for i in start..end
        invariant
            start <= i <= end <= data@.len(),
            out@ == data@.subrange(start as int, i as int),
        decreases end - i,
    {
        out.push(data[i]);
        assert(out@ =~= data@.subrange(start as int, i + 1));
    }
    out
}

/// Reinterpret an unsigned byte as signed (two's complement).
pub fn u8_to_i8(x: u8) -> (r: i8)
    ensures
        r == spec_u8_as_i8(x),
{
    if x < 0x80 {
        x as i8
    } else {
        ((x as i16) - 0x100) as i8
    }
}

/// Reinterpret a signed byte as unsigned (two's complement).
pub fn i8_to_u8(x: i8) -> (r: u8)
    ensures
        r == spec_i8_as_u8(x),
{
    if x >= 0 {
        x as u8
    } else {
        ((x as i16) + 0x100) as u8
    }
}

} // verus!
