//! Packing a flattened scalar stream into a little-endian byte buffer, and
//! the byte-level decode used by pretty-printing.

use vstd::prelude::*;
use vstd::bytes::{
    lemma_auto_spec_u16_to_from_le_bytes, lemma_auto_spec_u32_to_from_le_bytes,
    lemma_auto_spec_u64_to_from_le_bytes, spec_u16_to_le_bytes, spec_u32_from_le_bytes,
    spec_u32_to_le_bytes, spec_u64_from_le_bytes, spec_u64_to_le_bytes, u16_to_le_bytes,
    u32_to_le_bytes, u64_to_le_bytes,
};

use crate::dtype::{Dtype, DtypeKind};
use crate::error::NdError;
use crate::host::Scalar;

verus! {

/// The four element formats the packer serializes: 1-, 2- and 4-byte
/// integers and 8-byte floating values. Any `(kind, item_size)` pair outside
/// these is refused as [`NdError::UnsupportedDtype`].
pub open spec fn packable(d: Dtype) -> bool {
    (d.kind == DtypeKind::Integer && (d.item_size == 1 || d.item_size == 2 || d.item_size == 4))
        || (d.kind == DtypeKind::Float && d.item_size == 8)
}

/// Decides [`packable`].
pub fn is_packable(d: &Dtype) -> (b: bool)
    ensures
        b == packable(*d),
{
    match d.kind {
        DtypeKind::Integer => d.item_size == 1 || d.item_size == 2 || d.item_size == 4,
        DtypeKind::Float => d.item_size == 8,
    }
}

/// The two element formats the unpacker decodes: 4-byte integers and 8-byte
/// floating values. Reading a stride under any other dtype is refused as
/// [`NdError::UnsupportedDtype`].
pub open spec fn decodable(d: Dtype) -> bool {
    (d.kind == DtypeKind::Integer && d.item_size == 4) || (d.kind == DtypeKind::Float
        && d.item_size == 8)
}

/// Decides [`decodable`].
pub fn is_decodable(d: &Dtype) -> (b: bool)
    ensures
        b == decodable(*d),
{
    match d.kind {
        DtypeKind::Integer => d.item_size == 4,
        DtypeKind::Float => d.item_size == 8,
    }
}

/// `v` forced into `[lo, hi]`. Saturating a value at a narrow integer width
/// factors through a wider one: clamping the 32-bit truncation of a host
/// value to the 8- or 16-bit range gives exactly the host value truncated
/// toward zero and saturated at that width.
pub open spec fn clamp(v: int, lo: int, hi: int) -> int {
    if v < lo {
        lo
    } else if v > hi {
        hi
    } else {
        v
    }
}

fn clamp_i32(x: i32, lo: i32, hi: i32) -> (r: i32)
    requires
        lo <= hi,
    ensures
        r as int == clamp(x as int, lo as int, hi as int),
{
    if x < lo {
        lo
    } else if x > hi {
        hi
    } else {
        x
    }
}

/// The two's-complement encoding of a signed 8-bit value.
pub open spec fn spec_bits_of_i8(x: int) -> u8
    recommends
        -0x80 <= x < 0x80,
{
    if x >= 0 {
        x as u8
    } else {
        (x + 0x100) as u8
    }
}

fn bits_of_i8(x: i32) -> (u: u8)
    requires
        -0x80 <= x < 0x80,
    ensures
        u == spec_bits_of_i8(x as int),
{
    if x >= 0 {
        x as u8
    } else {
        (x + 0x100) as u8
    }
}

/// The two's-complement encoding of a signed 16-bit value.
pub open spec fn spec_bits_of_i16(x: int) -> u16
    recommends
        -0x8000 <= x < 0x8000,
{
    if x >= 0 {
        x as u16
    } else {
        (x + 0x1_0000) as u16
    }
}

fn bits_of_i16(x: i32) -> (u: u16)
    requires
        -0x8000 <= x < 0x8000,
    ensures
        u == spec_bits_of_i16(x as int),
{
    if x >= 0 {
        x as u16
    } else {
        (x + 0x1_0000) as u16
    }
}

/// The signed 32-bit value whose two's-complement encoding is `u`.
pub open spec fn spec_i32_of_bits(u: u32) -> int {
    if u < 0x8000_0000 {
        u as int
    } else {
        u - 0x1_0000_0000
    }
}

/// The two's-complement encoding of a signed 32-bit value.
pub open spec fn spec_bits_of_i32(x: int) -> u32
    recommends
        -0x8000_0000 <= x < 0x8000_0000,
{
    if x >= 0 {
        x as u32
    } else {
        (x + 0x1_0000_0000) as u32
    }
}

/// Encoding and decoding of the 32-bit signed representation invert each
/// other.
pub proof fn lemma_i32_bits_round_trip(x: i32)
    ensures
        spec_i32_of_bits(spec_bits_of_i32(x as int)) == x as int,
{
}

fn bits_of_i32(x: i32) -> (u: u32)
    ensures
        u == spec_bits_of_i32(x as int),
{
    if x >= 0 {
        x as u32
    } else {
        ((x as i64) + 0x1_0000_0000) as u32
    }
}

/// Decodes the signed 32-bit value stored as `u`.
pub fn i32_of_bits(u: u32) -> (x: i32)
    ensures
        x as int == spec_i32_of_bits(u),
{
    if u < 0x8000_0000 {
        u as i32
    } else {
        ((u as i64) - 0x1_0000_0000) as i32
    }
}

/// The bytes one scalar contributes to the buffer: under an integer dtype
/// the little-endian two's-complement encoding of the scalar truncated
/// toward zero to the dtype's integer width (the narrower widths saturate,
/// by clamping the 32-bit truncation); under a floating dtype the
/// little-endian IEEE-754 encoding of the full value.
pub open spec fn elem_bytes(sc: Scalar, d: Dtype) -> Seq<u8>
    recommends
        packable(d),
{
    if d.kind == DtypeKind::Integer {
        if d.item_size == 1 {
            seq![spec_bits_of_i8(clamp(sc.trunc as int, -0x80, 0x7f))]
        } else if d.item_size == 2 {
            spec_u16_to_le_bytes(spec_bits_of_i16(clamp(sc.trunc as int, -0x8000, 0x7fff)))
        } else {
            spec_u32_to_le_bytes(spec_bits_of_i32(sc.trunc as int))
        }
    } else {
        spec_u64_to_le_bytes(sc.bits)
    }
}

/// The packed form of a scalar stream: the element encodings in flattening
/// order, concatenated.
pub open spec fn spec_pack(s: Seq<Scalar>, d: Dtype) -> Seq<u8>
    decreases s.len(),
{
    if s.len() == 0 {
        Seq::empty()
    } else {
        spec_pack(s.drop_last(), d) + elem_bytes(s.last(), d)
    }
}

/// A packed buffer holds exactly `item_size` bytes per scalar.
pub proof fn lemma_spec_pack_len(s: Seq<Scalar>, d: Dtype)
    requires
        packable(d),
    ensures
        spec_pack(s, d).len() == s.len() * d.item_size,
    decreases s.len(),
{
    lemma_auto_spec_u16_to_from_le_bytes();
    lemma_auto_spec_u32_to_from_le_bytes();
    lemma_auto_spec_u64_to_from_le_bytes();
    if s.len() > 0 {
        lemma_spec_pack_len(s.drop_last(), d);
        assert((s.len() - 1) * d.item_size + d.item_size == s.len() * d.item_size)
            by (nonlinear_arith);
    }
}

/// Packs a flattened scalar stream under `d`. Succeeds exactly when `d` is
/// one of the four packable formats; the resulting buffer is the packed form
/// of the stream, `item_size` bytes per scalar.
#[verifier::loop_isolation(false)]
pub fn pack(scalars: &Vec<Scalar>, d: Dtype) -> (r: Result<Vec<u8>, NdError>)
    ensures
        match r {
            Ok(buf) => packable(d) && buf@ == spec_pack(scalars@, d) && buf@.len()
                == scalars@.len() * d.item_size,
            Err(e) => !packable(d) && e == NdError::UnsupportedDtype,
        },
{
    if !is_packable(&d) {
        return Err(NdError::UnsupportedDtype);
    }
    let integer = match d.kind {
        DtypeKind::Integer => true,
        DtypeKind::Float => false,
    };
    let sz: u32 = d.item_size;
    let mut buf: Vec<u8> = Vec::new();
    let n = scalars.len();
    let mut i: usize = 0;
    while i < n
        invariant
            0 <= i <= n,
            buf@ == spec_pack(scalars@.subrange(0, i as int), d),
        decreases n - i,
    {
        let sc = scalars[i];
        let mut bytes: Vec<u8> = if integer {
            if sz == 1 {
                let mut one: Vec<u8> = Vec::new();
                one.push(bits_of_i8(clamp_i32(sc.trunc, -0x80, 0x7f)));
                proof {
                    assert(one@ =~= elem_bytes(sc, d));
                }
                one
            } else if sz == 2 {
                u16_to_le_bytes(bits_of_i16(clamp_i32(sc.trunc, -0x8000, 0x7fff)))
            } else {
                u32_to_le_bytes(bits_of_i32(sc.trunc))
            }
        } else {
            u64_to_le_bytes(sc.bits)
        };
        buf.append(&mut bytes);
        proof {
            assert(scalars@.subrange(0, i + 1).drop_last() =~= scalars@.subrange(0, i as int));
            assert(scalars@.subrange(0, i + 1).last() == scalars@[i as int]);
        }
        i += 1;
    }
    proof {
        assert(scalars@.subrange(0, n as int) =~= scalars@);
        lemma_spec_pack_len(scalars@, d);
    }
    Ok(buf)
}

/// The prefix of a packed stream is the packed prefix: bytes before the
/// position of element `i` are untouched by later elements.
proof fn lemma_spec_pack_prefix(s: Seq<Scalar>, d: Dtype, i: int)
    requires
        packable(d),
        0 <= i < s.len(),
    ensures
        spec_pack(s, d).subrange(i * d.item_size, (i + 1) * d.item_size) == elem_bytes(s[i], d),
    decreases s.len(),
{
    lemma_auto_spec_u16_to_from_le_bytes();
    lemma_auto_spec_u32_to_from_le_bytes();
    lemma_auto_spec_u64_to_from_le_bytes();
    lemma_spec_pack_len(s, d);
    lemma_spec_pack_len(s.drop_last(), d);
    let sz = d.item_size as int;
    if i == s.len() - 1 {
        assert(i * sz == spec_pack(s.drop_last(), d).len()) by (nonlinear_arith)
            requires
                sz == d.item_size,
                i == s.len() - 1,
                spec_pack(s.drop_last(), d).len() == (s.len() - 1) * d.item_size,
        ;
        assert((i + 1) * sz == spec_pack(s, d).len()) by (nonlinear_arith)
            requires
                sz == d.item_size,
                i == s.len() - 1,
                spec_pack(s, d).len() == s.len() * d.item_size,
        ;
        assert(spec_pack(s, d).subrange(i * sz, (i + 1) * sz) =~= elem_bytes(s.last(), d));
    } else {
        lemma_spec_pack_prefix(s.drop_last(), d, i);
        let a = spec_pack(s.drop_last(), d);
        let b = elem_bytes(s.last(), d);
        assert(spec_pack(s, d) == a + b);
        assert((i + 1) * sz <= (s.len() - 1) * sz) by (nonlinear_arith)
            requires
                sz >= 0,
                0 <= i < s.len() - 1,
        ;
        assert(i * sz >= 0) by (nonlinear_arith)
            requires
                sz >= 0,
                i >= 0,
        ;
        assert((i + 1) * sz == i * sz + sz) by (nonlinear_arith);
        assert((a + b).subrange(i * sz, (i + 1) * sz) =~= a.subrange(i * sz, (i + 1) * sz));
        assert(s.drop_last()[i] == s[i]);
    }
}

/// Packing under the 4-byte integer format and decoding each 4-byte stride
/// reproduces every scalar's 32-bit truncation exactly.
pub proof fn lemma_int32_pack_round_trip(s: Seq<Scalar>, d: Dtype)
    requires
        d.kind == DtypeKind::Integer,
        d.item_size == 4,
    ensures
        spec_pack(s, d).len() == 4 * s.len(),
        forall|i: int|
            0 <= i < s.len() ==> spec_i32_of_bits(
                spec_u32_from_le_bytes(spec_pack(s, d).subrange(4 * i, 4 * i + 4)),
            ) == s[i].trunc as int,
{
    lemma_auto_spec_u32_to_from_le_bytes();
    lemma_spec_pack_len(s, d);
    assert forall|i: int| 0 <= i < s.len() implies spec_i32_of_bits(
        spec_u32_from_le_bytes(spec_pack(s, d).subrange(4 * i, 4 * i + 4)),
    ) == s[i].trunc as int by {
        lemma_spec_pack_prefix(s, d, i);
        assert(spec_pack(s, d).subrange(4 * i, 4 * i + 4) == elem_bytes(s[i], d));
        lemma_i32_bits_round_trip(s[i].trunc);
    }
}

/// Packing under the 8-byte floating format and decoding each 8-byte stride
/// reproduces every scalar's 64-bit encoding exactly, hence the value to
/// double precision.
pub proof fn lemma_float64_pack_round_trip(s: Seq<Scalar>, d: Dtype)
    requires
        d.kind == DtypeKind::Float,
        d.item_size == 8,
    ensures
        spec_pack(s, d).len() == 8 * s.len(),
        forall|i: int|
            0 <= i < s.len() ==> spec_u64_from_le_bytes(
                spec_pack(s, d).subrange(8 * i, 8 * i + 8),
            ) == s[i].bits,
{
    lemma_auto_spec_u64_to_from_le_bytes();
    lemma_spec_pack_len(s, d);
    assert forall|i: int| 0 <= i < s.len() implies spec_u64_from_le_bytes(
        spec_pack(s, d).subrange(8 * i, 8 * i + 8),
    ) == s[i].bits by {
        lemma_spec_pack_prefix(s, d, i);
        assert(spec_pack(s, d).subrange(8 * i, 8 * i + 8) == elem_bytes(s[i], d));
    }
}

} // verus!
