//! Tile decoder: parses the raw byte payload into layers, features and tag
//! dictionaries.
//!
//! The payload is a protobuf-style binary format: nested length-delimited
//! messages for layers and features, varint-encoded integer fields, and
//! packed arrays for tag indices and geometry commands. Truncated or
//! schema-violating input is rejected with a `DecodeError`; fields the core
//! does not read are skipped by their wire type, as the format prescribes.
//!
//! Every parsing function is specified against a mathematical parser over
//! `Seq<u8>`; the executable decoder returns exactly what the mathematical
//! parser denotes, error cases included.

use vstd::prelude::*;
use crate::tile::{Feature, FeatureModel, GeomType, Layer, LayerModel, Tile, TileModel, Value, ValueModel};

verus! {

/// Why a payload was rejected. A decode failure is fatal to the tile being
/// processed: no partial tile is produced.
#[derive(Clone, Copy, PartialEq, Eq, Structural, Debug)]
pub enum DecodeError {
    /// The payload ended inside a field, a length-delimited chunk overran
    /// its enclosing message, or a fixed-width field was cut short.
    Truncated,
    /// A varint ran past ten bytes or past the range of a 64-bit integer.
    VarintOverflow,
    /// A field carried a wire type the schema does not allow for it, or a
    /// wire type that does not exist.
    InvalidWireType,
    /// A 32-bit integer field held a value beyond 32 bits.
    IntOutOfRange,
}

/// `128^i`: the place value of the `i`-th byte of a varint.
pub open spec fn pow128(i: int) -> int
    decreases i,
{
    if i <= 0 {
        1
    } else {
        128 * pow128(i - 1)
    }
}

/// The mathematical varint parser, one byte per step: `acc` holds the value
/// of the bytes consumed so far, the `i`-th payload byte contributing
/// `128^i` per unit. A varint is at most 10 bytes, and the tenth byte may
/// only contribute the 64th bit.
pub open spec fn sp_varint_step(d: Seq<u8>, pos: int, end: int, i: int, acc: int) -> Result<
    (u64, int),
    DecodeError,
>
    decreases 10 - i,
{
    if i >= 10 {
        Err(DecodeError::VarintOverflow)
    } else if pos >= end {
        Err(DecodeError::Truncated)
    } else {
        let b = d[pos] as int;
        let low = b % 128;
        if i == 9 && low > 1 {
            Err(DecodeError::VarintOverflow)
        } else {
            let acc2 = acc + low * pow128(i);
            if b < 128 {
                Ok((acc2 as u64, pos + 1))
            } else {
                sp_varint_step(d, pos + 1, end, i + 1, acc2)
            }
        }
    }
}

/// A varint read from `d` at `pos`, stopping before `end`.
pub open spec fn sp_varint(d: Seq<u8>, pos: int, end: int) -> Result<(u64, int), DecodeError> {
    sp_varint_step(d, pos, end, 0, 0)
}

/// A successful varint parse consumes between one and `end - pos` bytes.
pub proof fn lemma_varint_step_advances(d: Seq<u8>, pos: int, end: int, i: int, acc: int)
    ensures
        sp_varint_step(d, pos, end, i, acc) matches Ok((v, p)) ==> pos < p <= end,
    decreases 10 - i,
{
    if i < 10 && pos < end {
        let b = d[pos] as int;
        let low = b % 128;
        if !(i == 9 && low > 1) && b >= 128 {
            lemma_varint_step_advances(d, pos + 1, end, i + 1, acc + low * pow128(i));
        }
    }
}

/// Reads one varint. Returns the value and the position after it.
pub fn read_varint(d: &Vec<u8>, pos: usize, end: usize) -> (r: Result<(u64, usize), DecodeError>)
    requires
        pos <= end <= d@.len(),
    ensures
        match r {
            Ok((v, p)) => sp_varint(d@, pos as int, end as int) == Ok::<(u64, int), DecodeError>(
                (v, p as int),
            ) && pos < p <= end,
            Err(e) => sp_varint(d@, pos as int, end as int) == Err::<(u64, int), DecodeError>(e),
        },
{
    let mut acc: u64 = 0;
    let mut mult: u64 = 1;
    let mut i: usize = 0;
    let mut p: usize = pos;
    loop
        invariant
            pos <= p <= end <= d@.len(),
            i <= 10,
            p - pos == i,
            i < 10 ==> mult as int == pow128(i as int),
            i < 10 ==> acc < mult,
            sp_varint(d@, pos as int, end as int) == sp_varint_step(
                d@,
                p as int,
                end as int,
                i as int,
                acc as int,
            ),
        decreases 10 - i,
    {
        if i >= 10 {
            return Err(DecodeError::VarintOverflow);
        }
        if p >= end {
            return Err(DecodeError::Truncated);
        }
        let b = d[p];
        let low = b % 128;
        if i == 9 && low > 1 {
            return Err(DecodeError::VarintOverflow);
        }
        proof {
            assert(pow128(9) == 0x8000_0000_0000_0000) by {
                reveal_with_fuel(pow128, 11);
            }
            if i < 9 {
                assert(pow128(i as int) * 128 == pow128(i as int + 1));
                assert(pow128(i as int + 1) <= pow128(9)) by {
                    lemma_pow128_increases(i as int + 1, 9);
                }
            }
            let m = mult as int;
            let a = acc as int;
            let lo = low as int;
            assert(lo * m + a < 128 * m) by (nonlinear_arith)
                requires
                    lo < 128,
                    a < m,
                    0 < m,
            ;
            if i == 9 {
                assert(lo * m + a < 2 * m) by (nonlinear_arith)
                    requires
                        lo <= 1,
                        a < m,
                        0 < m,
                ;
            } else {
                assert(128 * m <= 0x1_0000_0000_0000_0000int);
            }
            assert(lo * m + a < 0x1_0000_0000_0000_0000int);
        }
        let acc2: u64 = acc + (low as u64) * mult;
        if b < 128 {
            return Ok((acc2, p + 1));
        }
        p = p + 1;
        i = i + 1;
        acc = acc2;
        if i < 10 {
            proof {
                assert(pow128(i as int - 1) * 128 == pow128(i as int));
                assert(pow128(i as int) <= pow128(9)) by {
                    lemma_pow128_increases(i as int, 9);
                }
                assert(pow128(9) == 0x8000_0000_0000_0000) by {
                    reveal_with_fuel(pow128, 11);
                }
            }
            mult = mult * 128;
        }
    }
}

/// The position after an unread field of wire type `key % 8`: varints are
/// consumed byte by byte, 64-bit and 32-bit fields are fixed-width, and
/// length-delimited fields carry their length up front. Wire types without
/// a meaning are rejected.
pub open spec fn sp_skip_field(d: Seq<u8>, pos: int, end: int, key: u64) -> Result<
    int,
    DecodeError,
> {
    let wire = key as int % 8;
    if wire == 0 {
        match sp_varint(d, pos, end) {
            Ok((v, p)) => Ok(p),
            Err(e) => Err(e),
        }
    } else if wire == 1 {
        if pos + 8 <= end {
            Ok(pos + 8)
        } else {
            Err(DecodeError::Truncated)
        }
    } else if wire == 2 {
        match sp_varint(d, pos, end) {
            Ok((len, p)) => if p + len <= end {
                Ok(p + len)
            } else {
                Err(DecodeError::Truncated)
            },
            Err(e) => Err(e),
        }
    } else if wire == 5 {
        if pos + 4 <= end {
            Ok(pos + 4)
        } else {
            Err(DecodeError::Truncated)
        }
    } else {
        Err(DecodeError::InvalidWireType)
    }
}

/// Skipping a field consumes at least one byte.
pub proof fn lemma_skip_advances(d: Seq<u8>, pos: int, end: int, key: u64)
    requires
        pos <= end,
    ensures
        sp_skip_field(d, pos, end, key) matches Ok(p) ==> pos < p <= end,
{
    lemma_varint_step_advances(d, pos, end, 0, 0);
}

/// Skips one field whose key has already been read.
pub fn skip_field(d: &Vec<u8>, pos: usize, end: usize, key: u64) -> (r: Result<
    usize,
    DecodeError,
>)
    requires
        pos <= end <= d@.len(),
    ensures
        match r {
            Ok(p) => sp_skip_field(d@, pos as int, end as int, key) == Ok::<int, DecodeError>(
                p as int,
            ) && pos < p <= end,
            Err(e) => sp_skip_field(d@, pos as int, end as int, key) == Err::<int, DecodeError>(e),
        },
{
    proof {
        lemma_skip_advances(d@, pos as int, end as int, key);
    }
    let wire = key % 8;
    if wire == 0 {
        match read_varint(d, pos, end) {
            Ok((_v, p)) => Ok(p),
            Err(e) => Err(e),
        }
    } else if wire == 1 {
        if end - pos >= 8 {
            Ok(pos + 8)
        } else {
            Err(DecodeError::Truncated)
        }
    } else if wire == 2 {
        match read_varint(d, pos, end) {
            Ok((len, p)) => {
                if len <= (end - p) as u64 {
                    Ok(p + len as usize)
                } else {
                    Err(DecodeError::Truncated)
                }
            },
            Err(e) => Err(e),
        }
    } else if wire == 5 {
        if end - pos >= 4 {
            Ok(pos + 4)
        } else {
            Err(DecodeError::Truncated)
        }
    } else {
        Err(DecodeError::InvalidWireType)
    }
}

/// A length-delimited chunk: its length as a varint, then that many bytes.
pub open spec fn sp_bytes(d: Seq<u8>, pos: int, end: int) -> Result<(Seq<u8>, int), DecodeError> {
    match sp_varint(d, pos, end) {
        Ok((len, p)) => if p + len <= end {
            Ok((d.subrange(p, p + len), p + len))
        } else {
            Err(DecodeError::Truncated)
        },
        Err(e) => Err(e),
    }
}

/// Reads one length-delimited byte-string field.
pub fn read_bytes(d: &Vec<u8>, pos: usize, end: usize) -> (r: Result<
    (Vec<u8>, usize),
    DecodeError,
>)
    requires
        pos <= end <= d@.len(),
    ensures
        match r {
            Ok((s, p)) => sp_bytes(d@, pos as int, end as int) == Ok::<(Seq<u8>, int), DecodeError>(
                (s@, p as int),
            ) && pos < p <= end,
            Err(e) => sp_bytes(d@, pos as int, end as int) == Err::<(Seq<u8>, int), DecodeError>(e),
        },
{
    match read_varint(d, pos, end) {
        Err(e) => Err(e),
        Ok((len, p)) => {
            if len > (end - p) as u64 {
                return Err(DecodeError::Truncated);
            }
            let len_u = len as usize;
            let mut out: Vec<u8> = Vec::new();
            let mut i: usize = 0;
            while i < len_u
                invariant
                    p + len_u <= end <= d@.len(),
                    i <= len_u,
                    out@ =~= d@.subrange(p as int, p + i as int),
                decreases len_u - i,
            {
                out.push(d[p + i]);
                i = i + 1;
                proof {
                    assert(out@ =~= d@.subrange(p as int, p + i as int));
                }
            }
            proof {
                assert(out@ =~= d@.subrange(p as int, p as int + len as int));
            }
            Ok((out, p + len_u))
        },
    }
}

/// A little-endian 32-bit field.
pub open spec fn sp_fixed32(d: Seq<u8>, pos: int, end: int) -> Result<(u32, int), DecodeError> {
    if pos + 4 <= end {
        Ok(
            (
                (d[pos] as int + d[pos + 1] as int * 0x100 + d[pos + 2] as int * 0x1_0000 + d[pos
                    + 3] as int * 0x100_0000) as u32,
                pos + 4,
            ),
        )
    } else {
        Err(DecodeError::Truncated)
    }
}

/// Reads one little-endian 32-bit field.
pub fn read_fixed32(d: &Vec<u8>, pos: usize, end: usize) -> (r: Result<(u32, usize), DecodeError>)
    requires
        pos <= end <= d@.len(),
    ensures
        match r {
            Ok((v, p)) => sp_fixed32(d@, pos as int, end as int) == Ok::<(u32, int), DecodeError>(
                (v, p as int),
            ) && pos < p <= end,
            Err(e) => sp_fixed32(d@, pos as int, end as int) == Err::<(u32, int), DecodeError>(e),
        },
{
    if end - pos >= 4 {
        let v: u32 = d[pos] as u32 + d[pos + 1] as u32 * 0x100 + d[pos + 2] as u32 * 0x1_0000 + d[pos
            + 3] as u32 * 0x100_0000;
        Ok((v, pos + 4))
    } else {
        Err(DecodeError::Truncated)
    }
}

/// A little-endian 64-bit field.
pub open spec fn sp_fixed64(d: Seq<u8>, pos: int, end: int) -> Result<(u64, int), DecodeError> {
    if pos + 8 <= end {
        Ok(
            (
                (d[pos] as int + d[pos + 1] as int * 0x100 + d[pos + 2] as int * 0x1_0000 + d[pos
                    + 3] as int * 0x100_0000 + d[pos + 4] as int * 0x1_0000_0000 + d[pos
                    + 5] as int * 0x100_0000_0000 + d[pos + 6] as int * 0x1_0000_0000_0000 + d[pos
                    + 7] as int * 0x100_0000_0000_0000) as u64,
                pos + 8,
            ),
        )
    } else {
        Err(DecodeError::Truncated)
    }
}

/// Reads one little-endian 64-bit field.
pub fn read_fixed64(d: &Vec<u8>, pos: usize, end: usize) -> (r: Result<(u64, usize), DecodeError>)
    requires
        pos <= end <= d@.len(),
    ensures
        match r {
            Ok((v, p)) => sp_fixed64(d@, pos as int, end as int) == Ok::<(u64, int), DecodeError>(
                (v, p as int),
            ) && pos < p <= end,
            Err(e) => sp_fixed64(d@, pos as int, end as int) == Err::<(u64, int), DecodeError>(e),
        },
{
    if end - pos >= 8 {
        let v: u64 = d[pos] as u64 + d[pos + 1] as u64 * 0x100 + d[pos + 2] as u64 * 0x1_0000 + d[pos
            + 3] as u64 * 0x100_0000 + d[pos + 4] as u64 * 0x1_0000_0000 + d[pos
            + 5] as u64 * 0x100_0000_0000 + d[pos + 6] as u64 * 0x1_0000_0000_0000 + d[pos
            + 7] as u64 * 0x100_0000_0000_0000;
        Ok((v, pos + 8))
    } else {
        Err(DecodeError::Truncated)
    }
}

/// The signed 64-bit value whose two's-complement pattern is `v`.
pub open spec fn sp_twos_complement(v: u64) -> int {
    if v < 0x8000_0000_0000_0000 {
        v as int
    } else {
        v as int - 0x1_0000_0000_0000_0000
    }
}

/// Reinterprets a varint as a two's-complement signed integer.
pub fn twos_complement(v: u64) -> (r: i64)
    ensures
        r as int == sp_twos_complement(v),
{
    if v < 0x8000_0000_0000_0000 {
        v as i64
    } else {
        -((u64::MAX - v) as i64) - 1
    }
}

/// The signed value of a zigzag-encoded integer: even codes are the
/// non-negative integers in order, odd codes the negative ones.
pub open spec fn sp_zigzag64(v: u64) -> int {
    if v % 2 == 0 {
        v as int / 2
    } else {
        -(v as int / 2) - 1
    }
}

/// Decodes a zigzag-encoded signed integer.
pub fn zigzag64(v: u64) -> (r: i64)
    ensures
        r as int == sp_zigzag64(v),
{
    if v % 2 == 0 {
        (v / 2) as i64
    } else {
        -((v / 2) as i64) - 1
    }
}

/// The mathematical parser of a typed tag value: a message whose fields are
/// a byte string (field 1), a 32-bit float's bits (field 2), a 64-bit
/// float's bits (field 3), and varint-coded signed, unsigned, zigzag and
/// boolean integers (fields 4 to 7). A repeated field keeps its last
/// occurrence; unknown fields are skipped; a known field with the wrong
/// wire type is rejected.
pub open spec fn sp_value_fields(d: Seq<u8>, pos: int, end: int, acc: ValueModel) -> Result<
    ValueModel,
    DecodeError,
>
    decreases end - pos,
{
    if pos >= end {
        Ok(acc)
    } else {
        match sp_varint(d, pos, end) {
            Err(e) => Err(e),
            Ok((key, p)) => {
                let field = key as int / 8;
                let wire = key as int % 8;
                if field == 1 {
                    if wire != 2 {
                        Err(DecodeError::InvalidWireType)
                    } else {
                        match sp_bytes(d, p, end) {
                            Err(e) => Err(e),
                            Ok((s, p2)) => if pos < p2 <= end {
                                sp_value_fields(
                                    d,
                                    p2,
                                    end,
                                    ValueModel { string_value: Some(s), ..acc },
                                )
                            } else {
                                Err(DecodeError::Truncated)
                            },
                        }
                    }
                } else if field == 2 {
                    if wire != 5 {
                        Err(DecodeError::InvalidWireType)
                    } else {
                        match sp_fixed32(d, p, end) {
                            Err(e) => Err(e),
                            Ok((v, p2)) => if pos < p2 <= end {
                                sp_value_fields(
                                    d,
                                    p2,
                                    end,
                                    ValueModel { float_bits: Some(v), ..acc },
                                )
                            } else {
                                Err(DecodeError::Truncated)
                            },
                        }
                    }
                } else if field == 3 {
                    if wire != 1 {
                        Err(DecodeError::InvalidWireType)
                    } else {
                        match sp_fixed64(d, p, end) {
                            Err(e) => Err(e),
                            Ok((v, p2)) => if pos < p2 <= end {
                                sp_value_fields(
                                    d,
                                    p2,
                                    end,
                                    ValueModel { double_bits: Some(v), ..acc },
                                )
                            } else {
                                Err(DecodeError::Truncated)
                            },
                        }
                    }
                } else if field == 4 || field == 5 || field == 6 || field == 7 {
                    if wire != 0 {
                        Err(DecodeError::InvalidWireType)
                    } else {
                        match sp_varint(d, p, end) {
                            Err(e) => Err(e),
                            Ok((v, p2)) => if pos < p2 <= end {
                                let acc2 = if field == 4 {
                                    ValueModel {
                                        int_value: Some(sp_twos_complement(v) as i64),
                                        ..acc
                                    }
                                } else if field == 5 {
                                    ValueModel { uint_value: Some(v), ..acc }
                                } else if field == 6 {
                                    ValueModel { sint_value: Some(sp_zigzag64(v) as i64), ..acc }
                                } else {
                                    ValueModel { bool_value: Some(v != 0), ..acc }
                                };
                                sp_value_fields(d, p2, end, acc2)
                            } else {
                                Err(DecodeError::Truncated)
                            },
                        }
                    }
                } else {
                    match sp_skip_field(d, p, end, key) {
                        Err(e) => Err(e),
                        Ok(p2) => if pos < p2 <= end {
                            sp_value_fields(d, p2, end, acc)
                        } else {
                            Err(DecodeError::Truncated)
                        },
                    }
                }
            },
        }
    }
}

/// The typed tag value encoded at `[pos, end)`.
pub open spec fn sp_value(d: Seq<u8>, pos: int, end: int) -> Result<ValueModel, DecodeError> {
    sp_value_fields(d, pos, end, Value::empty_model())
}

/// Decodes one typed tag value message occupying `[pos, end)`.
pub fn decode_value(d: &Vec<u8>, pos: usize, end: usize) -> (r: Result<Value, DecodeError>)
    requires
        pos <= end <= d@.len(),
    ensures
        match r {
            Ok(v) => sp_value(d@, pos as int, end as int) == Ok::<ValueModel, DecodeError>(v@),
            Err(e) => sp_value(d@, pos as int, end as int) == Err::<ValueModel, DecodeError>(e),
        },
{
    let mut acc = Value::empty();
    let mut p: usize = pos;
    loop
        invariant
            pos <= p <= end <= d@.len(),
            sp_value(d@, pos as int, end as int) == sp_value_fields(
                d@,
                p as int,
                end as int,
                acc@,
            ),
        decreases end - p,
    {
        if p >= end {
            return Ok(acc);
        }
        match read_varint(d, p, end) {
            Ok((key, kp)) => {
                let field = key / 8;
                let wire = key % 8;
                if field == 1 {
                    if wire != 2 {
                        return Err(DecodeError::InvalidWireType);
                    }
                    match read_bytes(d, kp, end) {
                        Err(e) => {
                            return Err(e);
                        },
                        Ok((s, p2)) => {
                            acc.string_value = Some(s);
                            p = p2;
                        },
                    }
                } else if field == 2 {
                    if wire != 5 {
                        return Err(DecodeError::InvalidWireType);
                    }
                    match read_fixed32(d, kp, end) {
                        Err(e) => {
                            return Err(e);
                        },
                        Ok((v, p2)) => {
                            acc.float_bits = Some(v);
                            p = p2;
                        },
                    }
                } else if field == 3 {
                    if wire != 1 {
                        return Err(DecodeError::InvalidWireType);
                    }
                    match read_fixed64(d, kp, end) {
                        Err(e) => {
                            return Err(e);
                        },
                        Ok((v, p2)) => {
                            acc.double_bits = Some(v);
                            p = p2;
                        },
                    }
                } else if field == 4 || field == 5 || field == 6 || field == 7 {
                    if wire != 0 {
                        return Err(DecodeError::InvalidWireType);
                    }
                    match read_varint(d, kp, end) {
                        Err(e) => {
                            return Err(e);
                        },
                        Ok((v, p2)) => {
                            if field == 4 {
                                acc.int_value = Some(twos_complement(v));
                            } else if field == 5 {
                                acc.uint_value = Some(v);
                            } else if field == 6 {
                                acc.sint_value = Some(zigzag64(v));
                            } else {
                                acc.bool_value = Some(v != 0);
                            }
                            p = p2;
                        },
                    }
                } else {
                    match skip_field(d, kp, end, key) {
                        Err(e) => {
                            return Err(e);
                        },
                        Ok(p2) => {
                            p = p2;
                        },
                    }
                }
            },
            Err(e) => {
                return Err(e);
            },
        }
    }
}

/// A packed array of 32-bit integers: varints back to back until the end
/// of the chunk, appended to `acc`. A value beyond 32 bits is rejected.
pub open spec fn sp_packed_u32(d: Seq<u8>, pos: int, end: int, acc: Seq<u32>) -> Result<
    Seq<u32>,
    DecodeError,
>
    decreases end - pos,
{
    if pos >= end {
        Ok(acc)
    } else {
        match sp_varint(d, pos, end) {
            Err(e) => Err(e),
            Ok((v, p)) => if v > u32::MAX as u64 {
                Err(DecodeError::IntOutOfRange)
            } else if pos < p <= end {
                sp_packed_u32(d, p, end, acc.push(v as u32))
            } else {
                Err(DecodeError::Truncated)
            },
        }
    }
}

/// Reads a packed array of 32-bit integers filling `[pos, end)`, appending
/// the values to `out`.
pub fn read_packed_u32(d: &Vec<u8>, pos: usize, end: usize, out: &mut Vec<u32>) -> (r: Result<
    (),
    DecodeError,
>)
    requires
        pos <= end <= d@.len(),
    ensures
        match r {
            Ok(()) => sp_packed_u32(d@, pos as int, end as int, old(out)@) == Ok::<
                Seq<u32>,
                DecodeError,
            >(final(out)@),
            Err(e) => sp_packed_u32(d@, pos as int, end as int, old(out)@) == Err::<
                Seq<u32>,
                DecodeError,
            >(e),
        },
{
    let mut p: usize = pos;
    loop
        invariant
            pos <= p <= end <= d@.len(),
            sp_packed_u32(d@, pos as int, end as int, old(out)@) == sp_packed_u32(
                d@,
                p as int,
                end as int,
                out@,
            ),
        decreases end - p,
    {
        if p >= end {
            return Ok(());
        }
        match read_varint(d, p, end) {
            Err(e) => {
                return Err(e);
            },
            Ok((v, p2)) => {
                if v > u32::MAX as u64 {
                    return Err(DecodeError::IntOutOfRange);
                }
                out.push(v as u32);
                p = p2;
            },
        }
    }
}

/// The geometry type a feature declares: other codes mean an unknown type,
/// which the pipeline then passes over.
pub open spec fn sp_geom_type(v: u64) -> GeomType {
    if v == 1 {
        GeomType::Point
    } else if v == 2 {
        GeomType::Linestring
    } else if v == 3 {
        GeomType::Polygon
    } else {
        GeomType::Unknown
    }
}

/// Maps a declared geometry-type code to its meaning.
pub fn geom_type_of(v: u64) -> (t: GeomType)
    ensures
        t == sp_geom_type(v),
{
    if v == 1 {
        GeomType::Point
    } else if v == 2 {
        GeomType::Linestring
    } else if v == 3 {
        GeomType::Polygon
    } else {
        GeomType::Unknown
    }
}

/// The mathematical parser of a feature message: a packed (or repeatedly
/// single) tag-index list in field 2, a geometry-type code in field 3, and
/// a packed (or repeatedly single) geometry-command array in field 4.
/// Repeated occurrences of the arrays concatenate; unknown fields (the
/// feature id among them) are skipped.
pub open spec fn sp_feature_fields(d: Seq<u8>, pos: int, end: int, acc: FeatureModel) -> Result<
    FeatureModel,
    DecodeError,
>
    decreases end - pos,
{
    if pos >= end {
        Ok(acc)
    } else {
        match sp_varint(d, pos, end) {
            Err(e) => Err(e),
            Ok((key, p)) => {
                let field = key as int / 8;
                let wire = key as int % 8;
                if field == 2 || field == 4 {
                    let arr = if field == 2 {
                        acc.tags
                    } else {
                        acc.geometry
                    };
                    if wire == 2 {
                        match sp_varint(d, p, end) {
                            Err(e) => Err(e),
                            Ok((len, pl)) => if pl + len <= end {
                                match sp_packed_u32(d, pl, pl + len, arr) {
                                    Err(e) => Err(e),
                                    Ok(arr2) => if pos < pl + len <= end {
                                        sp_feature_fields(
                                            d,
                                            pl + len,
                                            end,
                                            if field == 2 {
                                                FeatureModel { tags: arr2, ..acc }
                                            } else {
                                                FeatureModel { geometry: arr2, ..acc }
                                            },
                                        )
                                    } else {
                                        Err(DecodeError::Truncated)
                                    },
                                }
                            } else {
                                Err(DecodeError::Truncated)
                            },
                        }
                    } else if wire == 0 {
                        match sp_varint(d, p, end) {
                            Err(e) => Err(e),
                            Ok((v, p2)) => if v > u32::MAX as u64 {
                                Err(DecodeError::IntOutOfRange)
                            } else if pos < p2 <= end {
                                sp_feature_fields(
                                    d,
                                    p2,
                                    end,
                                    if field == 2 {
                                        FeatureModel { tags: arr.push(v as u32), ..acc }
                                    } else {
                                        FeatureModel { geometry: arr.push(v as u32), ..acc }
                                    },
                                )
                            } else {
                                Err(DecodeError::Truncated)
                            },
                        }
                    } else {
                        Err(DecodeError::InvalidWireType)
                    }
                } else if field == 3 {
                    if wire != 0 {
                        Err(DecodeError::InvalidWireType)
                    } else {
                        match sp_varint(d, p, end) {
                            Err(e) => Err(e),
                            Ok((v, p2)) => if pos < p2 <= end {
                                sp_feature_fields(
                                    d,
                                    p2,
                                    end,
                                    FeatureModel { geom_type: sp_geom_type(v), ..acc },
                                )
                            } else {
                                Err(DecodeError::Truncated)
                            },
                        }
                    }
                } else {
                    match sp_skip_field(d, p, end, key) {
                        Err(e) => Err(e),
                        Ok(p2) => if pos < p2 <= end {
                            sp_feature_fields(d, p2, end, acc)
                        } else {
                            Err(DecodeError::Truncated)
                        },
                    }
                }
            },
        }
    }
}

/// The feature encoded at `[pos, end)`.
pub open spec fn sp_feature(d: Seq<u8>, pos: int, end: int) -> Result<FeatureModel, DecodeError> {
    sp_feature_fields(
        d,
        pos,
        end,
        FeatureModel {
            tags: Seq::<u32>::empty(),
            geom_type: GeomType::Unknown,
            geometry: Seq::<u32>::empty(),
        },
    )
}

/// Decodes one feature message occupying `[pos, end)`.
pub fn decode_feature(d: &Vec<u8>, pos: usize, end: usize) -> (r: Result<Feature, DecodeError>)
    requires
        pos <= end <= d@.len(),
    ensures
        match r {
            Ok(f) => sp_feature(d@, pos as int, end as int) == Ok::<FeatureModel, DecodeError>(f@),
            Err(e) => sp_feature(d@, pos as int, end as int) == Err::<FeatureModel, DecodeError>(
                e,
            ),
        },
{
    let mut acc = Feature::empty();
    let mut p: usize = pos;
    proof {
        assert(acc@ =~= (FeatureModel {
            tags: Seq::<u32>::empty(),
            geom_type: GeomType::Unknown,
            geometry: Seq::<u32>::empty(),
        }));
    }
    loop
        invariant
            pos <= p <= end <= d@.len(),
            sp_feature(d@, pos as int, end as int) == sp_feature_fields(
                d@,
                p as int,
                end as int,
                acc@,
            ),
        decreases end - p,
    {
        if p >= end {
            return Ok(acc);
        }
        match read_varint(d, p, end) {
            Err(e) => {
                return Err(e);
            },
            Ok((key, kp)) => {
                let field = key / 8;
                let wire = key % 8;
                if field == 2 || field == 4 {
                    if wire == 2 {
                        match read_varint(d, kp, end) {
                            Err(e) => {
                                return Err(e);
                            },
                            Ok((len, pl)) => {
                                if len > (end - pl) as u64 {
                                    return Err(DecodeError::Truncated);
                                }
                                let chunk_end = pl + len as usize;
                                let res = if field == 2 {
                                    read_packed_u32(d, pl, chunk_end, &mut acc.tags)
                                } else {
                                    read_packed_u32(d, pl, chunk_end, &mut acc.geometry)
                                };
                                match res {
                                    Err(e) => {
                                        return Err(e);
                                    },
                                    Ok(()) => {
                                        p = chunk_end;
                                    },
                                }
                            },
                        }
                    } else if wire == 0 {
                        match read_varint(d, kp, end) {
                            Err(e) => {
                                return Err(e);
                            },
                            Ok((v, p2)) => {
                                if v > u32::MAX as u64 {
                                    return Err(DecodeError::IntOutOfRange);
                                }
                                if field == 2 {
                                    acc.tags.push(v as u32);
                                } else {
                                    acc.geometry.push(v as u32);
                                }
                                p = p2;
                            },
                        }
                    } else {
                        return Err(DecodeError::InvalidWireType);
                    }
                } else if field == 3 {
                    if wire != 0 {
                        return Err(DecodeError::InvalidWireType);
                    }
                    match read_varint(d, kp, end) {
                        Err(e) => {
                            return Err(e);
                        },
                        Ok((v, p2)) => {
                            acc.geom_type = geom_type_of(v);
                            p = p2;
                        },
                    }
                } else {
                    match skip_field(d, kp, end, key) {
                        Err(e) => {
                            return Err(e);
                        },
                        Ok(p2) => {
                            p = p2;
                        },
                    }
                }
            },
        }
    }
}

/// The mathematical parser of a layer message: a name (field 1), features
/// (field 2, one message per occurrence), key strings (field 3) and typed
/// values (field 4, one message per occurrence). Keys, values and features
/// keep the order in which they stand in the payload, since tag-index pairs
/// reference them by position. Other fields are skipped.
pub open spec fn sp_layer_fields(d: Seq<u8>, pos: int, end: int, acc: LayerModel) -> Result<
    LayerModel,
    DecodeError,
>
    decreases end - pos,
{
    if pos >= end {
        Ok(acc)
    } else {
        match sp_varint(d, pos, end) {
            Err(e) => Err(e),
            Ok((key, p)) => {
                let field = key as int / 8;
                let wire = key as int % 8;
                if field == 1 || field == 3 {
                    if wire != 2 {
                        Err(DecodeError::InvalidWireType)
                    } else {
                        match sp_bytes(d, p, end) {
                            Err(e) => Err(e),
                            Ok((s, p2)) => if pos < p2 <= end {
                                sp_layer_fields(
                                    d,
                                    p2,
                                    end,
                                    if field == 1 {
                                        LayerModel { name: s, ..acc }
                                    } else {
                                        LayerModel { keys: acc.keys.push(s), ..acc }
                                    },
                                )
                            } else {
                                Err(DecodeError::Truncated)
                            },
                        }
                    }
                } else if field == 2 || field == 4 {
                    if wire != 2 {
                        Err(DecodeError::InvalidWireType)
                    } else {
                        match sp_varint(d, p, end) {
                            Err(e) => Err(e),
                            Ok((len, pl)) => if pl + len <= end {
                                if field == 2 {
                                    match sp_feature(d, pl, pl + len) {
                                        Err(e) => Err(e),
                                        Ok(f) => if pos < pl + len <= end {
                                            sp_layer_fields(
                                                d,
                                                pl + len,
                                                end,
                                                LayerModel { features: acc.features.push(f), ..acc },
                                            )
                                        } else {
                                            Err(DecodeError::Truncated)
                                        },
                                    }
                                } else {
                                    match sp_value(d, pl, pl + len) {
                                        Err(e) => Err(e),
                                        Ok(v) => if pos < pl + len <= end {
                                            sp_layer_fields(
                                                d,
                                                pl + len,
                                                end,
                                                LayerModel { values: acc.values.push(v), ..acc },
                                            )
                                        } else {
                                            Err(DecodeError::Truncated)
                                        },
                                    }
                                }
                            } else {
                                Err(DecodeError::Truncated)
                            },
                        }
                    }
                } else {
                    match sp_skip_field(d, p, end, key) {
                        Err(e) => Err(e),
                        Ok(p2) => if pos < p2 <= end {
                            sp_layer_fields(d, p2, end, acc)
                        } else {
                            Err(DecodeError::Truncated)
                        },
                    }
                }
            },
        }
    }
}

/// The layer encoded at `[pos, end)`.
pub open spec fn sp_layer(d: Seq<u8>, pos: int, end: int) -> Result<LayerModel, DecodeError> {
    sp_layer_fields(
        d,
        pos,
        end,
        LayerModel {
            name: Seq::<u8>::empty(),
            keys: Seq::<Seq<u8>>::empty(),
            values: Seq::<ValueModel>::empty(),
            features: Seq::<FeatureModel>::empty(),
        },
    )
}

/// Decodes one layer message occupying `[pos, end)`.
pub fn decode_layer(d: &Vec<u8>, pos: usize, end: usize) -> (r: Result<Layer, DecodeError>)
    requires
        pos <= end <= d@.len(),
    ensures
        match r {
            Ok(l) => sp_layer(d@, pos as int, end as int) == Ok::<LayerModel, DecodeError>(l@),
            Err(e) => sp_layer(d@, pos as int, end as int) == Err::<LayerModel, DecodeError>(e),
        },
{
    let mut acc = Layer::empty();
    let mut p: usize = pos;
    loop
        invariant
            pos <= p <= end <= d@.len(),
            sp_layer(d@, pos as int, end as int) == sp_layer_fields(
                d@,
                p as int,
                end as int,
                acc@,
            ),
        decreases end - p,
    {
        if p >= end {
            return Ok(acc);
        }
        match read_varint(d, p, end) {
            Err(e) => {
                return Err(e);
            },
            Ok((key, kp)) => {
                let field = key / 8;
                let wire = key % 8;
                if field == 1 || field == 3 {
                    if wire != 2 {
                        return Err(DecodeError::InvalidWireType);
                    }
                    match read_bytes(d, kp, end) {
                        Err(e) => {
                            return Err(e);
                        },
                        Ok((s, p2)) => {
                            let ghost prev = acc@;
                            let ghost sv = s@;
                            if field == 1 {
                                acc.name = s;
                                proof {
                                    assert(acc@ =~~= (LayerModel { name: sv, ..prev }));
                                }
                            } else {
                                acc.keys.push(s);
                                proof {
                                    assert(acc@ =~~= (LayerModel {
                                        keys: prev.keys.push(sv),
                                        ..prev
                                    }));
                                }
                            }
                            p = p2;
                        },
                    }
                } else if field == 2 || field == 4 {
                    if wire != 2 {
                        return Err(DecodeError::InvalidWireType);
                    }
                    match read_varint(d, kp, end) {
                        Err(e) => {
                            return Err(e);
                        },
                        Ok((len, pl)) => {
                            if len > (end - pl) as u64 {
                                return Err(DecodeError::Truncated);
                            }
                            let chunk_end = pl + len as usize;
                            let ghost prev = acc@;
                            if field == 2 {
                                match decode_feature(d, pl, chunk_end) {
                                    Err(e) => {
                                        return Err(e);
                                    },
                                    Ok(f) => {
                                        let ghost fv = f@;
                                        acc.features.push(f);
                                        proof {
                                            assert(acc@ =~~= (LayerModel {
                                                features: prev.features.push(fv),
                                                ..prev
                                            }));
                                        }
                                    },
                                }
                            } else {
                                match decode_value(d, pl, chunk_end) {
                                    Err(e) => {
                                        return Err(e);
                                    },
                                    Ok(v) => {
                                        let ghost vv = v@;
                                        acc.values.push(v);
                                        proof {
                                            assert(acc@ =~~= (LayerModel {
                                                values: prev.values.push(vv),
                                                ..prev
                                            }));
                                        }
                                    },
                                }
                            }
                            p = chunk_end;
                        },
                    }
                } else {
                    match skip_field(d, kp, end, key) {
                        Err(e) => {
                            return Err(e);
                        },
                        Ok(p2) => {
                            p = p2;
                        },
                    }
                }
            },
        }
    }
}

/// The mathematical parser of the tile message: one layer message per
/// occurrence of field 3, in payload order. Other fields are skipped.
pub open spec fn sp_tile_fields(d: Seq<u8>, pos: int, end: int, acc: TileModel) -> Result<
    TileModel,
    DecodeError,
>
    decreases end - pos,
{
    if pos >= end {
        Ok(acc)
    } else {
        match sp_varint(d, pos, end) {
            Err(e) => Err(e),
            Ok((key, p)) => {
                let field = key as int / 8;
                let wire = key as int % 8;
                if field == 3 {
                    if wire != 2 {
                        Err(DecodeError::InvalidWireType)
                    } else {
                        match sp_varint(d, p, end) {
                            Err(e) => Err(e),
                            Ok((len, pl)) => if pl + len <= end {
                                match sp_layer(d, pl, pl + len) {
                                    Err(e) => Err(e),
                                    Ok(l) => if pos < pl + len <= end {
                                        sp_tile_fields(
                                            d,
                                            pl + len,
                                            end,
                                            TileModel { layers: acc.layers.push(l) },
                                        )
                                    } else {
                                        Err(DecodeError::Truncated)
                                    },
                                }
                            } else {
                                Err(DecodeError::Truncated)
                            },
                        }
                    }
                } else {
                    match sp_skip_field(d, p, end, key) {
                        Err(e) => Err(e),
                        Ok(p2) => if pos < p2 <= end {
                            sp_tile_fields(d, p2, end, acc)
                        } else {
                            Err(DecodeError::Truncated)
                        },
                    }
                }
            },
        }
    }
}

/// The tile a payload denotes: the layers of field 3, in order, or the
/// first decode failure.
pub open spec fn sp_decode(d: Seq<u8>) -> Result<TileModel, DecodeError> {
    sp_tile_fields(d, 0, d.len() as int, TileModel { layers: Seq::<LayerModel>::empty() })
}

/// Decodes a tile payload: the layers of field 3 in payload order, their
/// features, key/value dictionaries and geometry-command streams. Truncated
/// or schema-violating input yields the error `sp_decode` pins down, and no
/// partial tile.
pub fn decode(d: &Vec<u8>) -> (r: Result<Tile, DecodeError>)
    ensures
        match r {
            Ok(t) => sp_decode(d@) == Ok::<TileModel, DecodeError>(t@),
            Err(e) => sp_decode(d@) == Err::<TileModel, DecodeError>(e),
        },
{
    let end = d.len();
    let mut acc = Tile::empty();
    let mut p: usize = 0;
    loop
        invariant
            p <= end == d@.len(),
            sp_decode(d@) == sp_tile_fields(d@, p as int, end as int, acc@),
        decreases end - p,
    {
        if p >= end {
            return Ok(acc);
        }
        match read_varint(d, p, end) {
            Err(e) => {
                return Err(e);
            },
            Ok((key, kp)) => {
                let field = key / 8;
                let wire = key % 8;
                if field == 3 {
                    if wire != 2 {
                        return Err(DecodeError::InvalidWireType);
                    }
                    match read_varint(d, kp, end) {
                        Err(e) => {
                            return Err(e);
                        },
                        Ok((len, pl)) => {
                            if len > (end - pl) as u64 {
                                return Err(DecodeError::Truncated);
                            }
                            let chunk_end = pl + len as usize;
                            match decode_layer(d, pl, chunk_end) {
                                Err(e) => {
                                    return Err(e);
                                },
                                Ok(l) => {
                                    let ghost prev = acc@;
                                    let ghost lv = l@;
                                    acc.layers.push(l);
                                    proof {
                                        assert(acc@ =~~= (TileModel {
                                            layers: prev.layers.push(lv),
                                        }));
                                    }
                                    p = chunk_end;
                                },
                            }
                        },
                    }
                } else {
                    match skip_field(d, kp, end, key) {
                        Err(e) => {
                            return Err(e);
                        },
                        Ok(p2) => {
                            p = p2;
                        },
                    }
                }
            },
        }
    }
}

/// `pow128` grows with its argument.
pub proof fn lemma_pow128_increases(a: int, b: int)
    requires
        0 <= a <= b,
    ensures
        pow128(a) <= pow128(b),
    decreases b,
{
    if a < b {
        lemma_pow128_increases(a, b - 1);
        assert(pow128(b) == 128 * pow128(b - 1));
        assert(pow128(b - 1) >= 1) by { lemma_pow128_positive(b - 1); }
    }
}

/// `pow128` is at least one.
pub proof fn lemma_pow128_positive(i: int)
    ensures
        pow128(i) >= 1,
    decreases i,
{
    if i > 0 {
        lemma_pow128_positive(i - 1);
    }
}

} // verus!
