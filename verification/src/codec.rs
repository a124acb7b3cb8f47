//! The primitive codec: every scalar kind is a fixed-width little-endian
//! field, and this module says exactly what value those bytes denote.

use vstd::prelude::*;

use crate::decoder::Error;
use crate::shape::PrimKind;
use crate::shape::prim_supported;
use crate::shape::prim_width;
use crate::value::ValueModel;

verus! {

/// 256 to the power `n`: the place value of byte `n` of a little-endian field.
pub open spec fn pow256(n: nat) -> nat
    decreases n,
{
    if n == 0 {
        1
    } else {
        256 * pow256((n - 1) as nat)
    }
}

/// The unsigned value of the `width` bytes of `bytes` starting at `pos`,
/// read little-endian: the byte at `pos` is the least significant.
pub open spec fn le_val(bytes: Seq<u8>, pos: nat, width: nat) -> nat
    decreases width,
{
    if width == 0 {
        0
    } else {
        (le_val(bytes, pos, (width - 1) as nat) + pow256((width - 1) as nat) * bytes[pos + width
            - 1]) as nat
    }
}

/// Two's-complement reading of an unsigned value; `half` is the smallest
/// value whose sign bit is set (`0x80` for 8 bits, `0x8000` for 16, and
/// so on).
pub open spec fn sign_extend(n: nat, half: nat) -> int {
    if n >= half {
        n - 2 * half
    } else {
        n as int
    }
}

/// A little-endian field of `width` bytes is below `pow256(width)`.
pub proof fn lemma_le_val_bound(bytes: Seq<u8>, pos: nat, width: nat)
    ensures
        le_val(bytes, pos, width) < pow256(width),
    decreases width,
{
    if width > 0 {
        lemma_le_val_bound(bytes, pos, (width - 1) as nat);
        let p = pow256((width - 1) as nat);
        let b = bytes[pos + width - 1];
        assert(p * b <= p * 255) by (nonlinear_arith)
            requires
                b <= 255,
                p >= 0,
        ;
    }
}

/// The place value just past the widest supported field: one more than
/// the largest value eight bytes can carry.
pub proof fn lemma_pow256_eight()
    ensures
        pow256(8nat) == 0x1_0000_0000_0000_0000,
{
    reveal_with_fuel(pow256, 9);
}

/// The place values of the supported field widths.
pub proof fn lemma_pow256_values()
    ensures
        pow256(0nat) == 1,
        pow256(1nat) == 0x100,
        pow256(2nat) == 0x1_0000,
        pow256(4nat) == 0x1_0000_0000,
        pow256(8nat) == 0x1_0000_0000_0000_0000,
{
    reveal_with_fuel(pow256, 9);
}

/// A single-byte field is the byte itself.
pub proof fn lemma_le_val_one(bytes: Seq<u8>, pos: nat)
    ensures
        le_val(bytes, pos, 1) == bytes[pos as int],
{
    assert(le_val(bytes, pos, 0) == 0);
    assert(pow256(0nat) == 1);
    assert(le_val(bytes, pos, 1) == (le_val(bytes, pos, 0) + pow256(0nat) * bytes[pos + 1
        - 1]) as nat);
}

/// `pow256` is monotone in its exponent.
pub proof fn lemma_pow256_mono(m: nat, n: nat)
    requires
        m <= n,
    ensures
        pow256(m) <= pow256(n),
    decreases n,
{
    if m < n {
        lemma_pow256_mono(m, (n - 1) as nat);
        assert(pow256(n) == 256 * pow256((n - 1) as nat));
    }
}

/// Two sources that agree on a field's bytes give it the same value.
pub proof fn lemma_le_val_agree(b1: Seq<u8>, b2: Seq<u8>, pos: nat, width: nat)
    requires
        forall|k: int| pos <= k < pos + width ==> b1[k] == b2[k],
    ensures
        le_val(b1, pos, width) == le_val(b2, pos, width),
    decreases width,
{
    if width > 0 {
        lemma_le_val_agree(b1, b2, pos, (width - 1) as nat);
    }
}

/// What decoding one scalar of kind `k` at `pos` yields: the bytes the
/// kind's width implies, read little-endian, and the count consumed; or
/// the fault.  A malformed boolean byte is reported as a structured
/// `InvalidBool` error, never as a process fault.
pub open spec fn spec_decode_prim(k: PrimKind, bytes: Seq<u8>, pos: nat) -> Result<
    (ValueModel, nat),
    Error,
> {
    if !prim_supported(k) {
        Err(Error::NotSupported)
    } else if pos + prim_width(k) > bytes.len() {
        Err(Error::TruncatedInput)
    } else {
        let n = le_val(bytes, pos, prim_width(k));
        let w = prim_width(k);
        match k {
            PrimKind::I8 => Ok((ValueModel::I8(sign_extend(n, 0x80) as i8), w)),
            PrimKind::U8 => Ok((ValueModel::U8(n as u8), w)),
            PrimKind::I16 => Ok((ValueModel::I16(sign_extend(n, 0x8000) as i16), w)),
            PrimKind::U16 => Ok((ValueModel::U16(n as u16), w)),
            PrimKind::I32 => Ok((ValueModel::I32(sign_extend(n, 0x8000_0000) as i32), w)),
            PrimKind::U32 => Ok((ValueModel::U32(n as u32), w)),
            PrimKind::I64 => Ok(
                (ValueModel::I64(sign_extend(n, 0x8000_0000_0000_0000) as i64), w),
            ),
            PrimKind::U64 => Ok((ValueModel::U64(n as u64), w)),
            PrimKind::F64 => Ok((ValueModel::F64Bits(n as u64), w)),
            PrimKind::Bool => if n == 0 {
                Ok((ValueModel::Bool(false), w))
            } else if n == 1 {
                Ok((ValueModel::Bool(true), w))
            } else {
                Err(Error::InvalidBool)
            },
            PrimKind::Char => Ok((ValueModel::Char((n as u8) as char), w)),
            PrimKind::F32 => Err(Error::NotSupported),
        }
    }
}

} // verus!
