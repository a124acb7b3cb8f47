//! General properties of the decoder, stated and proved once for every
//! input.

use vstd::prelude::*;

use crate::decoder::Error;
use crate::decoder::FIRST_TAG;
use crate::decoder::SessionModel;
use crate::decoder::spec_decode;
use crate::decoder::spec_decode_list;
use crate::decoder::spec_decode_repeat;
use crate::shape::PrimKind;
use crate::shape::ShapeModel;
use crate::shape::prim_supported;
use crate::shape::prim_width;
use crate::shape::shape_rejected;
use crate::value::ValueModel;

verus! {

/// Shapes whose byte footprint is the same whatever the input holds:
/// the supported scalars other than booleans (a boolean can fail on a
/// malformed byte before its width is consumed in full), and composites
/// and fixed-length sequences built from such shapes.  Variants are not
/// fixed-width: their footprint depends on the discriminant byte.
pub open spec fn fixed_width_shape(s: ShapeModel) -> bool
    decreases s, 0nat,
{
    match s {
        ShapeModel::Prim(k) => prim_supported(k) && k != PrimKind::Bool,
        ShapeModel::Composite(fields) => fixed_width_list(fields),
        ShapeModel::Sequence(elem, count) => fixed_width_shape(*elem),
        ShapeModel::Variant(alts) => false,
        ShapeModel::Text => false,
        ShapeModel::Blob => false,
        ShapeModel::Optional => false,
        ShapeModel::Mapping => false,
        ShapeModel::Any => false,
    }
}

/// Every shape of the list is fixed-width.
pub open spec fn fixed_width_list(ss: Seq<ShapeModel>) -> bool
    decreases ss, 0nat,
{
    if ss.len() == 0 {
        true
    } else {
        proof {
            assert(decreases_to!(ss => ss[0]));
            assert(decreases_to!(ss => ss.subrange(1, ss.len() as int)));
        }
        fixed_width_shape(ss.first()) && fixed_width_list(ss.drop_first())
    }
}

/// The byte footprint of a fixed-width shape.
pub open spec fn width_of(s: ShapeModel) -> nat
    decreases s, 0nat,
{
    match s {
        ShapeModel::Prim(k) => prim_width(k),
        ShapeModel::Composite(fields) => width_of_list(fields),
        ShapeModel::Sequence(elem, count) => count * width_of(*elem),
        ShapeModel::Variant(alts) => 0,
        ShapeModel::Text => 0,
        ShapeModel::Blob => 0,
        ShapeModel::Optional => 0,
        ShapeModel::Mapping => 0,
        ShapeModel::Any => 0,
    }
}

/// The summed byte footprint of a list of field shapes.
pub open spec fn width_of_list(ss: Seq<ShapeModel>) -> nat
    decreases ss, 0nat,
{
    if ss.len() == 0 {
        0
    } else {
        proof {
            assert(decreases_to!(ss => ss[0]));
            assert(decreases_to!(ss => ss.subrange(1, ss.len() as int)));
        }
        width_of(ss.first()) + width_of_list(ss.drop_first())
    }
}

/// Decoding has no hidden state: what it yields is a function of the
/// shape, the bytes and the offset alone, so two independent sessions
/// over the same bytes yield identical values.
pub proof fn lemma_decode_deterministic(s: ShapeModel, d1: SessionModel, d2: SessionModel)
    requires
        d1.bytes == d2.bytes,
        d1.pos == d2.pos,
    ensures
        spec_decode(s, d1.bytes, d1.pos) == spec_decode(s, d2.bytes, d2.pos),
{
}

proof fn lemma_fixed_width_decode(s: ShapeModel, bytes: Seq<u8>, pos: nat)
    requires
        fixed_width_shape(s),
    ensures
        pos + width_of(s) <= bytes.len() ==> (spec_decode(s, bytes, pos) matches Ok(p)
            && p.1 == width_of(s)),
        pos <= bytes.len() && pos + width_of(s) > bytes.len() ==> spec_decode(s, bytes, pos)
            == Err::<(ValueModel, nat), Error>(Error::TruncatedInput),
    decreases s, 0nat,
{
    match s {
        ShapeModel::Prim(k) => {},
        ShapeModel::Composite(fields) => {
            lemma_fixed_width_decode_list(fields, bytes, pos);
        },
        ShapeModel::Sequence(elem, count) => {
            lemma_fixed_width_decode_repeat(*elem, count, bytes, pos);
        },
        _ => {},
    }
}

proof fn lemma_fixed_width_decode_list(ss: Seq<ShapeModel>, bytes: Seq<u8>, pos: nat)
    requires
        fixed_width_list(ss),
    ensures
        pos + width_of_list(ss) <= bytes.len() ==> (spec_decode_list(ss, bytes, pos) matches
            Ok(p) && p.1 == width_of_list(ss)),
        pos <= bytes.len() && pos + width_of_list(ss) > bytes.len() ==> spec_decode_list(
            ss,
            bytes,
            pos,
        ) == Err::<(Seq<ValueModel>, nat), Error>(Error::TruncatedInput),
    decreases ss, 0nat,
{
    if ss.len() > 0 {
        assert(decreases_to!(ss => ss[0]));
        assert(decreases_to!(ss => ss.subrange(1, ss.len() as int)));
        let w0 = width_of(ss.first());
        lemma_fixed_width_decode(ss.first(), bytes, pos);
        if pos + w0 <= bytes.len() {
            match spec_decode(ss.first(), bytes, pos) {
                Ok(p) => {
                    lemma_fixed_width_decode_list(ss.drop_first(), bytes, pos + w0);
                },
                Err(_) => {},
            }
        }
    }
}

proof fn lemma_fixed_width_decode_repeat(elem: ShapeModel, count: nat, bytes: Seq<u8>, pos: nat)
    requires
        fixed_width_shape(elem),
    ensures
        pos + count * width_of(elem) <= bytes.len() ==> (spec_decode_repeat(
            elem,
            count,
            bytes,
            pos,
        ) matches Ok(p) && p.1 == count * width_of(elem)),
        pos <= bytes.len() && pos + count * width_of(elem) > bytes.len() ==> spec_decode_repeat(
            elem,
            count,
            bytes,
            pos,
        ) == Err::<(Seq<ValueModel>, nat), Error>(Error::TruncatedInput),
    decreases elem, count,
{
    let w = width_of(elem);
    if count > 0 {
        assert(count * w == w + (count - 1) * w) by (nonlinear_arith);
        assert((count - 1) * w >= 0) by (nonlinear_arith)
            requires
                count >= 1,
                w >= 0,
        ;
        lemma_fixed_width_decode(elem, bytes, pos);
        if pos + w <= bytes.len() {
            match spec_decode(elem, bytes, pos) {
                Ok(p) => {
                    lemma_fixed_width_decode_repeat(elem, (count - 1) as nat, bytes, pos + w);
                },
                Err(_) => {},
            }
        }
    } else {
        assert(count * w == 0) by (nonlinear_arith)
            requires
                count == 0,
        ;
    }
}

/// Exact consumption: decoding a fixed-width shape that fits in the
/// remaining bytes succeeds and consumes exactly its width — for a
/// composite, the sum of its fields' widths, in declaration order.
pub proof fn lemma_exact_consumption(s: ShapeModel, bytes: Seq<u8>, pos: nat)
    requires
        fixed_width_shape(s),
        pos + width_of(s) <= bytes.len(),
    ensures
        spec_decode(s, bytes, pos) matches Ok(p) && p.1 == width_of(s),
{
    lemma_fixed_width_decode(s, bytes, pos);
}

/// Truncation detection: when fewer bytes remain than a fixed-width
/// shape requires — one byte less included — decoding yields
/// `TruncatedInput`, never a partial value.
pub proof fn lemma_truncation_detected(s: ShapeModel, bytes: Seq<u8>, pos: nat)
    requires
        fixed_width_shape(s),
        pos <= bytes.len(),
        pos + width_of(s) > bytes.len(),
    ensures
        spec_decode(s, bytes, pos) == Err::<(ValueModel, nat), Error>(Error::TruncatedInput),
{
    lemma_fixed_width_decode(s, bytes, pos);
}

proof fn lemma_consumed_bounds_repeat(elem: ShapeModel, count: nat, bytes: Seq<u8>, pos: nat)
    ensures
        spec_decode_repeat(elem, count, bytes, pos) matches Ok(p) ==> pos + p.1 <= bytes.len()
            || p.1 == 0,
    decreases elem, count,
{
    if count > 0 {
        lemma_consumed_bounds(elem, bytes, pos);
        match spec_decode(elem, bytes, pos) {
            Ok(p) => {
                lemma_consumed_bounds_repeat(elem, (count - 1) as nat, bytes, pos + p.1);
            },
            Err(_) => {},
        }
    }
}

/// The engine consumes only bytes the input holds: a decode that
/// succeeds reading `n` bytes never ran past the end of the source,
/// unless it read nothing at all.
pub proof fn lemma_consumed_bounds(s: ShapeModel, bytes: Seq<u8>, pos: nat)
    ensures
        spec_decode(s, bytes, pos) matches Ok(p) ==> pos + p.1 <= bytes.len() || p.1 == 0,
    decreases s, 0nat,
{
    match s {
        ShapeModel::Prim(k) => {},
        ShapeModel::Composite(fields) => {
            lemma_consumed_bounds_list(fields, bytes, pos);
        },
        ShapeModel::Sequence(elem, count) => {
            lemma_consumed_bounds_repeat(*elem, count, bytes, pos);
        },
        ShapeModel::Variant(alts) => {
            if pos < bytes.len() {
                let tag = bytes[pos as int];
                if FIRST_TAG <= tag && tag - FIRST_TAG < alts.len() {
                    assert(decreases_to!(alts => alts[tag - FIRST_TAG]));
                    lemma_consumed_bounds(alts[tag - FIRST_TAG], bytes, (pos + 1) as nat);
                }
            }
        },
        _ => {},
    }
}

proof fn lemma_consumed_bounds_list(ss: Seq<ShapeModel>, bytes: Seq<u8>, pos: nat)
    ensures
        spec_decode_list(ss, bytes, pos) matches Ok(p) ==> pos + p.1 <= bytes.len() || p.1
            == 0,
    decreases ss, 0nat,
{
    if ss.len() > 0 {
        assert(decreases_to!(ss => ss[0]));
        assert(decreases_to!(ss => ss.subrange(1, ss.len() as int)));
        lemma_consumed_bounds(ss.first(), bytes, pos);
        match spec_decode(ss.first(), bytes, pos) {
            Ok(p) => {
                lemma_consumed_bounds_list(ss.drop_first(), bytes, pos + p.1);
            },
            Err(_) => {},
        }
    }
}

/// Two byte sources agree on the `n` bytes at `pos`: both hold them,
/// and hold them equal.
pub open spec fn agree(b1: Seq<u8>, b2: Seq<u8>, pos: nat, n: nat) -> bool {
    &&& pos + n <= b1.len()
    &&& pos + n <= b2.len()
    &&& b1.subrange(pos as int, (pos + n) as int) == b2.subrange(pos as int, (pos + n) as int)
}

proof fn lemma_agree_index(b1: Seq<u8>, b2: Seq<u8>, pos: nat, n: nat, k: int)
    requires
        agree(b1, b2, pos, n),
        pos <= k < pos + n,
    ensures
        b1[k] == b2[k],
{
    assert(b1[k] == b1.subrange(pos as int, (pos + n) as int)[k - pos]);
    assert(b2[k] == b2.subrange(pos as int, (pos + n) as int)[k - pos]);
}

proof fn lemma_agree_sub(b1: Seq<u8>, b2: Seq<u8>, pos: nat, n: nat, p: nat, m: nat)
    requires
        agree(b1, b2, pos, n),
        pos <= p,
        p + m <= pos + n,
    ensures
        agree(b1, b2, p, m),
{
    assert forall|i: int| 0 <= i < m implies #[trigger] b1.subrange(p as int, (p + m) as int)[i]
        == b2.subrange(p as int, (p + m) as int)[i] by {
        lemma_agree_index(b1, b2, pos, n, p + i);
        assert(b1.subrange(p as int, (p + m) as int)[i] == b1[p + i]);
        assert(b2.subrange(p as int, (p + m) as int)[i] == b2[p + i]);
    }
    assert(b1.subrange(p as int, (p + m) as int) =~= b2.subrange(p as int, (p + m) as int));
}

/// The engine never inspects bytes beyond those the shape requires: a
/// decode that succeeds after reading `n` bytes yields the same value
/// and count over any source that carries the same `n` bytes at `pos`
/// — whatever lies past them.
pub proof fn lemma_no_lookahead(s: ShapeModel, b1: Seq<u8>, b2: Seq<u8>, pos: nat, n: nat)
    requires
        spec_decode(s, b1, pos) matches Ok(p) && p.1 == n,
        agree(b1, b2, pos, n),
    ensures
        spec_decode(s, b2, pos) == spec_decode(s, b1, pos),
    decreases s, 0nat,
{
    match s {
        ShapeModel::Prim(k) => {
            assert forall|j: int| pos <= j < pos + prim_width(k) implies b1[j] == b2[j] by {
                lemma_agree_index(b1, b2, pos, n, j);
            }
            crate::codec::lemma_le_val_agree(b1, b2, pos, prim_width(k));
        },
        ShapeModel::Composite(fields) => {
            match spec_decode_list(fields, b1, pos) {
                Ok(p) => {
                    assert(p.1 == n);
                    lemma_no_lookahead_list(fields, b1, b2, pos, p.1);
                },
                Err(_) => {},
            }
        },
        ShapeModel::Sequence(elem, count) => {
            match spec_decode_repeat(*elem, count, b1, pos) {
                Ok(p) => {
                    assert(p.1 == n);
                    lemma_no_lookahead_repeat(*elem, count, b1, b2, pos, p.1);
                },
                Err(_) => {},
            }
        },
        ShapeModel::Variant(alts) => {
            let tag = b1[pos as int];
            lemma_agree_index(b1, b2, pos, n, pos as int);
            assert(b2[pos as int] == tag);
            if FIRST_TAG <= tag && tag - FIRST_TAG < alts.len() {
                assert(decreases_to!(alts => alts[tag - FIRST_TAG]));
                match spec_decode(alts[tag - FIRST_TAG], b1, (pos + 1) as nat) {
                    Ok(p2) => {
                        assert(n == 1 + p2.1);
                        lemma_agree_sub(b1, b2, pos, n, (pos + 1) as nat, p2.1);
                        lemma_no_lookahead(
                            alts[tag - FIRST_TAG],
                            b1,
                            b2,
                            (pos + 1) as nat,
                            p2.1,
                        );
                    },
                    Err(_) => {},
                }
            }
        },
        _ => {},
    }
}

proof fn lemma_no_lookahead_list(ss: Seq<ShapeModel>, b1: Seq<u8>, b2: Seq<u8>, pos: nat, n: nat)
    requires
        spec_decode_list(ss, b1, pos) matches Ok(p) && p.1 == n,
        agree(b1, b2, pos, n),
    ensures
        spec_decode_list(ss, b2, pos) == spec_decode_list(ss, b1, pos),
    decreases ss, 0nat,
{
    if ss.len() > 0 {
        assert(decreases_to!(ss => ss[0]));
        assert(decreases_to!(ss => ss.subrange(1, ss.len() as int)));
        match spec_decode(ss.first(), b1, pos) {
            Ok(p0) => {
                match spec_decode_list(ss.drop_first(), b1, pos + p0.1) {
                    Ok(pr) => {
                        assert(n == p0.1 + pr.1);
                        lemma_agree_sub(b1, b2, pos, n, pos, p0.1);
                        lemma_no_lookahead(ss.first(), b1, b2, pos, p0.1);
                        lemma_agree_sub(b1, b2, pos, n, pos + p0.1, pr.1);
                        lemma_no_lookahead_list(ss.drop_first(), b1, b2, pos + p0.1, pr.1);
                    },
                    Err(_) => {},
                }
            },
            Err(_) => {},
        }
    }
}

proof fn lemma_no_lookahead_repeat(
    elem: ShapeModel,
    count: nat,
    b1: Seq<u8>,
    b2: Seq<u8>,
    pos: nat,
    n: nat,
)
    requires
        spec_decode_repeat(elem, count, b1, pos) matches Ok(p) && p.1 == n,
        agree(b1, b2, pos, n),
    ensures
        spec_decode_repeat(elem, count, b2, pos) == spec_decode_repeat(elem, count, b1, pos),
    decreases elem, count,
{
    if count > 0 {
        match spec_decode(elem, b1, pos) {
            Ok(p0) => {
                match spec_decode_repeat(elem, (count - 1) as nat, b1, pos + p0.1) {
                    Ok(pr) => {
                        assert(n == p0.1 + pr.1);
                        lemma_agree_sub(b1, b2, pos, n, pos, p0.1);
                        lemma_no_lookahead(elem, b1, b2, pos, p0.1);
                        lemma_agree_sub(b1, b2, pos, n, pos + p0.1, pr.1);
                        lemma_no_lookahead_repeat(
                            elem,
                            (count - 1) as nat,
                            b1,
                            b2,
                            pos + p0.1,
                            pr.1,
                        );
                    },
                    Err(_) => {},
                }
            },
            Err(_) => {},
        }
    }
}

/// Variant tag mapping: the discriminant byte `FIRST_TAG + i` selects
/// alternative `i`, whose payload then decodes just past the tag byte.
pub proof fn lemma_variant_tag_mapping(alts: Seq<ShapeModel>, bytes: Seq<u8>, pos: nat, i: nat)
    requires
        pos < bytes.len(),
        i < alts.len(),
        bytes[pos as int] == FIRST_TAG + i,
    ensures
        spec_decode(ShapeModel::Variant(alts), bytes, pos) == (match spec_decode(
            alts[i as int],
            bytes,
            (pos + 1) as nat,
        ) {
            Ok(p) => Ok::<(ValueModel, nat), Error>(
                (ValueModel::Variant(i, Box::new(p.0)), (1 + p.1) as nat),
            ),
            Err(e) => Err::<(ValueModel, nat), Error>(e),
        }),
{
}

/// A value has the structure its shape announces: scalars carry the
/// matching scalar kind; a composite carries one value per declared
/// field, each conforming in order; a sequence carries exactly its
/// declared count of conforming elements; a variant carries an index
/// within the declared alternatives and a payload conforming to the
/// alternative it names.
pub open spec fn conforms(s: ShapeModel, v: ValueModel) -> bool
    decreases s, 0nat,
{
    match s {
        ShapeModel::Prim(k) => match k {
            PrimKind::I8 => v is I8,
            PrimKind::U8 => v is U8,
            PrimKind::I16 => v is I16,
            PrimKind::U16 => v is U16,
            PrimKind::I32 => v is I32,
            PrimKind::U32 => v is U32,
            PrimKind::I64 => v is I64,
            PrimKind::U64 => v is U64,
            PrimKind::F64 => v is F64Bits,
            PrimKind::Bool => v is Bool,
            PrimKind::Char => v is Char,
            PrimKind::F32 => false,
        },
        ShapeModel::Composite(fields) => v matches ValueModel::Composite(vs)
            && conforms_list(fields, vs),
        ShapeModel::Sequence(elem, count) => v matches ValueModel::Sequence(vs) && vs.len()
            == count && conforms_repeat(*elem, vs),
        ShapeModel::Variant(alts) => v matches ValueModel::Variant(i, payload) && i
            < alts.len() && {
            proof {
                assert(decreases_to!(alts => alts[i as int]));
            }
            conforms(alts[i as int], *payload)
        },
        ShapeModel::Text => false,
        ShapeModel::Blob => false,
        ShapeModel::Optional => false,
        ShapeModel::Mapping => false,
        ShapeModel::Any => false,
    }
}

/// One conforming value per declared field, in order.
pub open spec fn conforms_list(ss: Seq<ShapeModel>, vs: Seq<ValueModel>) -> bool
    decreases ss, 0nat,
{
    if ss.len() == 0 {
        vs.len() == 0
    } else {
        proof {
            assert(decreases_to!(ss => ss[0]));
            assert(decreases_to!(ss => ss.subrange(1, ss.len() as int)));
        }
        vs.len() == ss.len() && conforms(ss.first(), vs.first()) && conforms_list(
            ss.drop_first(),
            vs.drop_first(),
        )
    }
}

/// Every element conforms to the sequence's one element shape.
pub open spec fn conforms_repeat(elem: ShapeModel, vs: Seq<ValueModel>) -> bool
    decreases elem, vs.len(),
{
    vs.len() == 0 || (conforms(elem, vs.first()) && conforms_repeat(elem, vs.drop_first()))
}

/// Decoding is well-typed: a value the decoder produces conforms to the
/// shape that was requested.
pub proof fn lemma_decoded_value_conforms(s: ShapeModel, bytes: Seq<u8>, pos: nat)
    ensures
        spec_decode(s, bytes, pos) matches Ok(p) ==> conforms(s, p.0),
    decreases s, 0nat,
{
    match s {
        ShapeModel::Prim(k) => {},
        ShapeModel::Composite(fields) => {
            lemma_decoded_list_conforms(fields, bytes, pos);
        },
        ShapeModel::Sequence(elem, count) => {
            lemma_decoded_repeat_conforms(*elem, count, bytes, pos);
        },
        ShapeModel::Variant(alts) => {
            if pos < bytes.len() {
                let tag = bytes[pos as int];
                if FIRST_TAG <= tag && tag - FIRST_TAG < alts.len() {
                    assert(decreases_to!(alts => alts[tag - FIRST_TAG]));
                    lemma_decoded_value_conforms(alts[tag - FIRST_TAG], bytes, (pos + 1) as nat);
                }
            }
        },
        _ => {},
    }
}

proof fn lemma_decoded_list_conforms(ss: Seq<ShapeModel>, bytes: Seq<u8>, pos: nat)
    ensures
        spec_decode_list(ss, bytes, pos) matches Ok(p) ==> conforms_list(ss, p.0),
    decreases ss, 0nat,
{
    if ss.len() > 0 {
        assert(decreases_to!(ss => ss[0]));
        assert(decreases_to!(ss => ss.subrange(1, ss.len() as int)));
        lemma_decoded_value_conforms(ss.first(), bytes, pos);
        match spec_decode(ss.first(), bytes, pos) {
            Ok(p0) => {
                lemma_decoded_list_conforms(ss.drop_first(), bytes, pos + p0.1);
                match spec_decode_list(ss.drop_first(), bytes, pos + p0.1) {
                    Ok(pr) => {
                        assert((seq![p0.0] + pr.0).first() == p0.0);
                        assert((seq![p0.0] + pr.0).drop_first() =~= pr.0);
                    },
                    Err(_) => {},
                }
            },
            Err(_) => {},
        }
    }
}

proof fn lemma_decoded_repeat_conforms(elem: ShapeModel, count: nat, bytes: Seq<u8>, pos: nat)
    ensures
        spec_decode_repeat(elem, count, bytes, pos) matches Ok(p) ==> p.0.len() == count
            && conforms_repeat(elem, p.0),
    decreases elem, count,
{
    if count > 0 {
        lemma_decoded_value_conforms(elem, bytes, pos);
        match spec_decode(elem, bytes, pos) {
            Ok(p0) => {
                lemma_decoded_repeat_conforms(elem, (count - 1) as nat, bytes, pos + p0.1);
                match spec_decode_repeat(elem, (count - 1) as nat, bytes, pos + p0.1) {
                    Ok(pr) => {
                        assert((seq![p0.0] + pr.0).first() == p0.0);
                        assert((seq![p0.0] + pr.0).drop_first() =~= pr.0);
                    },
                    Err(_) => {},
                }
            },
            Err(_) => {},
        }
    }
}

/// Unsupported-shape rejection: a shape the decoder rejects outright
/// fails with `NotSupported`, whatever the bytes and the offset hold.
pub proof fn lemma_unsupported_rejected(s: ShapeModel, bytes: Seq<u8>, pos: nat)
    requires
        shape_rejected(s),
    ensures
        spec_decode(s, bytes, pos) == Err::<(ValueModel, nat), Error>(Error::NotSupported),
{
}

} // verus!

