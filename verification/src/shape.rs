//! Shape descriptions: what the caller expects next in the byte stream.
//!
//! A shape is supplied by the caller and never read from the stream; it
//! plays the role of the target type in a positional wire format.

use vstd::prelude::*;

verus! {

/// A scalar kind, decoded as a fixed-width little-endian field.
///
/// `F64` denotes a 64-bit IEEE-754 value; the decoder hands its raw bit
/// pattern back as a `u64` and leaves the reinterpretation to the caller.
/// `F32` is deliberately unsupported by this decoder and is listed only so
/// that requesting it can be rejected.
#[derive(Clone, Copy, Debug, PartialEq, Eq, Structural)]
pub enum PrimKind {
    I8,
    U8,
    I16,
    U16,
    I32,
    U32,
    I64,
    U64,
    F64,
    Bool,
    Char,
    F32,
}

/// The shape of the value expected next.
///
/// `Composite` is a fixed-arity ordered grouping of sub-shapes (a struct or
/// tuple); `Sequence` is a fixed-length run of one element shape (an array);
/// `Variant` is a tagged union whose one-byte discriminant selects among the
/// listed alternatives.  `Text`, `Blob`, `Optional`, `Mapping` and `Any`
/// name shapes that this decoder deliberately does not support: the wire
/// format gives them no length prefix or delimiter.
#[derive(Debug, PartialEq, Eq)]
pub enum Shape {
    Prim(PrimKind),
    Composite(Vec<Shape>),
    Sequence(Box<Shape>, usize),
    Variant(Vec<Shape>),
    Text,
    Blob,
    Optional,
    Mapping,
    Any,
}

/// The mathematical model of a [`Shape`], used by every contract.
pub enum ShapeModel {
    Prim(PrimKind),
    Composite(Seq<ShapeModel>),
    Sequence(Box<ShapeModel>, nat),
    Variant(Seq<ShapeModel>),
    Text,
    Blob,
    Optional,
    Mapping,
    Any,
}

/// The models of a list of shapes, element by element.
pub open spec fn shape_views(ss: Seq<Shape>) -> Seq<ShapeModel>
    decreases ss,
{
    if ss.len() == 0 {
        Seq::empty()
    } else {
        proof {
            assert(decreases_to!(ss => ss[ss.len() - 1]));
            assert(decreases_to!(ss => ss.subrange(0, ss.len() - 1)));
        }
        shape_views(ss.drop_last()).push(ss.last()@)
    }
}

/// `shape_views` maps element by element.
pub proof fn lemma_shape_views(ss: Seq<Shape>)
    ensures
        shape_views(ss).len() == ss.len(),
        forall|i: int| 0 <= i < ss.len() ==> shape_views(ss)[i] == ss[i]@,
    decreases ss.len(),
{
    if ss.len() > 0 {
        lemma_shape_views(ss.drop_last());
        assert(shape_views(ss) == shape_views(ss.drop_last()).push(ss.last()@));
        assert forall|i: int| 0 <= i < ss.len() implies shape_views(ss)[i] == ss[i]@ by {
            if i < ss.len() - 1 {
                assert(shape_views(ss)[i] == shape_views(ss.drop_last())[i]);
                assert(ss.drop_last()[i] == ss[i]);
            }
        }
    }
}

impl View for Shape {
    type V = ShapeModel;

    open spec fn view(&self) -> ShapeModel
        decreases self,
    {
        match self {
            Shape::Prim(k) => ShapeModel::Prim(*k),
            Shape::Composite(fields) => {
                proof {
                    assert(decreases_to!(*self => *fields));
                    assert(decreases_to!(*fields => fields@));
                }
                ShapeModel::Composite(shape_views(fields@))
            },
            Shape::Sequence(elem, len) => ShapeModel::Sequence(
                Box::new((**elem)@),
                *len as nat,
            ),
            Shape::Variant(alts) => {
                proof {
                    assert(decreases_to!(*self => *alts));
                    assert(decreases_to!(*alts => alts@));
                }
                ShapeModel::Variant(shape_views(alts@))
            },
            Shape::Text => ShapeModel::Text,
            Shape::Blob => ShapeModel::Blob,
            Shape::Optional => ShapeModel::Optional,
            Shape::Mapping => ShapeModel::Mapping,
            Shape::Any => ShapeModel::Any,
        }
    }
}

/// Shapes the decoder rejects outright, before touching the stream:
/// requesting one fails with `NotSupported` and consumes nothing.
pub open spec fn shape_rejected(s: ShapeModel) -> bool {
    match s {
        ShapeModel::Prim(k) => !prim_supported(k),
        ShapeModel::Composite(_) => false,
        ShapeModel::Sequence(_, _) => false,
        ShapeModel::Variant(_) => false,
        ShapeModel::Text => true,
        ShapeModel::Blob => true,
        ShapeModel::Optional => true,
        ShapeModel::Mapping => true,
        ShapeModel::Any => true,
    }
}

/// Whether the decoder supports this scalar kind at all.
pub open spec fn prim_supported(k: PrimKind) -> bool {
    k != PrimKind::F32
}

/// Width in bytes of a supported scalar kind.
pub open spec fn prim_width(k: PrimKind) -> nat {
    match k {
        PrimKind::I8 => 1,
        PrimKind::U8 => 1,
        PrimKind::I16 => 2,
        PrimKind::U16 => 2,
        PrimKind::I32 => 4,
        PrimKind::U32 => 4,
        PrimKind::I64 => 8,
        PrimKind::U64 => 8,
        PrimKind::F64 => 8,
        PrimKind::Bool => 1,
        PrimKind::Char => 1,
        PrimKind::F32 => 0,
    }
}

} // verus!
