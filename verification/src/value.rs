//! Decoded values: the typed result of one decode request.

use vstd::prelude::*;

verus! {

/// A decoded value, mirroring the [`crate::shape::Shape`] that produced it.
///
/// A 64-bit float field is carried as its raw little-endian bit pattern in
/// `F64Bits`; the caller reinterprets it.  A `Char` is a single byte read
/// from the stream, viewed as a Latin-1/ASCII code point.  A `Variant`
/// carries the zero-based index of the alternative that its discriminant
/// byte selected, together with that alternative's decoded payload.
#[derive(Debug, PartialEq, Eq)]
pub enum Value {
    Bool(bool),
    I8(i8),
    U8(u8),
    I16(i16),
    U16(u16),
    I32(i32),
    U32(u32),
    I64(i64),
    U64(u64),
    F64Bits(u64),
    Char(char),
    Composite(Vec<Value>),
    Sequence(Vec<Value>),
    Variant(usize, Box<Value>),
}

/// The mathematical model of a [`Value`], used by every contract.
pub enum ValueModel {
    Bool(bool),
    I8(i8),
    U8(u8),
    I16(i16),
    U16(u16),
    I32(i32),
    U32(u32),
    I64(i64),
    U64(u64),
    F64Bits(u64),
    Char(char),
    Composite(Seq<ValueModel>),
    Sequence(Seq<ValueModel>),
    Variant(nat, Box<ValueModel>),
}

/// The models of a list of values, element by element.
pub open spec fn value_views(vs: Seq<Value>) -> Seq<ValueModel>
    decreases vs,
{
    if vs.len() == 0 {
        Seq::empty()
    } else {
        proof {
            assert(decreases_to!(vs => vs[vs.len() - 1]));
            assert(decreases_to!(vs => vs.subrange(0, vs.len() - 1)));
        }
        value_views(vs.drop_last()).push(vs.last()@)
    }
}

/// Appending one value appends its model.
pub proof fn lemma_value_views_push(vs: Seq<Value>, v: Value)
    ensures
        value_views(vs.push(v)) == value_views(vs).push(v@),
{
    assert(vs.push(v).drop_last() =~= vs);
    assert(vs.push(v).last() == v);
}

impl View for Value {
    type V = ValueModel;

    open spec fn view(&self) -> ValueModel
        decreases self,
    {
        match self {
            Value::Bool(b) => ValueModel::Bool(*b),
            Value::I8(v) => ValueModel::I8(*v),
            Value::U8(v) => ValueModel::U8(*v),
            Value::I16(v) => ValueModel::I16(*v),
            Value::U16(v) => ValueModel::U16(*v),
            Value::I32(v) => ValueModel::I32(*v),
            Value::U32(v) => ValueModel::U32(*v),
            Value::I64(v) => ValueModel::I64(*v),
            Value::U64(v) => ValueModel::U64(*v),
            Value::F64Bits(v) => ValueModel::F64Bits(*v),
            Value::Char(c) => ValueModel::Char(*c),
            Value::Composite(vs) => {
                proof {
                    assert(decreases_to!(*self => *vs));
                    assert(decreases_to!(*vs => vs@));
                }
                ValueModel::Composite(value_views(vs@))
            },
            Value::Sequence(vs) => {
                proof {
                    assert(decreases_to!(*self => *vs));
                    assert(decreases_to!(*vs => vs@));
                }
                ValueModel::Sequence(value_views(vs@))
            },
            Value::Variant(idx, payload) => ValueModel::Variant(
                *idx as nat,
                Box::new((**payload)@),
            ),
        }
    }
}

} // verus!
