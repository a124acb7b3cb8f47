//! The decode session: a cursor over one byte source and the decoder
//! that walks a shape over it.

use vstd::prelude::*;

use crate::codec::le_val;
use crate::codec::lemma_le_val_bound;
use crate::codec::pow256;
use crate::codec::spec_decode_prim;
use crate::shape::PrimKind;
use crate::shape::Shape;
use crate::shape::ShapeModel;
use crate::shape::shape_rejected;
use crate::shape::shape_views;
use crate::value::Value;
use crate::value::ValueModel;
use crate::value::value_views;

verus! {

/// Decode faults.
///
/// `TruncatedInput`: fewer bytes remain than the current leaf requires.
/// `NotSupported`: the caller requested a shape this decoder deliberately
/// does not implement.  `InvalidBool` and `InvalidTag` report malformed
/// input bytes; they are structured errors rather than panics, so that a
/// decoder facing untrusted input never aborts the process.
#[derive(Clone, Copy, Debug, PartialEq, Eq, Structural)]
pub enum Error {
    TruncatedInput,
    NotSupported,
    InvalidBool,
    InvalidTag,
}

/// The discriminant byte that selects a variant's first alternative:
/// ASCII `'1'`.  Alternative `i` is tagged `FIRST_TAG + i`.
pub const FIRST_TAG: u8 = 0x31;

/// What decoding a value of shape `s` from `bytes` at `pos` yields: the
/// decoded value and the count of bytes consumed, or the fault.  This is
/// the whole decoder in one spec function; the executable decoder is
/// proved to return exactly this.
pub open spec fn spec_decode(s: ShapeModel, bytes: Seq<u8>, pos: nat) -> Result<
    (ValueModel, nat),
    Error,
>
    decreases s, 0nat,
{
    match s {
        ShapeModel::Prim(k) => spec_decode_prim(k, bytes, pos),
        ShapeModel::Composite(fields) => match spec_decode_list(fields, bytes, pos) {
            Ok((vs, n)) => Ok((ValueModel::Composite(vs), n)),
            Err(e) => Err(e),
        },
        ShapeModel::Sequence(elem, count) => match spec_decode_repeat(
            *elem,
            count,
            bytes,
            pos,
        ) {
            Ok((vs, n)) => Ok((ValueModel::Sequence(vs), n)),
            Err(e) => Err(e),
        },
        ShapeModel::Variant(alts) => spec_decode_variant(alts, bytes, pos),
        ShapeModel::Text => Err(Error::NotSupported),
        ShapeModel::Blob => Err(Error::NotSupported),
        ShapeModel::Optional => Err(Error::NotSupported),
        ShapeModel::Mapping => Err(Error::NotSupported),
        ShapeModel::Any => Err(Error::NotSupported),
    }
}

/// Decodes the fields of a composite, first field first, each at the
/// position where the previous one stopped.
pub open spec fn spec_decode_list(ss: Seq<ShapeModel>, bytes: Seq<u8>, pos: nat) -> Result<
    (Seq<ValueModel>, nat),
    Error,
>
    decreases ss, 0nat,
{
    if ss.len() == 0 {
        Ok((Seq::empty(), 0))
    } else {
        proof {
            assert(decreases_to!(ss => ss[0]));
            assert(decreases_to!(ss => ss.subrange(1, ss.len() as int)));
        }
        match spec_decode(ss.first(), bytes, pos) {
            Ok((v, n)) => match spec_decode_list(ss.drop_first(), bytes, (pos + n) as nat) {
                Ok((vs, m)) => Ok((seq![v] + vs, (n + m) as nat)),
                Err(e) => Err(e),
            },
            Err(e) => Err(e),
        }
    }
}

/// Decodes a fixed-length sequence: `count` elements of one shape.
pub open spec fn spec_decode_repeat(
    elem: ShapeModel,
    count: nat,
    bytes: Seq<u8>,
    pos: nat,
) -> Result<(Seq<ValueModel>, nat), Error>
    decreases elem, count,
{
    if count == 0 {
        Ok((Seq::empty(), 0))
    } else {
        match spec_decode(elem, bytes, pos) {
            Ok((v, n)) => match spec_decode_repeat(
                elem,
                (count - 1) as nat,
                bytes,
                (pos + n) as nat,
            ) {
                Ok((vs, m)) => Ok((seq![v] + vs, (n + m) as nat)),
                Err(e) => Err(e),
            },
            Err(e) => Err(e),
        }
    }
}

/// Decodes a tagged union: one discriminant byte, mapped to a zero-based
/// alternative index by `index = tag - FIRST_TAG`, then that alternative's
/// payload.  A tag outside the declared alternatives is the structured
/// fault `InvalidTag`, never a process abort.
pub open spec fn spec_decode_variant(alts: Seq<ShapeModel>, bytes: Seq<u8>, pos: nat) -> Result<
    (ValueModel, nat),
    Error,
>
    decreases alts, 1nat,
{
    if pos >= bytes.len() {
        Err(Error::TruncatedInput)
    } else {
        let tag = bytes[pos as int];
        if tag < FIRST_TAG || tag - FIRST_TAG >= alts.len() {
            Err(Error::InvalidTag)
        } else {
            let idx = tag - FIRST_TAG;
            proof {
                assert(decreases_to!(alts => alts[idx]));
            }
            match spec_decode(alts[idx], bytes, (pos + 1) as nat) {
                Ok((v, n)) => Ok(
                    (ValueModel::Variant(idx as nat, Box::new(v)), (1 + n) as nat),
                ),
                Err(e) => Err(e),
            }
        }
    }
}

/// Maps a discriminant byte to the zero-based index of the alternative
/// it selects, among `alternatives` declared ones: `tag - FIRST_TAG`.
/// A byte below `FIRST_TAG`, or one selecting past the declared set, is
/// the structured fault `InvalidTag`.
pub fn tag_index(tag: u8, alternatives: usize) -> (r: Result<usize, Error>)
    ensures
        tag >= FIRST_TAG && tag - FIRST_TAG < alternatives ==> r == Ok::<usize, Error>(
            (tag - FIRST_TAG) as usize,
        ),
        tag < FIRST_TAG || tag - FIRST_TAG >= alternatives ==> r == Err::<usize, Error>(
            Error::InvalidTag,
        ),
{
    if tag >= FIRST_TAG && ((tag - FIRST_TAG) as usize) < alternatives {
        Ok((tag - FIRST_TAG) as usize)
    } else {
        Err(Error::InvalidTag)
    }
}

/// Model of one decode session: the whole input and the read offset.
pub struct SessionModel {
    pub bytes: Seq<u8>,
    pub pos: nat,
}

/// One decode session: a decoder bound to one byte source, consuming it
/// monotonically, never rewinding.
pub struct SbeDeser {
    bytes: Vec<u8>,
    pos: usize,
}

impl View for SbeDeser {
    type V = SessionModel;

    closed spec fn view(&self) -> SessionModel {
        SessionModel { bytes: self.bytes@, pos: self.pos as nat }
    }
}

impl SbeDeser {
    /// Binds a new session to a byte source, positioned at its start.
    pub fn from_reader(bytes: Vec<u8>) -> (r: SbeDeser)
        ensures
            r@.bytes == bytes@,
            r@.pos == 0,
    {
        SbeDeser { bytes, pos: 0 }
    }

    /// The current read offset, in bytes from the start of the source.
    pub fn position(&self) -> (r: usize)
        ensures
            r == self@.pos,
    {
        self.pos
    }

    /// Reads the next byte and advances past it, or reports truncation.
    fn take_byte(&mut self) -> (r: Result<u8, Error>)
        ensures
            final(self)@.bytes == old(self)@.bytes,
            old(self)@.pos < old(self)@.bytes.len() ==> r == Ok::<u8, Error>(
                old(self)@.bytes[old(self)@.pos as int],
            ) && final(self)@.pos == old(self)@.pos + 1,
            old(self)@.pos >= old(self)@.bytes.len() ==> r == Err::<u8, Error>(
                Error::TruncatedInput,
            ) && final(self)@.pos == old(self)@.pos,
    {
        if self.pos < self.bytes.len() {
            let b = self.bytes[self.pos];
            self.pos = self.pos + 1;
            Ok(b)
        } else {
            Err(Error::TruncatedInput)
        }
    }

    /// Reads a `width`-byte little-endian unsigned field.
    fn read_le(&mut self, width: usize) -> (r: Result<u64, Error>)
        requires
            1 <= width <= 8,
        ensures
            final(self)@.bytes == old(self)@.bytes,
            old(self)@.pos + width <= old(self)@.bytes.len() ==> r == Ok::<u64, Error>(
                le_val(old(self)@.bytes, old(self)@.pos, width as nat) as u64,
            ) && final(self)@.pos == old(self)@.pos + width,
            old(self)@.pos + width > old(self)@.bytes.len() ==> r == Err::<u64, Error>(
                Error::TruncatedInput,
            ) && final(self)@.pos == old(self)@.pos,
    {
        let ghost bytes0 = self@.bytes;
        let ghost pos0 = self@.pos;
        if self.pos > self.bytes.len() || width > self.bytes.len() - self.pos {
            return Err(Error::TruncatedInput);
        }
        let mut acc: u128 = 0;
        let mut factor: u128 = 1;
        let mut j: usize = 0;
        while j < width
            invariant
                j <= width <= 8,
                self@.bytes == bytes0,
                self@.pos == pos0 + j,
                pos0 + width <= bytes0.len(),
                factor == pow256(j as nat),
                acc == le_val(bytes0, pos0, j as nat),
            decreases width - j,
        {
            proof {
                lemma_le_val_bound(bytes0, pos0, j as nat);
                assert(pow256((j + 1) as nat) == 256 * pow256(j as nat));
                crate::codec::lemma_pow256_eight();
                crate::codec::lemma_pow256_mono(0nat, j as nat);
                crate::codec::lemma_pow256_mono((j + 1) as nat, 8nat);
            }
            let b = self.take_byte().unwrap();
            proof {
                let p = pow256(j as nat);
                assert(acc + (b as u128) * factor < 0x1_0000_0000_0000_0000) by (nonlinear_arith)
                    requires
                        acc < p,
                        b <= 255,
                        factor == p,
                        256 * p <= 0x1_0000_0000_0000_0000,
                ;
                assert((b as u128) * factor == p * b) by (nonlinear_arith)
                    requires
                        factor == p,
                ;
            }
            acc = acc + (b as u128) * factor;
            factor = factor * 256;
            j = j + 1;
        }
        proof {
            lemma_le_val_bound(bytes0, pos0, width as nat);
            crate::codec::lemma_pow256_eight();
            crate::codec::lemma_pow256_mono(width as nat, 8nat);
        }
        Ok(acc as u64)
    }

    /// Decodes one scalar leaf of kind `k`, as the primitive codec says.
    fn decode_prim(&mut self, k: PrimKind) -> (r: Result<Value, Error>)
        ensures
            final(self)@.bytes == old(self)@.bytes,
            old(self)@.pos <= final(self)@.pos,
            match spec_decode_prim(k, old(self)@.bytes, old(self)@.pos) {
                Ok(p) => r matches Ok(v) && v@ == p.0 && final(self)@.pos == old(self)@.pos
                    + p.1,
                Err(e) => r matches Err(f) && f == e,
            },
            k == PrimKind::F32 ==> final(self)@.pos == old(self)@.pos,
    {
        let ghost bytes0 = self@.bytes;
        let ghost pos0 = self@.pos;
        proof {
            crate::codec::lemma_pow256_values();
            crate::codec::lemma_le_val_one(bytes0, pos0);
            lemma_le_val_bound(bytes0, pos0, 2nat);
            lemma_le_val_bound(bytes0, pos0, 4nat);
            lemma_le_val_bound(bytes0, pos0, 8nat);
        }
        match k {
            PrimKind::F32 => Err(Error::NotSupported),
            PrimKind::U8 => match self.take_byte() {
                Ok(b) => Ok(Value::U8(b)),
                Err(e) => Err(e),
            },
            PrimKind::I8 => match self.take_byte() {
                Ok(b) => if b < 0x80 {
                    Ok(Value::I8(b as i8))
                } else {
                    Ok(Value::I8(((b as i16) - 0x100) as i8))
                },
                Err(e) => Err(e),
            },
            PrimKind::Bool => match self.take_byte() {
                Ok(0) => Ok(Value::Bool(false)),
                Ok(1) => Ok(Value::Bool(true)),
                Ok(_) => Err(Error::InvalidBool),
                Err(e) => Err(e),
            },
            PrimKind::Char => match self.take_byte() {
                Ok(b) => Ok(Value::Char(b as char)),
                Err(e) => Err(e),
            },
            PrimKind::U16 => match self.read_le(2) {
                Ok(v) => Ok(Value::U16(v as u16)),
                Err(e) => Err(e),
            },
            PrimKind::I16 => match self.read_le(2) {
                Ok(v) => if v < 0x8000 {
                    Ok(Value::I16(v as i16))
                } else {
                    Ok(Value::I16(((v as i32) - 0x1_0000) as i16))
                },
                Err(e) => Err(e),
            },
            PrimKind::U32 => match self.read_le(4) {
                Ok(v) => Ok(Value::U32(v as u32)),
                Err(e) => Err(e),
            },
            PrimKind::I32 => match self.read_le(4) {
                Ok(v) => if v < 0x8000_0000 {
                    Ok(Value::I32(v as i32))
                } else {
                    Ok(Value::I32(((v as i64) - 0x1_0000_0000) as i32))
                },
                Err(e) => Err(e),
            },
            PrimKind::U64 => match self.read_le(8) {
                Ok(v) => Ok(Value::U64(v)),
                Err(e) => Err(e),
            },
            PrimKind::I64 => match self.read_le(8) {
                Ok(v) => if v < 0x8000_0000_0000_0000 {
                    Ok(Value::I64(v as i64))
                } else {
                    Ok(Value::I64(((v as i128) - 0x1_0000_0000_0000_0000) as i64))
                },
                Err(e) => Err(e),
            },
            PrimKind::F64 => match self.read_le(8) {
                Ok(v) => Ok(Value::F64Bits(v)),
                Err(e) => Err(e),
            },
        }
    }

    /// Decodes one value of shape `shape`, starting at the current offset.
    ///
    /// The result and the count of bytes consumed are exactly what
    /// [`spec_decode`] says of this shape, this session's bytes and its
    /// offset before the call.  The byte source itself never changes and
    /// the offset never moves backward; a shape the decoder rejects
    /// outright fails without consuming anything.  After any fault the
    /// session is to be abandoned: the offset is then not meaningful.
    pub fn decode(&mut self, shape: &Shape) -> (r: Result<Value, Error>)
        ensures
            final(self)@.bytes == old(self)@.bytes,
            old(self)@.pos <= final(self)@.pos,
            match spec_decode(shape@, old(self)@.bytes, old(self)@.pos) {
                Ok(p) => r matches Ok(v) && v@ == p.0 && final(self)@.pos == old(self)@.pos
                    + p.1,
                Err(e) => r matches Err(f) && f == e,
            },
            shape_rejected(shape@) ==> final(self)@.pos == old(self)@.pos,
        decreases shape, 0int,
    {
        match shape {
            Shape::Prim(k) => self.decode_prim(*k),
            Shape::Composite(fields) => match self.decode_fields(fields) {
                Ok(vs) => Ok(Value::Composite(vs)),
                Err(e) => Err(e),
            },
            Shape::Sequence(elem, count) => match self.decode_repeat(elem, *count) {
                Ok(vs) => Ok(Value::Sequence(vs)),
                Err(e) => Err(e),
            },
            Shape::Variant(alts) => self.decode_variant(alts),
            Shape::Text => Err(Error::NotSupported),
            Shape::Blob => Err(Error::NotSupported),
            Shape::Optional => Err(Error::NotSupported),
            Shape::Mapping => Err(Error::NotSupported),
            Shape::Any => Err(Error::NotSupported),
        }
    }

    /// The structural navigator for composites: decodes the declared
    /// fields, strictly in declaration order, each at the position where
    /// the previous one stopped.
    #[verifier::loop_isolation(false)]
    fn decode_fields(&mut self, fields: &Vec<Shape>) -> (r: Result<Vec<Value>, Error>)
        ensures
            final(self)@.bytes == old(self)@.bytes,
            old(self)@.pos <= final(self)@.pos,
            match spec_decode_list(shape_views(fields@), old(self)@.bytes, old(self)@.pos) {
                Ok(p) => r matches Ok(vs) && value_views(vs@) == p.0 && final(self)@.pos
                    == old(self)@.pos + p.1,
                Err(e) => r matches Err(f) && f == e,
            },
        decreases fields, 0int,
    {
        let ghost bytes0 = self@.bytes;
        let ghost pos0 = self@.pos;
        let ghost models = shape_views(fields@);
        proof {
            crate::shape::lemma_shape_views(fields@);
        }
        let mut out: Vec<Value> = Vec::new();
        let mut i: usize = 0;
        proof {
            assert(models.skip(0) =~= models);
            match spec_decode_list(models, bytes0, pos0) {
                Ok(p) => {
                    assert(value_views(out@) + p.0 =~= p.0);
                },
                Err(_) => {},
            }
        }
        while i < fields.len()
            invariant
                i <= fields.len(),
                self@.bytes == bytes0,
                pos0 <= self@.pos,
                spec_decode_list(models, bytes0, pos0) == (match spec_decode_list(
                    models.skip(i as int),
                    bytes0,
                    self@.pos,
                ) {
                    Ok(p) => Ok::<(Seq<ValueModel>, nat), Error>(
                        (value_views(out@) + p.0, ((self@.pos - pos0) + p.1) as nat),
                    ),
                    Err(e) => Err::<(Seq<ValueModel>, nat), Error>(e),
                }),
            decreases fields.len() - i,
        {
            let ghost cur = self@.pos;
            proof {
                assert(models.skip(i as int).len() > 0);
                assert(models.skip(i as int).first() == models[i as int]);
            }
            match self.decode(&fields[i]) {
                Ok(v) => {
                    proof {
                        assert(models.skip(i as int).drop_first() =~= models.skip(
                            i as int + 1,
                        ));
                        crate::value::lemma_value_views_push(out@, v);
                        match spec_decode_list(models.skip(i as int + 1), bytes0, self@.pos) {
                            Ok(pr) => {
                                assert(value_views(out@) + (seq![v@] + pr.0) =~= value_views(
                                    out@,
                                ).push(v@) + pr.0);
                            },
                            Err(_) => {},
                        }
                    }
                    out.push(v);
                    i = i + 1;
                },
                Err(e) => {
                    return Err(e);
                },
            }
        }
        proof {
            assert(models.skip(fields@.len() as int) =~= Seq::<ShapeModel>::empty());
            assert(value_views(out@) + Seq::<ValueModel>::empty() =~= value_views(out@));
        }
        Ok(out)
    }

    /// The structural navigator for fixed-length sequences: decodes
    /// `count` elements of one shape, the count supplied by the caller,
    /// never read from the stream.
    #[verifier::loop_isolation(false)]
    fn decode_repeat(&mut self, elem: &Shape, count: usize) -> (r: Result<Vec<Value>, Error>)
        ensures
            final(self)@.bytes == old(self)@.bytes,
            old(self)@.pos <= final(self)@.pos,
            match spec_decode_repeat(elem@, count as nat, old(self)@.bytes, old(self)@.pos) {
                Ok(p) => r matches Ok(vs) && value_views(vs@) == p.0 && final(self)@.pos
                    == old(self)@.pos + p.1,
                Err(e) => r matches Err(f) && f == e,
            },
        decreases elem, 1int,
    {
        let ghost bytes0 = self@.bytes;
        let ghost pos0 = self@.pos;
        let mut out: Vec<Value> = Vec::new();
        let mut i: usize = 0;
        proof {
            match spec_decode_repeat(elem@, count as nat, bytes0, pos0) {
                Ok(p) => {
                    assert(value_views(out@) + p.0 =~= p.0);
                },
                Err(_) => {},
            }
        }
        while i < count
            invariant
                i <= count,
                self@.bytes == bytes0,
                pos0 <= self@.pos,
                spec_decode_repeat(elem@, count as nat, bytes0, pos0) == (
                match spec_decode_repeat(elem@, (count - i) as nat, bytes0, self@.pos) {
                    Ok(p) => Ok::<(Seq<ValueModel>, nat), Error>(
                        (value_views(out@) + p.0, ((self@.pos - pos0) + p.1) as nat),
                    ),
                    Err(e) => Err::<(Seq<ValueModel>, nat), Error>(e),
                }),
            decreases count - i,
        {
            match self.decode(elem) {
                Ok(v) => {
                    proof {
                        crate::value::lemma_value_views_push(out@, v);
                        match spec_decode_repeat(
                            elem@,
                            (count - i - 1) as nat,
                            bytes0,
                            self@.pos,
                        ) {
                            Ok(pr) => {
                                assert(value_views(out@) + (seq![v@] + pr.0) =~= value_views(
                                    out@,
                                ).push(v@) + pr.0);
                            },
                            Err(_) => {},
                        }
                    }
                    out.push(v);
                    i = i + 1;
                },
                Err(e) => {
                    return Err(e);
                },
            }
        }
        proof {
            assert(value_views(out@) + Seq::<ValueModel>::empty() =~= value_views(out@));
        }
        Ok(out)
    }

    /// The variant resolver: reads the one-byte discriminant, maps it to
    /// a zero-based alternative index, and decodes that alternative's
    /// payload.
    fn decode_variant(&mut self, alts: &Vec<Shape>) -> (r: Result<Value, Error>)
        ensures
            final(self)@.bytes == old(self)@.bytes,
            old(self)@.pos <= final(self)@.pos,
            match spec_decode_variant(shape_views(alts@), old(self)@.bytes, old(self)@.pos) {
                Ok(p) => r matches Ok(v) && v@ == p.0 && final(self)@.pos == old(self)@.pos
                    + p.1,
                Err(e) => r matches Err(f) && f == e,
            },
        decreases alts, 0int,
    {
        let ghost models = shape_views(alts@);
        proof {
            crate::shape::lemma_shape_views(alts@);
        }
        let tag = match self.take_byte() {
            Ok(t) => t,
            Err(e) => {
                return Err(e);
            },
        };
        let idx = match tag_index(tag, alts.len()) {
            Ok(ix) => ix,
            Err(e) => {
                return Err(e);
            },
        };
        let payload = match self.decode(&alts[idx]) {
            Ok(v) => v,
            Err(e) => {
                return Err(e);
            },
        };
        Ok(Value::Variant(idx, Box::new(payload)))
    }
}

} // verus!
