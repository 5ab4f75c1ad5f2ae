//! A stream driver that encodes a visitor-style event sequence into the
//! protobuf wire format.
//!
//! [`ProtoBufStream`] accepts the begin/end events of records, tuples,
//! sequences, maps, enums and primitives, maintains the field number and
//! wire-type hints they imply, and drives a buffered writer accordingly.

use crate::buf::{
    append_model, begin_model, end_model, lemma_append_assoc, lemma_total_append,
    lemma_total_begin, ProtoBuf, ProtoBufMut, WriterModel,
};
use crate::raw::{
    field_tag, le_bytes, lemma_varint_byte_length, lemma_varint_byte_length_bounds, varint_bytes,
    zigzag, WireType,
};
use vstd::prelude::*;
use vstd::string::StringSliceAdditionalSpecFns;

verus! {

/// A well-known tag attached to an incoming event.
#[derive(Debug, Clone, Copy, PartialEq, Eq, Structural)]
pub enum StreamTag {
    /// The next numeric value uses the fixed 32-bit wire type.
    I32,
    /// The next numeric value uses the fixed 64-bit wire type.
    I64,
    /// The next sequence is emitted as one length-delimited packed run.
    LenPacked,
    /// The next signed value uses the zig-zag varint encoding.
    VarintSigned,
    /// The value is an absent optional: nothing is emitted.
    OptionNone,
}

/// The index attached to an incoming event: an optional numeric value, and
/// whether it came from a zero-based positional offset.
#[derive(Debug, Clone, Copy)]
pub struct StreamIndex {
    pub value: Option<u64>,
    pub from_offset: bool,
}

/// The wire-type hint for the field currently being written.
#[derive(Debug, Clone, Copy, PartialEq, Eq, Structural)]
pub enum FieldType {
    Any,
    Root,
    Signed,
    I32,
    I64,
}

#[derive(Debug)]
struct FieldState {
    number: u64,
    ty: FieldType,
}

#[derive(Debug)]
struct LenState {
    is_packed: bool,
    is_prefixed: bool,
}

#[derive(Debug)]
struct OneOfState {
    is_internally_tagged: bool,
}

/// The field number an index denotes: a zero-based offset is shifted to the
/// one-based protobuf numbering, an explicit index is taken verbatim, and a
/// missing value defaults to 1 (or, for an offset, to position 0).
pub open spec fn index_number(ix: StreamIndex) -> u64 {
    if ix.from_offset {
        (match ix.value {
            Some(v) => v,
            None => 0,
        } + 1) as u64
    } else {
        match ix.value {
            Some(v) => v,
            None => 1,
        }
    }
}

/// An offset index must leave room for the one-based shift.
pub open spec fn index_ok(ix: StreamIndex) -> bool {
    ix.from_offset ==> ix.value != Some(u64::MAX)
}

/// Every index present is within range.
pub open spec fn opt_index_ok(ix: Option<StreamIndex>) -> bool {
    match ix {
        Some(i) => index_ok(i),
        None => true,
    }
}

/// The field tag emitted for field `number`, or nothing when the field
/// number is cleared.
pub open spec fn tag_bytes_if_set(number: u64, wt: WireType) -> Seq<u8> {
    if number != 0 {
        varint_bytes(field_tag(number, wt))
    } else {
        Seq::<u8>::empty()
    }
}

/// The field number after root promotion: the outermost message is not
/// wrapped in its own envelope.
pub open spec fn root_number(number: u64, ty: FieldType) -> u64 {
    if ty is Root {
        0
    } else {
        number
    }
}

/// The field-type hint after root promotion.
pub open spec fn root_type(ty: FieldType) -> FieldType {
    if ty is Root {
        FieldType::Any
    } else {
        ty
    }
}

/// Whether a pending enum-variant envelope opens a frame: only when the
/// envelope is armed and a field number is set.
pub open spec fn itb_opens(armed: bool, number: u64) -> bool {
    armed && number != 0
}

/// The writer after any pending enum-variant envelope is applied: an armed
/// envelope with a field number set emits that field's tag and opens a
/// deferred-length frame.
pub open spec fn itb_model(m: WriterModel<u64>, armed: bool, number: u64) -> WriterModel<u64> {
    if itb_opens(armed, number) {
        begin_model(append_model(m, varint_bytes(field_tag(number, WireType::Len))), 1u64)
    } else {
        m
    }
}

/// The field number after any pending enum-variant envelope is applied.
pub open spec fn itb_number(armed: bool, number: u64, index: Option<StreamIndex>) -> u64 {
    if armed {
        match index {
            Some(ix) => index_number(ix),
            None => 0,
        }
    } else {
        number
    }
}

/// The field-type hint after any pending enum-variant envelope is applied.
pub open spec fn itb_type(armed: bool, ty: FieldType, index: Option<StreamIndex>) -> FieldType {
    if armed {
        match index {
            Some(_) => FieldType::Any,
            None => ty,
        }
    } else {
        ty
    }
}

/// The writer after the innermost frame's (or the root's) scratch state is
/// replaced with `st`.
pub open spec fn set_state_model(m: WriterModel<u64>, st: u64) -> WriterModel<u64> {
    if m.frames.len() > 0 {
        WriterModel {
            bytes: m.bytes,
            chunks: m.chunks,
            frames: m.frames.update(
                m.frames.len() - 1,
                crate::buf::FrameModel { chunk_idx: m.frames.last().chunk_idx, state: st },
            ),
            root_state: m.root_state,
        }
    } else {
        WriterModel { bytes: m.bytes, chunks: m.chunks, frames: m.frames, root_state: st }
    }
}

/// The scratch state of the innermost frame, or the root scratch state.
pub open spec fn cur_state(m: WriterModel<u64>) -> u64 {
    if m.frames.len() > 0 {
        m.frames.last().state
    } else {
        m.root_state
    }
}

/// There is room for the handful of bytes and prefixes one event can emit.
pub open spec fn has_room(m: WriterModel<u64>) -> bool {
    m.total_len() + 32 <= usize::MAX
}

impl FieldState {
    #[inline(always)]
    fn is_set(&self) -> (r: bool)
        ensures
            r == (self.number != 0),
    {
        self.number != 0
    }

    #[inline]
    fn set(&mut self, index: &StreamIndex)
        requires
            index_ok(*index),
        ensures
            final(self).number == index_number(*index),
            final(self).ty == FieldType::Any,
    {
        self.ty = FieldType::Any;
        self.number = match index.value {
            // Field indexes are 1-based in protobuf; an index that came
            // from a zero-based positional offset is incremented
            Some(v) => if index.from_offset {
                v + 1
            } else {
                v
            },
            None => 1,
        };
    }

    #[inline(always)]
    fn push_if_set<T>(&mut self, wire_type: WireType, buf: &mut ProtoBufMut<T>)
        requires
            old(buf).wf(),
        ensures
            final(buf).wf(),
            final(buf)@ == append_model(old(buf)@, tag_bytes_if_set(old(self).number, wire_type)),
            final(self).number == 0,
            final(self).ty == old(self).ty,
    {
        if self.is_set() {
            self.push(wire_type, buf)
        } else {
            proof {
                assert(old(buf)@.bytes + Seq::<u8>::empty() =~= old(buf)@.bytes);
            }
        }
    }

    #[inline(always)]
    fn push<T>(&mut self, wire_type: WireType, buf: &mut ProtoBufMut<T>)
        requires
            old(buf).wf(),
        ensures
            final(buf).wf(),
            final(buf)@ == append_model(
                old(buf)@,
                varint_bytes(field_tag(old(self).number, wire_type)),
            ),
            final(self).number == 0,
            final(self).ty == old(self).ty,
    {
        buf.push_field(self.number, wire_type);
        self.number = 0;
    }
}

/// An [`sval::Stream`]-shaped driver that encodes into the protobuf wire
/// format, one event at a time.
#[derive(Debug)]
pub struct ProtoBufStream {
    buf: ProtoBufMut<u64>,
    field: FieldState,
    len: LenState,
    one_of: OneOfState,
}

impl ProtoBufStream {
    /// The state of the underlying buffered writer.
    pub closed spec fn out(&self) -> WriterModel<u64> {
        self.buf@
    }

    /// The currently active field number; 0 means the value is suppressed.
    pub closed spec fn field_number(&self) -> u64 {
        self.field.number
    }

    /// The wire-type hint for the next scalar.
    pub closed spec fn field_type(&self) -> FieldType {
        self.field.ty
    }

    /// Whether the current container is a packed run.
    pub closed spec fn is_packed(&self) -> bool {
        self.len.is_packed
    }

    /// Whether the current binary run already carries a length prefix.
    pub closed spec fn is_prefixed(&self) -> bool {
        self.len.is_prefixed
    }

    /// Whether an enum-variant envelope is pending.
    pub closed spec fn is_internally_tagged(&self) -> bool {
        self.one_of.is_internally_tagged
    }

    /// The underlying writer is well formed.
    pub closed spec fn wf(&self) -> bool {
        self.buf.wf()
    }

    /// Create a new protobuf stream.
    ///
    /// A standalone scalar value will be wrapped in a message with field
    /// number 1.
    pub fn new() -> (r: Self)
        ensures
            r.wf(),
            r.out().bytes == Seq::<u8>::empty(),
            r.out().chunks.len() == 0,
            r.out().frames.len() == 0,
            r.out().root_state == 1u64,
            r.field_number() == 1,
            r.field_type() == FieldType::Root,
            !r.is_packed(),
            !r.is_prefixed(),
            !r.is_internally_tagged(),
    {
        ProtoBufStream {
            buf: ProtoBufMut::new(1),
            field: FieldState { number: 1, ty: FieldType::Root },
            len: LenState { is_packed: false, is_prefixed: false },
            one_of: OneOfState { is_internally_tagged: false },
        }
    }

    /// Whether the writer is comfortably below the address-space bound the
    /// structured events require.  A false result is only reachable with a
    /// message within a small factor of the largest one the machine could
    /// hold at all.
    pub fn has_capacity(&self) -> (r: bool)
        requires
            self.wf(),
        ensures
            r ==> has_room(self.out()),
    {
        let b = self.buf.bytes_len();
        let c = self.buf.chunks_len();
        let r = b <= usize::MAX / 4 && c <= usize::MAX / 64;
        proof {
            if r {
                crate::buf::lemma_injected_len_bound(
                    self.out().chunks,
                    0,
                    self.out().chunks.len() as int,
                );
            }
        }
        r
    }

    /// Complete the stream, returning the encoded protobuf message.
    #[inline]
    pub fn freeze(self) -> (r: ProtoBuf)
        requires
            self.wf(),
        ensures
            r@.bytes == self.out().bytes,
            r@.chunks == self.out().chunks,
            r@.wf(),
    {
        self.buf.freeze()
    }

    /// An absent value: the current field is suppressed.
    pub fn null(&mut self)
        ensures
            final(self).out() == old(self).out(),
            final(self).field_number() == 0,
            final(self).field_type() == old(self).field_type(),
            final(self).is_packed() == old(self).is_packed(),
            final(self).is_prefixed() == old(self).is_prefixed(),
            final(self).is_internally_tagged() == old(self).is_internally_tagged(),
            old(self).wf() ==> final(self).wf(),
    {
        self.field.number = 0;
    }

    /// Encode a boolean as a varint.
    pub fn bool(&mut self, value: bool)
        requires
            old(self).wf(),
        ensures
            final(self).wf(),
            final(self).out() == append_model(
                old(self).out(),
                tag_bytes_if_set(old(self).field_number(), WireType::VarInt) + varint_bytes(
                    if value {
                        1u64
                    } else {
                        0u64
                    },
                ),
            ),
            final(self).field_number() == 0,
            final(self).field_type() == old(self).field_type(),
            final(self).is_packed() == old(self).is_packed(),
            final(self).is_prefixed() == old(self).is_prefixed(),
            final(self).is_internally_tagged() == old(self).is_internally_tagged(),
    {
        self.field.push_if_set(WireType::VarInt, &mut self.buf);
        self.buf.push_varint_bool(value);
        proof {
            lemma_append_assoc(
                old(self).out(),
                tag_bytes_if_set(old(self).field_number(), WireType::VarInt),
                varint_bytes(
                    if value {
                        1u64
                    } else {
                        0u64
                    },
                ),
            );
        }
    }
}

/// The wire type a 32-bit unsigned value uses under hint `ty`.
pub open spec fn wire_u32(ty: FieldType) -> WireType {
    if ty is I32 {
        WireType::I32
    } else {
        WireType::VarInt
    }
}

/// The payload bytes of a 32-bit unsigned value under hint `ty`.
pub open spec fn payload_u32(ty: FieldType, v: u32) -> Seq<u8> {
    if ty is I32 {
        le_bytes(v as int, 4)
    } else {
        varint_bytes(v as u64)
    }
}

/// The wire type a 64-bit unsigned value uses under hint `ty`.
pub open spec fn wire_u64(ty: FieldType) -> WireType {
    if ty is I64 {
        WireType::I64
    } else {
        WireType::VarInt
    }
}

/// The payload bytes of a 64-bit unsigned value under hint `ty`.
pub open spec fn payload_u64(ty: FieldType, v: u64) -> Seq<u8> {
    if ty is I64 {
        le_bytes(v as int, 8)
    } else {
        varint_bytes(v)
    }
}

/// The wire type a 32-bit signed value uses under hint `ty`.
pub open spec fn wire_i32(ty: FieldType) -> WireType {
    if ty is I32 {
        WireType::I32
    } else {
        WireType::VarInt
    }
}

/// The payload bytes of a 32-bit signed value under hint `ty`.
pub open spec fn payload_i32(ty: FieldType, v: i32) -> Seq<u8> {
    if ty is I32 {
        le_bytes(v as u32 as int, 4)
    } else if ty is Signed {
        varint_bytes(zigzag(v as i64))
    } else {
        varint_bytes(v as i64 as u64)
    }
}

/// The wire type a 64-bit signed value uses under hint `ty`.
pub open spec fn wire_i64(ty: FieldType) -> WireType {
    if ty is I64 {
        WireType::I64
    } else {
        WireType::VarInt
    }
}

/// The payload bytes of a 64-bit signed value under hint `ty`.
pub open spec fn payload_i64(ty: FieldType, v: i64) -> Seq<u8> {
    if ty is I64 {
        le_bytes(v as u64 as int, 8)
    } else if ty is Signed {
        varint_bytes(zigzag(v))
    } else {
        varint_bytes(v as u64)
    }
}

impl ProtoBufStream {
    /// On entering the top-level container, drop the root marker: the
    /// outermost message is not wrapped in its own envelope.
    fn root_begin(&mut self)
        ensures
            final(self).out() == old(self).out(),
            final(self).field_number() == root_number(
                old(self).field_number(),
                old(self).field_type(),
            ),
            final(self).field_type() == root_type(old(self).field_type()),
            final(self).is_packed() == old(self).is_packed(),
            final(self).is_prefixed() == old(self).is_prefixed(),
            final(self).is_internally_tagged() == old(self).is_internally_tagged(),
            old(self).wf() ==> final(self).wf(),
    {
        if let FieldType::Root = self.field.ty {
            self.field = FieldState { ty: FieldType::Any, number: 0 };
        }
    }

    /// A new field begins: any pending enum-variant envelope is dropped.
    fn field_begin(&mut self)
        ensures
            final(self).out() == old(self).out(),
            final(self).field_number() == old(self).field_number(),
            final(self).field_type() == old(self).field_type(),
            final(self).is_packed() == old(self).is_packed(),
            final(self).is_prefixed() == old(self).is_prefixed(),
            !final(self).is_internally_tagged(),
            old(self).wf() ==> final(self).wf(),
    {
        self.one_of.is_internally_tagged = false;
    }

    /// Apply a pending enum-variant envelope: emit the enclosing field's
    /// tag, open the variant's deferred-length frame, and take the field
    /// number from the variant's index.
    fn internally_tagged_begin(&mut self, index: Option<StreamIndex>)
        requires
            old(self).wf(),
            opt_index_ok(index),
            old(self).out().total_len() + 16 <= usize::MAX,
        ensures
            final(self).wf(),
            final(self).out() == itb_model(
                old(self).out(),
                old(self).is_internally_tagged(),
                old(self).field_number(),
            ),
            final(self).field_number() == itb_number(
                old(self).is_internally_tagged(),
                old(self).field_number(),
                index,
            ),
            final(self).field_type() == itb_type(
                old(self).is_internally_tagged(),
                old(self).field_type(),
                index,
            ),
            !final(self).is_internally_tagged(),
            final(self).is_packed() == old(self).is_packed(),
            final(self).is_prefixed() == old(self).is_prefixed(),
    {
        if self.one_of.is_internally_tagged {
            self.one_of.is_internally_tagged = false;

            if self.field.is_set() {
                proof {
                    let t = field_tag(old(self).field_number(), WireType::Len);
                    lemma_varint_byte_length(t);
                    lemma_varint_byte_length_bounds(t);
                    lemma_total_append(old(self).out(), varint_bytes(t));
                }
                self.field.push(WireType::Len, &mut self.buf);
                self.buf.begin_len(1);
            }

            if let Some(ix) = index {
                self.field.set(&ix);
            }
        }
    }

    /// Re-arm the enum-variant envelope when the ending event still carries
    /// an index.
    fn internally_tagged_end(&mut self, index: Option<StreamIndex>)
        ensures
            final(self).out() == old(self).out(),
            final(self).field_number() == old(self).field_number(),
            final(self).field_type() == old(self).field_type(),
            final(self).is_packed() == old(self).is_packed(),
            final(self).is_prefixed() == old(self).is_prefixed(),
            final(self).is_internally_tagged() == (index is Some
                || old(self).is_internally_tagged()),
            old(self).wf() ==> final(self).wf(),
    {
        if index.is_some() {
            self.one_of.is_internally_tagged = true;
        }
    }

    /// Encode a 32-bit unsigned value: a varint, or four fixed bytes under
    /// the 32-bit hint.
    pub fn u32(&mut self, value: u32)
        requires
            old(self).wf(),
        ensures
            final(self).wf(),
            final(self).out() == append_model(
                old(self).out(),
                tag_bytes_if_set(old(self).field_number(), wire_u32(old(self).field_type()))
                    + payload_u32(old(self).field_type(), value),
            ),
            final(self).field_number() == 0,
            final(self).field_type() == old(self).field_type(),
            final(self).is_packed() == old(self).is_packed(),
            final(self).is_prefixed() == old(self).is_prefixed(),
            final(self).is_internally_tagged() == old(self).is_internally_tagged(),
    {
        match self.field.ty {
            FieldType::I32 => {
                self.field.push_if_set(WireType::I32, &mut self.buf);
                self.buf.push_i32_fixed32(value);
            },
            _ => {
                self.field.push_if_set(WireType::VarInt, &mut self.buf);
                self.buf.push_varint_uint64(value as u64);
            },
        }
        proof {
            lemma_append_assoc(
                old(self).out(),
                tag_bytes_if_set(old(self).field_number(), wire_u32(old(self).field_type())),
                payload_u32(old(self).field_type(), value),
            );
        }
    }

    /// Encode a 64-bit unsigned value: a varint, or eight fixed bytes under
    /// the 64-bit hint.
    pub fn u64(&mut self, value: u64)
        requires
            old(self).wf(),
        ensures
            final(self).wf(),
            final(self).out() == append_model(
                old(self).out(),
                tag_bytes_if_set(old(self).field_number(), wire_u64(old(self).field_type()))
                    + payload_u64(old(self).field_type(), value),
            ),
            final(self).field_number() == 0,
            final(self).field_type() == old(self).field_type(),
            final(self).is_packed() == old(self).is_packed(),
            final(self).is_prefixed() == old(self).is_prefixed(),
            final(self).is_internally_tagged() == old(self).is_internally_tagged(),
    {
        match self.field.ty {
            FieldType::I64 => {
                self.field.push_if_set(WireType::I64, &mut self.buf);
                self.buf.push_i64_fixed64(value);
            },
            _ => {
                self.field.push_if_set(WireType::VarInt, &mut self.buf);
                self.buf.push_varint_uint64(value);
            },
        }
        proof {
            lemma_append_assoc(
                old(self).out(),
                tag_bytes_if_set(old(self).field_number(), wire_u64(old(self).field_type())),
                payload_u64(old(self).field_type(), value),
            );
        }
    }

    /// Encode a 32-bit signed value: a two's-complement varint, a zig-zag
    /// varint under the signed hint, or four fixed bytes under the 32-bit
    /// hint.
    pub fn i32(&mut self, value: i32)
        requires
            old(self).wf(),
        ensures
            final(self).wf(),
            final(self).out() == append_model(
                old(self).out(),
                tag_bytes_if_set(old(self).field_number(), wire_i32(old(self).field_type()))
                    + payload_i32(old(self).field_type(), value),
            ),
            final(self).field_number() == 0,
            final(self).field_type() == old(self).field_type(),
            final(self).is_packed() == old(self).is_packed(),
            final(self).is_prefixed() == old(self).is_prefixed(),
            final(self).is_internally_tagged() == old(self).is_internally_tagged(),
    {
        match self.field.ty {
            FieldType::I32 => {
                self.field.push_if_set(WireType::I32, &mut self.buf);
                self.buf.push_i32_sfixed32(value);
            },
            FieldType::Signed => {
                self.field.push_if_set(WireType::VarInt, &mut self.buf);
                self.buf.push_varint_sint64z(value as i64);
            },
            _ => {
                self.field.push_if_set(WireType::VarInt, &mut self.buf);
                self.buf.push_varint_sint64(value as i64);
            },
        }
        proof {
            lemma_append_assoc(
                old(self).out(),
                tag_bytes_if_set(old(self).field_number(), wire_i32(old(self).field_type())),
                payload_i32(old(self).field_type(), value),
            );
        }
    }

    /// Encode a 64-bit signed value: a two's-complement varint, a zig-zag
    /// varint under the signed hint, or eight fixed bytes under the 64-bit
    /// hint.
    pub fn i64(&mut self, value: i64)
        requires
            old(self).wf(),
        ensures
            final(self).wf(),
            final(self).out() == append_model(
                old(self).out(),
                tag_bytes_if_set(old(self).field_number(), wire_i64(old(self).field_type()))
                    + payload_i64(old(self).field_type(), value),
            ),
            final(self).field_number() == 0,
            final(self).field_type() == old(self).field_type(),
            final(self).is_packed() == old(self).is_packed(),
            final(self).is_prefixed() == old(self).is_prefixed(),
            final(self).is_internally_tagged() == old(self).is_internally_tagged(),
    {
        match self.field.ty {
            FieldType::I64 => {
                self.field.push_if_set(WireType::I64, &mut self.buf);
                self.buf.push_i64_sfixed64(value);
            },
            FieldType::Signed => {
                self.field.push_if_set(WireType::VarInt, &mut self.buf);
                self.buf.push_varint_sint64z(value);
            },
            _ => {
                self.field.push_if_set(WireType::VarInt, &mut self.buf);
                self.buf.push_varint_sint64(value);
            },
        }
        proof {
            lemma_append_assoc(
                old(self).out(),
                tag_bytes_if_set(old(self).field_number(), wire_i64(old(self).field_type())),
                payload_i64(old(self).field_type(), value),
            );
        }
    }

    /// Encode the raw bits of a 32-bit floating point value: always four
    /// fixed little-endian bytes.
    pub fn f32_bits(&mut self, bits: u32)
        requires
            old(self).wf(),
        ensures
            final(self).wf(),
            final(self).out() == append_model(
                old(self).out(),
                tag_bytes_if_set(old(self).field_number(), WireType::I32) + le_bytes(
                    bits as int,
                    4,
                ),
            ),
            final(self).field_number() == 0,
            final(self).field_type() == old(self).field_type(),
            final(self).is_packed() == old(self).is_packed(),
            final(self).is_prefixed() == old(self).is_prefixed(),
            final(self).is_internally_tagged() == old(self).is_internally_tagged(),
    {
        self.field.push_if_set(WireType::I32, &mut self.buf);
        self.buf.push_i32_fixed32(bits);
        proof {
            lemma_append_assoc(
                old(self).out(),
                tag_bytes_if_set(old(self).field_number(), WireType::I32),
                le_bytes(bits as int, 4),
            );
        }
    }

    /// Encode the raw bits of a 64-bit floating point value: always eight
    /// fixed little-endian bytes.
    pub fn f64_bits(&mut self, bits: u64)
        requires
            old(self).wf(),
        ensures
            final(self).wf(),
            final(self).out() == append_model(
                old(self).out(),
                tag_bytes_if_set(old(self).field_number(), WireType::I64) + le_bytes(
                    bits as int,
                    8,
                ),
            ),
            final(self).field_number() == 0,
            final(self).field_type() == old(self).field_type(),
            final(self).is_packed() == old(self).is_packed(),
            final(self).is_prefixed() == old(self).is_prefixed(),
            final(self).is_internally_tagged() == old(self).is_internally_tagged(),
    {
        self.field.push_if_set(WireType::I64, &mut self.buf);
        self.buf.push_i64_fixed64(bits);
        proof {
            lemma_append_assoc(
                old(self).out(),
                tag_bytes_if_set(old(self).field_number(), WireType::I64),
                le_bytes(bits as int, 8),
            );
        }
    }
}


impl ProtoBufStream {
    /// Begin a text run; text is bit-for-bit identical to binary.
    pub fn text_begin(&mut self, num_bytes: Option<usize>)
        requires
            old(self).wf(),
            num_bytes is None ==> old(self).out().total_len() + 10 <= usize::MAX,
        ensures
            final(self).wf(),
            final(self).field_number() == 0,
            final(self).field_type() == old(self).field_type(),
            final(self).is_packed() == old(self).is_packed(),
            final(self).is_internally_tagged() == old(self).is_internally_tagged(),
            match num_bytes {
                Some(n) => final(self).out() == append_model(
                    old(self).out(),
                    tag_bytes_if_set(old(self).field_number(), WireType::Len) + varint_bytes(
                        n as u64,
                    ),
                ) && final(self).is_prefixed(),
                None => final(self).out() == begin_model(
                    append_model(
                        old(self).out(),
                        tag_bytes_if_set(old(self).field_number(), WireType::Len),
                    ),
                    1u64,
                ) && final(self).is_prefixed() == old(self).is_prefixed(),
            },
    {
        self.binary_begin(num_bytes)
    }

    /// Append a text fragment: its UTF-8 bytes.
    pub fn text_fragment_computed(&mut self, fragment: &str)
        requires
            old(self).wf(),
        ensures
            final(self).wf(),
            final(self).out() == append_model(old(self).out(), fragment.spec_bytes()),
            final(self).field_number() == old(self).field_number(),
            final(self).field_type() == old(self).field_type(),
            final(self).is_packed() == old(self).is_packed(),
            final(self).is_prefixed() == old(self).is_prefixed(),
            final(self).is_internally_tagged() == old(self).is_internally_tagged(),
    {
        self.binary_fragment_computed(fragment.as_bytes())
    }

    /// End a text run.
    pub fn text_end(&mut self)
        requires
            old(self).wf(),
            !old(self).is_prefixed() && old(self).out().frames.len() > 0 ==> old(
                self,
            ).out().total_len() + 10 <= usize::MAX,
        ensures
            final(self).wf(),
            final(self).out() == (if old(self).is_prefixed() {
                old(self).out()
            } else {
                end_model(old(self).out())
            }),
            !final(self).is_prefixed(),
            final(self).field_number() == old(self).field_number(),
            final(self).field_type() == old(self).field_type(),
            final(self).is_packed() == old(self).is_packed(),
            final(self).is_internally_tagged() == old(self).is_internally_tagged(),
    {
        self.binary_end()
    }

    /// Begin a binary run: with a known length the length prefix is written
    /// at once; with an unknown length a deferred-length frame is opened.
    pub fn binary_begin(&mut self, num_bytes: Option<usize>)
        requires
            old(self).wf(),
            num_bytes is None ==> old(self).out().total_len() + 10 <= usize::MAX,
        ensures
            final(self).wf(),
            final(self).field_number() == 0,
            final(self).field_type() == old(self).field_type(),
            final(self).is_packed() == old(self).is_packed(),
            final(self).is_internally_tagged() == old(self).is_internally_tagged(),
            match num_bytes {
                Some(n) => final(self).out() == append_model(
                    old(self).out(),
                    tag_bytes_if_set(old(self).field_number(), WireType::Len) + varint_bytes(
                        n as u64,
                    ),
                ) && final(self).is_prefixed(),
                None => final(self).out() == begin_model(
                    append_model(
                        old(self).out(),
                        tag_bytes_if_set(old(self).field_number(), WireType::Len),
                    ),
                    1u64,
                ) && final(self).is_prefixed() == old(self).is_prefixed(),
            },
    {
        if let Some(num_bytes) = num_bytes {
            self.len.is_prefixed = true;

            self.buf.reserve_bytes(num_bytes);

            self.field.push_if_set(WireType::Len, &mut self.buf);
            self.buf.push_len_varint_uint64(num_bytes as u64);
            proof {
                lemma_append_assoc(
                    old(self).out(),
                    tag_bytes_if_set(old(self).field_number(), WireType::Len),
                    varint_bytes(num_bytes as u64),
                );
            }
        } else {
            self.field.push_if_set(WireType::Len, &mut self.buf);
            proof {
                let t = tag_bytes_if_set(old(self).field_number(), WireType::Len);
                if old(self).field_number() != 0 {
                    lemma_varint_byte_length(field_tag(old(self).field_number(), WireType::Len));
                    lemma_varint_byte_length_bounds(
                        field_tag(old(self).field_number(), WireType::Len),
                    );
                }
                lemma_total_append(old(self).out(), t);
            }
            self.buf.begin_len(1);
        }
    }

    /// Append a binary fragment verbatim.
    pub fn binary_fragment_computed(&mut self, fragment: &[u8])
        requires
            old(self).wf(),
        ensures
            final(self).wf(),
            final(self).out() == append_model(old(self).out(), fragment@),
            final(self).field_number() == old(self).field_number(),
            final(self).field_type() == old(self).field_type(),
            final(self).is_packed() == old(self).is_packed(),
            final(self).is_prefixed() == old(self).is_prefixed(),
            final(self).is_internally_tagged() == old(self).is_internally_tagged(),
    {
        self.buf.push(fragment);
    }

    /// End a binary run: a run with an up-front prefix just clears the
    /// marker, otherwise the deferred-length frame is closed.
    pub fn binary_end(&mut self)
        requires
            old(self).wf(),
            !old(self).is_prefixed() && old(self).out().frames.len() > 0 ==> old(
                self,
            ).out().total_len() + 10 <= usize::MAX,
        ensures
            final(self).wf(),
            final(self).out() == (if old(self).is_prefixed() {
                old(self).out()
            } else {
                end_model(old(self).out())
            }),
            !final(self).is_prefixed(),
            final(self).field_number() == old(self).field_number(),
            final(self).field_type() == old(self).field_type(),
            final(self).is_packed() == old(self).is_packed(),
            final(self).is_internally_tagged() == old(self).is_internally_tagged(),
    {
        if self.len.is_prefixed {
            self.len.is_prefixed = false;
        } else {
            self.buf.end_len();
        }
    }

    /// Encode a 128-bit unsigned value: a length-delimited run of its 16
    /// little-endian bytes.
    pub fn u128(&mut self, value: u128)
        requires
            old(self).wf(),
        ensures
            final(self).wf(),
            final(self).out() == append_model(
                old(self).out(),
                tag_bytes_if_set(old(self).field_number(), WireType::Len) + varint_bytes(16)
                    + le_bytes(value as int, 16),
            ),
            final(self).field_number() == 0,
            final(self).field_type() == old(self).field_type(),
            final(self).is_packed() == old(self).is_packed(),
            !final(self).is_prefixed(),
            final(self).is_internally_tagged() == old(self).is_internally_tagged(),
    {
        let bytes = crate::raw::le_bytes_u128(value, 16);

        self.binary_begin(Some(16));
        self.binary_fragment_computed(bytes.as_slice());
        self.binary_end();
        proof {
            lemma_append_assoc(
                append_model(
                    old(self).out(),
                    tag_bytes_if_set(old(self).field_number(), WireType::Len) + varint_bytes(16),
                ),
                le_bytes(value as int, 16),
                Seq::<u8>::empty(),
            );
            assert((tag_bytes_if_set(old(self).field_number(), WireType::Len) + varint_bytes(16))
                + le_bytes(value as int, 16) =~= tag_bytes_if_set(
                old(self).field_number(),
                WireType::Len,
            ) + varint_bytes(16) + le_bytes(value as int, 16));
            lemma_append_assoc(
                old(self).out(),
                tag_bytes_if_set(old(self).field_number(), WireType::Len) + varint_bytes(16),
                le_bytes(value as int, 16),
            );
        }
    }

    /// Encode a 128-bit signed value: a length-delimited run of its 16
    /// little-endian two's-complement bytes.
    pub fn i128(&mut self, value: i128)
        requires
            old(self).wf(),
        ensures
            final(self).wf(),
            final(self).out() == append_model(
                old(self).out(),
                tag_bytes_if_set(old(self).field_number(), WireType::Len) + varint_bytes(16)
                    + le_bytes(value as u128 as int, 16),
            ),
            final(self).field_number() == 0,
            final(self).field_type() == old(self).field_type(),
            final(self).is_packed() == old(self).is_packed(),
            !final(self).is_prefixed(),
            final(self).is_internally_tagged() == old(self).is_internally_tagged(),
    {
        #[verifier::truncate]
        let u = value as u128;
        self.u128(u);
    }

    /// Begin a map: remember the map field's number so each entry can
    /// re-emit it, and clear the current field.
    pub fn map_begin(&mut self, num_entries: Option<usize>)
        requires
            old(self).wf(),
        ensures
            final(self).wf(),
            final(self).out() == set_state_model(old(self).out(), old(self).field_number()),
            final(self).field_number() == 0,
            final(self).field_type() == FieldType::Any,
            final(self).is_packed() == old(self).is_packed(),
            final(self).is_prefixed() == old(self).is_prefixed(),
            final(self).is_internally_tagged() == old(self).is_internally_tagged(),
    {
        if let Some(num_entries) = num_entries {
            let hint: usize = match num_entries.checked_mul(2) {
                Some(n) => n,
                None => num_entries,
            };
            self.buf.reserve(hint);
        }

        let number = self.field.number;
        let st = self.buf.state_mut();
        *st = number;

        self.field.number = 0;
        self.field.ty = FieldType::Any;
        proof {
            assert(self.out() == set_state_model(old(self).out(), old(self).field_number()));
        }
    }

    /// Begin a map entry's key: open the entry message under the map's
    /// field number, with the key at field 1.
    pub fn map_key_begin(&mut self)
        requires
            old(self).wf(),
            old(self).out().total_len() + 16 <= usize::MAX,
        ensures
            final(self).wf(),
            final(self).out() == begin_model(
                append_model(
                    old(self).out(),
                    varint_bytes(field_tag(cur_state(old(self).out()), WireType::Len)),
                ),
                1u64,
            ),
            final(self).field_number() == 1,
            final(self).field_type() == FieldType::Any,
            final(self).is_packed() == old(self).is_packed(),
            final(self).is_prefixed() == old(self).is_prefixed(),
            !final(self).is_internally_tagged(),
    {
        self.field_begin();

        let st = *self.buf.state_mut();
        proof {
            assert(self.buf@.frames =~= old(self).out().frames);
            assert(self.buf@ == old(self).out());
        }
        self.field.number = st;
        self.field.ty = FieldType::Any;
        proof {
            let t = field_tag(cur_state(old(self).out()), WireType::Len);
            lemma_varint_byte_length(t);
            lemma_varint_byte_length_bounds(t);
            lemma_total_append(old(self).out(), varint_bytes(t));
        }
        self.buf.push_field(st, WireType::Len);
        self.field.number = 1;

        self.buf.begin_len(1);
    }

    /// End a map entry's key.
    pub fn map_key_end(&mut self)
        ensures
            final(self).out() == old(self).out(),
            final(self).field_number() == old(self).field_number(),
            final(self).field_type() == old(self).field_type(),
            final(self).is_packed() == old(self).is_packed(),
            final(self).is_prefixed() == old(self).is_prefixed(),
            final(self).is_internally_tagged() == old(self).is_internally_tagged(),
            old(self).wf() ==> final(self).wf(),
    {
    }

    /// Begin a map entry's value: it sits at field 2 of the entry message.
    pub fn map_value_begin(&mut self)
        ensures
            final(self).out() == old(self).out(),
            final(self).field_number() == 2,
            final(self).field_type() == old(self).field_type(),
            final(self).is_packed() == old(self).is_packed(),
            final(self).is_prefixed() == old(self).is_prefixed(),
            final(self).is_internally_tagged() == old(self).is_internally_tagged(),
            old(self).wf() ==> final(self).wf(),
    {
        self.field.number = 2;
    }

    /// End a map entry's value, closing the entry message.
    pub fn map_value_end(&mut self)
        requires
            old(self).wf(),
            old(self).out().frames.len() > 0 ==> old(self).out().total_len() + 10 <= usize::MAX,
        ensures
            final(self).wf(),
            final(self).out() == end_model(old(self).out()),
            final(self).field_number() == old(self).field_number(),
            final(self).field_type() == old(self).field_type(),
            final(self).is_packed() == old(self).is_packed(),
            final(self).is_prefixed() == old(self).is_prefixed(),
            final(self).is_internally_tagged() == old(self).is_internally_tagged(),
    {
        self.buf.end_len();
    }

    /// End a map.  No wrapping message is emitted around the whole map.
    pub fn map_end(&mut self)
        ensures
            final(self).out() == old(self).out(),
            final(self).field_number() == old(self).field_number(),
            final(self).field_type() == old(self).field_type(),
            final(self).is_packed() == old(self).is_packed(),
            !final(self).is_prefixed(),
            final(self).is_internally_tagged() == old(self).is_internally_tagged(),
            old(self).wf() ==> final(self).wf(),
    {
        self.len.is_prefixed = false;
    }

    /// Begin a sequence: a packed run opens one length-delimited field,
    /// otherwise the element field number is stashed so every element can
    /// re-emit it.
    pub fn seq_begin(&mut self, num_entries: Option<usize>)
        requires
            old(self).wf(),
            old(self).is_packed() ==> old(self).out().total_len() + 16 <= usize::MAX,
        ensures
            final(self).wf(),
            old(self).is_packed() ==> final(self).out() == begin_model(
                append_model(
                    old(self).out(),
                    tag_bytes_if_set(old(self).field_number(), WireType::Len),
                ),
                1u64,
            ) && final(self).field_number() == 0 && final(self).field_type() == old(
                self,
            ).field_type(),
            !old(self).is_packed() ==> final(self).out() == set_state_model(
                old(self).out(),
                old(self).field_number(),
            ) && final(self).field_number() == 0 && final(self).field_type() == FieldType::Any,
            final(self).is_packed() == old(self).is_packed(),
            final(self).is_prefixed() == old(self).is_prefixed(),
            final(self).is_internally_tagged() == old(self).is_internally_tagged(),
    {
        if let Some(num_entries) = num_entries {
            self.buf.reserve(num_entries);
        }

        if self.len.is_packed {
            self.field.push_if_set(WireType::Len, &mut self.buf);
            proof {
                let t = tag_bytes_if_set(old(self).field_number(), WireType::Len);
                if old(self).field_number() != 0 {
                    lemma_varint_byte_length(field_tag(old(self).field_number(), WireType::Len));
                    lemma_varint_byte_length_bounds(
                        field_tag(old(self).field_number(), WireType::Len),
                    );
                }
                lemma_total_append(old(self).out(), t);
            }
            self.buf.begin_len(1);
        } else {
            let number = self.field.number;
            let st = self.buf.state_mut();
            *st = number;

            self.field.number = 0;
            self.field.ty = FieldType::Any;
            proof {
                assert(self.out() == set_state_model(old(self).out(), old(self).field_number()));
            }
        }
    }

    /// Begin a sequence element: outside a packed run, restore the stashed
    /// element field number.
    pub fn seq_value_begin(&mut self)
        ensures
            final(self).out() == old(self).out(),
            old(self).is_packed() ==> final(self).field_number() == old(self).field_number()
                && final(self).is_internally_tagged() == old(self).is_internally_tagged(),
            !old(self).is_packed() ==> final(self).field_number() == cur_state(old(self).out())
                && !final(self).is_internally_tagged(),
            final(self).field_type() == old(self).field_type(),
            final(self).is_packed() == old(self).is_packed(),
            final(self).is_prefixed() == old(self).is_prefixed(),
            old(self).wf() ==> final(self).wf(),
    {
        if self.len.is_packed {
        } else {
            self.field_begin();
            let st = *self.buf.state_mut();
            proof {
                assert(self.buf@.frames =~= old(self).out().frames);
                assert(self.buf@ == old(self).out());
            }
            self.field.number = st;
        }
    }

    /// End a sequence element.
    pub fn seq_value_end(&mut self)
        ensures
            final(self).out() == old(self).out(),
            final(self).field_number() == old(self).field_number(),
            final(self).field_type() == old(self).field_type(),
            final(self).is_packed() == old(self).is_packed(),
            final(self).is_prefixed() == old(self).is_prefixed(),
            final(self).is_internally_tagged() == old(self).is_internally_tagged(),
            old(self).wf() ==> final(self).wf(),
    {
    }

    /// End a sequence: a packed run closes its length-delimited field.
    pub fn seq_end(&mut self)
        requires
            old(self).wf(),
            old(self).is_packed() && old(self).out().frames.len() > 0 ==> old(
                self,
            ).out().total_len() + 10 <= usize::MAX,
        ensures
            final(self).wf(),
            final(self).out() == (if old(self).is_packed() {
                end_model(old(self).out())
            } else {
                old(self).out()
            }),
            !final(self).is_packed(),
            !final(self).is_prefixed(),
            final(self).field_number() == old(self).field_number(),
            final(self).field_type() == old(self).field_type(),
            final(self).is_internally_tagged() == old(self).is_internally_tagged(),
    {
        self.len.is_prefixed = false;

        if self.len.is_packed {
            self.len.is_packed = false;

            self.buf.end_len();
        }
    }
}


impl ProtoBufStream {
    /// Begin an enum: apply any pending variant envelope, then arm a new
    /// one for the variant that follows.
    pub fn enum_begin(&mut self, index: Option<StreamIndex>)
        requires
            old(self).wf(),
            opt_index_ok(index),
            old(self).out().total_len() + 16 <= usize::MAX,
        ensures
            final(self).wf(),
            final(self).out() == itb_model(
                old(self).out(),
                old(self).is_internally_tagged(),
                root_number(old(self).field_number(), old(self).field_type()),
            ),
            final(self).field_number() == itb_number(
                old(self).is_internally_tagged(),
                root_number(old(self).field_number(), old(self).field_type()),
                index,
            ),
            final(self).field_type() == itb_type(
                old(self).is_internally_tagged(),
                root_type(old(self).field_type()),
                index,
            ),
            final(self).is_internally_tagged(),
            final(self).is_packed() == old(self).is_packed(),
            final(self).is_prefixed() == old(self).is_prefixed(),
    {
        self.root_begin();
        self.internally_tagged_begin(index);

        self.one_of.is_internally_tagged = true;
    }

    /// End an enum: close the variant envelope if its payload never fired,
    /// and re-arm internal tagging when the end still carries an index.
    pub fn enum_end(&mut self, index: Option<StreamIndex>)
        requires
            old(self).wf(),
            old(self).is_internally_tagged() && old(self).out().frames.len() > 0 ==> old(
                self,
            ).out().total_len() + 10 <= usize::MAX,
        ensures
            final(self).wf(),
            final(self).out() == (if old(self).is_internally_tagged() {
                end_model(old(self).out())
            } else {
                old(self).out()
            }),
            final(self).is_internally_tagged() == (index is Some),
            final(self).field_number() == old(self).field_number(),
            final(self).field_type() == old(self).field_type(),
            final(self).is_packed() == old(self).is_packed(),
            final(self).is_prefixed() == old(self).is_prefixed(),
    {
        if self.one_of.is_internally_tagged {
            self.one_of.is_internally_tagged = false;

            self.buf.end_len();
        }

        self.internally_tagged_end(index);
    }

    /// Begin a tagged value: apply any pending variant envelope, then apply
    /// the wire-type or packing hint the tag carries.
    pub fn tagged_begin(&mut self, tag: Option<StreamTag>, index: Option<StreamIndex>)
        requires
            old(self).wf(),
            opt_index_ok(index),
            old(self).out().total_len() + 16 <= usize::MAX,
        ensures
            final(self).wf(),
            final(self).out() == itb_model(
                old(self).out(),
                old(self).is_internally_tagged(),
                old(self).field_number(),
            ),
            final(self).field_number() == itb_number(
                old(self).is_internally_tagged(),
                old(self).field_number(),
                index,
            ),
            final(self).field_type() == (match tag {
                Some(StreamTag::I32) => FieldType::I32,
                Some(StreamTag::I64) => FieldType::I64,
                Some(StreamTag::VarintSigned) => FieldType::Signed,
                _ => itb_type(
                    old(self).is_internally_tagged(),
                    old(self).field_type(),
                    index,
                ),
            }),
            final(self).is_packed() == (old(self).is_packed() || tag == Some(
                StreamTag::LenPacked,
            )),
            final(self).is_prefixed() == old(self).is_prefixed(),
            !final(self).is_internally_tagged(),
    {
        self.internally_tagged_begin(index);

        match tag {
            Some(StreamTag::I32) => {
                self.field.ty = FieldType::I32;
            },
            Some(StreamTag::I64) => {
                self.field.ty = FieldType::I64;
            },
            Some(StreamTag::LenPacked) => {
                self.len.is_packed = true;
            },
            Some(StreamTag::VarintSigned) => {
                self.field.ty = FieldType::Signed;
            },
            _ => {},
        }
    }

    /// End a tagged value: the wire-type hint is consumed, and internal
    /// tagging is re-armed when the end still carries an index.
    pub fn tagged_end(&mut self, index: Option<StreamIndex>)
        ensures
            final(self).out() == old(self).out(),
            final(self).field_number() == old(self).field_number(),
            final(self).field_type() == FieldType::Any,
            final(self).is_packed() == old(self).is_packed(),
            final(self).is_prefixed() == old(self).is_prefixed(),
            final(self).is_internally_tagged() == (index is Some
                || old(self).is_internally_tagged()),
            old(self).wf() ==> final(self).wf(),
    {
        self.internally_tagged_end(index);

        self.field.ty = FieldType::Any;
    }

    /// A standalone tag: an absent optional suppresses the field; an enum
    /// variant with a 32-bit index is emitted as an integer enum value;
    /// anything else is suppressed.
    pub fn tag(&mut self, tag: Option<StreamTag>, index: Option<i32>)
        requires
            old(self).wf(),
        ensures
            final(self).wf(),
            final(self).field_number() == 0,
            final(self).field_type() == old(self).field_type(),
            final(self).is_packed() == old(self).is_packed(),
            final(self).is_prefixed() == old(self).is_prefixed(),
            !final(self).is_internally_tagged(),
            (tag == Some(StreamTag::OptionNone) || index is None) ==> final(self).out() == old(
                self,
            ).out(),
            (tag != Some(StreamTag::OptionNone) && index is Some) ==> final(self).out()
                == append_model(
                old(self).out(),
                tag_bytes_if_set(old(self).field_number(), wire_i32(old(self).field_type()))
                    + payload_i32(old(self).field_type(), index.unwrap()),
            ),
    {
        self.one_of.is_internally_tagged = false;

        match tag {
            Some(StreamTag::OptionNone) => self.null(),
            _ => {
                // Protobuf enums are i32 values
                if let Some(index) = index {
                    self.i32(index)
                } else {
                    self.null()
                }
            },
        }
    }

    /// Begin a tuple or record, which both map to protobuf messages: after
    /// root promotion and any pending variant envelope, a set field number
    /// opens the message's deferred-length envelope.
    pub fn tuple_begin(&mut self, index: Option<StreamIndex>, num_entries: Option<usize>)
        requires
            old(self).wf(),
            opt_index_ok(index),
            old(self).out().total_len() + 32 <= usize::MAX,
        ensures
            final(self).wf(),
            ({
                let n0 = root_number(old(self).field_number(), old(self).field_type());
                let t0 = root_type(old(self).field_type());
                let armed = old(self).is_internally_tagged();
                let m1 = itb_model(old(self).out(), armed, n0);
                let n1 = itb_number(armed, n0, index);
                &&& final(self).out() == (if n1 != 0 {
                    begin_model(
                        append_model(m1, varint_bytes(field_tag(n1, WireType::Len))),
                        1u64,
                    )
                } else {
                    m1
                })
                &&& final(self).field_number() == 0
                &&& final(self).field_type() == itb_type(armed, t0, index)
            }),
            !final(self).is_internally_tagged(),
            final(self).is_packed() == old(self).is_packed(),
            final(self).is_prefixed() == old(self).is_prefixed(),
    {
        if let Some(num_entries) = num_entries {
            self.buf.reserve(num_entries);
        }

        self.root_begin();
        self.internally_tagged_begin(index);

        if self.field.is_set() {
            proof {
                let n0 = root_number(old(self).field_number(), old(self).field_type());
                let armed = old(self).is_internally_tagged();
                let m1 = itb_model(old(self).out(), armed, n0);
                let n1 = itb_number(armed, n0, index);
                if itb_opens(armed, n0) {
                    lemma_varint_byte_length(field_tag(n0, WireType::Len));
                    lemma_varint_byte_length_bounds(field_tag(n0, WireType::Len));
                    lemma_total_append(
                        old(self).out(),
                        varint_bytes(field_tag(n0, WireType::Len)),
                    );
                    lemma_total_begin(
                        append_model(old(self).out(), varint_bytes(field_tag(n0, WireType::Len))),
                        1u64,
                    );
                }
                lemma_varint_byte_length(field_tag(n1, WireType::Len));
                lemma_varint_byte_length_bounds(field_tag(n1, WireType::Len));
                lemma_total_append(m1, varint_bytes(field_tag(n1, WireType::Len)));
            }
            self.field.push(WireType::Len, &mut self.buf);
            self.buf.begin_len(1);
        }
    }

    /// Begin a tuple or record field: the field number comes from the
    /// field's index.
    pub fn tuple_value_begin(&mut self, index: &StreamIndex)
        requires
            index_ok(*index),
        ensures
            final(self).out() == old(self).out(),
            final(self).field_number() == index_number(*index),
            final(self).field_type() == FieldType::Any,
            final(self).is_packed() == old(self).is_packed(),
            final(self).is_prefixed() == old(self).is_prefixed(),
            !final(self).is_internally_tagged(),
            old(self).wf() ==> final(self).wf(),
    {
        self.field_begin();
        self.field.set(index);
    }

    /// End a tuple or record field.
    pub fn tuple_value_end(&mut self)
        ensures
            final(self).out() == old(self).out(),
            final(self).field_number() == old(self).field_number(),
            final(self).field_type() == old(self).field_type(),
            final(self).is_packed() == old(self).is_packed(),
            final(self).is_prefixed() == old(self).is_prefixed(),
            final(self).is_internally_tagged() == old(self).is_internally_tagged(),
            old(self).wf() ==> final(self).wf(),
    {
    }

    /// End a tuple or record: close its envelope, unless this is the root
    /// message, which is not wrapped.
    pub fn tuple_end(&mut self, index: Option<StreamIndex>)
        requires
            old(self).wf(),
            old(self).out().frames.len() > 0 ==> old(self).out().total_len() + 10 <= usize::MAX,
        ensures
            final(self).wf(),
            final(self).out() == end_model(old(self).out()),
            final(self).field_number() == old(self).field_number(),
            final(self).field_type() == old(self).field_type(),
            final(self).is_packed() == old(self).is_packed(),
            final(self).is_prefixed() == old(self).is_prefixed(),
            final(self).is_internally_tagged() == (index is Some
                || old(self).is_internally_tagged()),
    {
        self.internally_tagged_end(index);

        // The root message isn't wrapped
        if self.buf.depth() != 0 {
            self.buf.end_len();
        }
    }

    /// Begin a record with named fields; encoded exactly like a tuple.
    pub fn record_tuple_begin(&mut self, index: Option<StreamIndex>, num_entries: Option<usize>)
        requires
            old(self).wf(),
            opt_index_ok(index),
            old(self).out().total_len() + 32 <= usize::MAX,
        ensures
            final(self).wf(),
            ({
                let n0 = root_number(old(self).field_number(), old(self).field_type());
                let t0 = root_type(old(self).field_type());
                let armed = old(self).is_internally_tagged();
                let m1 = itb_model(old(self).out(), armed, n0);
                let n1 = itb_number(armed, n0, index);
                &&& final(self).out() == (if n1 != 0 {
                    begin_model(
                        append_model(m1, varint_bytes(field_tag(n1, WireType::Len))),
                        1u64,
                    )
                } else {
                    m1
                })
                &&& final(self).field_number() == 0
                &&& final(self).field_type() == itb_type(armed, t0, index)
            }),
            !final(self).is_internally_tagged(),
            final(self).is_packed() == old(self).is_packed(),
            final(self).is_prefixed() == old(self).is_prefixed(),
    {
        self.tuple_begin(index, num_entries)
    }

    /// Begin a record field; the label plays no part in the encoding.
    pub fn record_tuple_value_begin(&mut self, index: &StreamIndex)
        requires
            index_ok(*index),
        ensures
            final(self).out() == old(self).out(),
            final(self).field_number() == index_number(*index),
            final(self).field_type() == FieldType::Any,
            final(self).is_packed() == old(self).is_packed(),
            final(self).is_prefixed() == old(self).is_prefixed(),
            !final(self).is_internally_tagged(),
            old(self).wf() ==> final(self).wf(),
    {
        self.tuple_value_begin(index)
    }

    /// End a record field.
    pub fn record_tuple_value_end(&mut self)
        ensures
            final(self).out() == old(self).out(),
            final(self).field_number() == old(self).field_number(),
            final(self).field_type() == old(self).field_type(),
            final(self).is_packed() == old(self).is_packed(),
            final(self).is_prefixed() == old(self).is_prefixed(),
            final(self).is_internally_tagged() == old(self).is_internally_tagged(),
            old(self).wf() ==> final(self).wf(),
    {
        self.tuple_value_end()
    }

    /// End a record.
    pub fn record_tuple_end(&mut self, index: Option<StreamIndex>)
        requires
            old(self).wf(),
            old(self).out().frames.len() > 0 ==> old(self).out().total_len() + 10 <= usize::MAX,
        ensures
            final(self).wf(),
            final(self).out() == end_model(old(self).out()),
            final(self).field_number() == old(self).field_number(),
            final(self).field_type() == old(self).field_type(),
            final(self).is_packed() == old(self).is_packed(),
            final(self).is_prefixed() == old(self).is_prefixed(),
            final(self).is_internally_tagged() == (index is Some
                || old(self).is_internally_tagged()),
    {
        self.tuple_end(index)
    }
}


} // verus!
