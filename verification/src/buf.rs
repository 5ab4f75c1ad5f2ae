//! Buffering writer for protobuf.
//!
//! [`ProtoBufMut`] encodes a protobuf value in a single forward pass without
//! knowing the final size of length-prefixed fields upfront.  It keeps one
//! contiguous byte buffer together with a table of pending length-prefix
//! insertion points; the prefixes are materialized only when the frozen
//! [`ProtoBuf`] is read out.

use crate::raw::{
    field_tag, le_bytes, varint_byte_length, varint_bytes, zigzag, I32, I64, VarInt, WireType,
    lemma_varint_byte_length, lemma_varint_byte_length_bounds,
};
use vstd::prelude::*;
use vstd::slice::slice_index_get;

pub mod cursor;

pub use cursor::ProtoBufCursor;

verus! {

/// A pending length-prefix insertion point: `varint`, once resolved, is
/// rendered immediately before the buffer bytes that start at `start`.
pub ghost struct ChunkModel {
    pub varint: Option<u64>,
    pub start: int,
}

/// An open length-prefixed frame: the index of its chunk-table entry and the
/// per-frame user state.
pub ghost struct FrameModel<T> {
    pub chunk_idx: int,
    pub state: T,
}

/// The abstract state of a [`ProtoBufMut`] writer.
pub ghost struct WriterModel<T> {
    pub bytes: Seq<u8>,
    pub chunks: Seq<ChunkModel>,
    pub frames: Seq<FrameModel<T>>,
    pub root_state: T,
}

/// The abstract state of a frozen [`ProtoBuf`] message.
pub ghost struct BufModel {
    pub bytes: Seq<u8>,
    pub chunks: Seq<ChunkModel>,
}

/// The bytes a resolved chunk injects; an unresolved chunk injects nothing.
pub open spec fn opt_varint_bytes(v: Option<u64>) -> Seq<u8> {
    match v {
        Some(x) => varint_bytes(x),
        None => Seq::empty(),
    }
}

/// The number of bytes a resolved chunk injects.
pub open spec fn opt_varint_len(v: Option<u64>) -> int {
    match v {
        Some(x) => varint_byte_length(x),
        None => 0,
    }
}

/// The logical bytes of `(bytes, chunks)` from offset `from` on: the buffer
/// bytes with each chunk's resolved varint injected at its offset.
pub open spec fn rendered_from(bytes: Seq<u8>, chunks: Seq<ChunkModel>, from: int) -> Seq<u8>
    decreases chunks.len(),
{
    if chunks.len() == 0 {
        bytes.subrange(from, bytes.len() as int)
    } else {
        bytes.subrange(from, chunks[0].start) + opt_varint_bytes(chunks[0].varint)
            + rendered_from(bytes, chunks.skip(1), chunks[0].start)
    }
}

/// The total number of bytes injected by the chunks with index in `[lo, hi)`.
pub open spec fn injected_len(chunks: Seq<ChunkModel>, lo: int, hi: int) -> int
    decreases hi - lo,
{
    if lo >= hi || lo < 0 || hi > chunks.len() {
        0
    } else {
        opt_varint_len(chunks[lo].varint) + injected_len(chunks, lo + 1, hi)
    }
}

/// The chunk offsets are in nondecreasing order, and all lie between `from`
/// and the end of the byte buffer.
pub open spec fn chunks_wf(bytes: Seq<u8>, chunks: Seq<ChunkModel>, from: int) -> bool {
    &&& 0 <= from <= bytes.len()
    &&& forall|i: int|
        0 <= i < chunks.len() ==> from <= #[trigger] chunks[i].start <= bytes.len()
    &&& forall|i: int, j: int|
        0 <= i <= j < chunks.len() ==> #[trigger] chunks[i].start <= #[trigger] chunks[j].start
}

impl<T> WriterModel<T> {
    /// The length the rendered output would have if every chunk were already
    /// resolved as it stands.
    pub open spec fn total_len(self) -> int {
        self.bytes.len() + injected_len(self.chunks, 0, self.chunks.len() as int)
    }
}

impl BufModel {
    /// Chunk offsets are ordered and in bounds.
    pub open spec fn wf(self) -> bool {
        chunks_wf(self.bytes, self.chunks, 0)
    }

    /// The logical bytes of the message.
    pub open spec fn rendered(self) -> Seq<u8> {
        rendered_from(self.bytes, self.chunks, 0)
    }

    /// The length of the logical bytes, as buffer length plus injected
    /// prefix lengths.
    pub open spec fn total_len(self) -> int {
        self.bytes.len() + injected_len(self.chunks, 0, self.chunks.len() as int)
    }
}

/// Every injected length is nonnegative.
pub proof fn lemma_injected_len_nonneg(chunks: Seq<ChunkModel>, lo: int, hi: int)
    ensures
        injected_len(chunks, lo, hi) >= 0,
    decreases hi - lo,
{
    if !(lo >= hi || lo < 0 || hi > chunks.len()) {
        match chunks[lo].varint {
            Some(x) => lemma_varint_byte_length_bounds(x),
            None => (),
        }
        lemma_injected_len_nonneg(chunks, lo + 1, hi);
    }
}

/// Splitting the summation range splits the sum.
pub proof fn lemma_injected_len_split(chunks: Seq<ChunkModel>, lo: int, mid: int, hi: int)
    requires
        0 <= lo <= mid <= hi <= chunks.len(),
    ensures
        injected_len(chunks, lo, hi) == injected_len(chunks, lo, mid) + injected_len(
            chunks,
            mid,
            hi,
        ),
    decreases mid - lo,
{
    if lo < mid {
        lemma_injected_len_split(chunks, lo + 1, mid, hi);
    }
}

/// The sum depends only on the varints of the chunks in range.
pub proof fn lemma_injected_len_congruent(
    c1: Seq<ChunkModel>,
    c2: Seq<ChunkModel>,
    lo: int,
    hi: int,
)
    requires
        0 <= lo,
        hi <= c1.len(),
        hi <= c2.len(),
        forall|j: int| lo <= j < hi ==> #[trigger] c1[j].varint == c2[j].varint,
    ensures
        injected_len(c1, lo, hi) == injected_len(c2, lo, hi),
    decreases hi - lo,
{
    if lo < hi {
        lemma_injected_len_congruent(c1, c2, lo + 1, hi);
    }
}

/// Summing over a subrange equals summing over the extracted subrange.
pub proof fn lemma_injected_len_subrange(chunks: Seq<ChunkModel>, lo: int, hi: int)
    requires
        0 <= lo <= hi <= chunks.len(),
    ensures
        injected_len(chunks, lo, hi) == injected_len(
            chunks.subrange(lo, hi),
            0,
            hi - lo,
        ),
    decreases hi - lo,
{
    if lo < hi {
        lemma_injected_len_subrange(chunks, lo + 1, hi);
        assert(chunks.subrange(lo + 1, hi) =~= chunks.subrange(lo, hi).skip(1));
        lemma_injected_len_skip_one(chunks.subrange(lo, hi), hi - lo);
    }
}

/// Unfolding the sum over a skipped sequence.
proof fn lemma_injected_len_skip_one(chunks: Seq<ChunkModel>, hi: int)
    requires
        1 <= hi <= chunks.len(),
    ensures
        injected_len(chunks, 1, hi) == injected_len(chunks.skip(1), 0, hi - 1),
    decreases hi,
{
    lemma_injected_len_shift(chunks, 1, hi);
}

/// Shifting the range over `skip(k)`.
proof fn lemma_injected_len_shift(chunks: Seq<ChunkModel>, lo: int, hi: int)
    requires
        1 <= lo <= hi <= chunks.len(),
    ensures
        injected_len(chunks, lo, hi) == injected_len(chunks.skip(1), lo - 1, hi - 1),
    decreases hi - lo,
{
    if lo < hi {
        lemma_injected_len_shift(chunks, lo + 1, hi);
        assert(chunks.skip(1)[lo - 1] == chunks[lo]);
    }
}

/// The writer model after appending `b` to the byte buffer.
pub open spec fn append_model<T>(m: WriterModel<T>, b: Seq<u8>) -> WriterModel<T> {
    WriterModel { bytes: m.bytes + b, chunks: m.chunks, frames: m.frames, root_state: m.root_state }
}

/// The writer model after opening a deferred-length frame carrying `state`.
pub open spec fn begin_model<T>(m: WriterModel<T>, state: T) -> WriterModel<T> {
    WriterModel {
        bytes: m.bytes,
        chunks: m.chunks.push(ChunkModel { varint: None, start: m.bytes.len() as int }),
        frames: m.frames.push(FrameModel { chunk_idx: m.chunks.len() as int, state: state }),
        root_state: m.root_state,
    }
}

/// The length the innermost frame of `m` resolves to when it is closed: the
/// buffer bytes since its chunk entry plus every prefix injected after it.
pub open spec fn close_len<T>(m: WriterModel<T>) -> int {
    let f = m.frames.last();
    let start = m.chunks[f.chunk_idx].start;
    m.bytes.len() - start + injected_len(m.chunks, f.chunk_idx + 1, m.chunks.len() as int)
}

/// The writer model after closing the innermost deferred-length frame; with
/// no open frame the model is unchanged.
pub open spec fn end_model<T>(m: WriterModel<T>) -> WriterModel<T> {
    if m.frames.len() == 0 {
        m
    } else {
        let f = m.frames.last();
        let start = m.chunks[f.chunk_idx].start;
        WriterModel {
            bytes: m.bytes,
            chunks: m.chunks.update(
                f.chunk_idx,
                ChunkModel { varint: Some(close_len(m) as u64), start: start },
            ),
            frames: m.frames.drop_last(),
            root_state: m.root_state,
        }
    }
}

/// Each chunk injects at most 10 bytes.
pub proof fn lemma_injected_len_bound(chunks: Seq<ChunkModel>, lo: int, hi: int)
    ensures
        injected_len(chunks, lo, hi) <= 10 * (if hi - lo >= 0 {
            hi - lo
        } else {
            0
        }),
    decreases hi - lo,
{
    if !(lo >= hi || lo < 0 || hi > chunks.len()) {
        match chunks[lo].varint {
            Some(x) => lemma_varint_byte_length_bounds(x),
            None => (),
        }
        lemma_injected_len_bound(chunks, lo + 1, hi);
    }
}

/// Appending twice appends the concatenation.
pub proof fn lemma_append_assoc<T>(m: WriterModel<T>, a: Seq<u8>, b: Seq<u8>)
    ensures
        append_model(append_model(m, a), b) == append_model(m, a + b),
{
    assert((m.bytes + a) + b =~= m.bytes + (a + b));
}

/// Appending grows the total length by the appended bytes.
pub proof fn lemma_total_append<T>(m: WriterModel<T>, b: Seq<u8>)
    ensures
        append_model(m, b).total_len() == m.total_len() + b.len(),
{
}

/// Opening a frame leaves the total length unchanged.
pub proof fn lemma_total_begin<T>(m: WriterModel<T>, state: T)
    ensures
        begin_model(m, state).total_len() == m.total_len(),
{
    let c2 = begin_model(m, state).chunks;
    let n = m.chunks.len() as int;
    lemma_injected_len_split(c2, 0, n, n + 1);
    lemma_injected_len_congruent(c2, m.chunks, 0, n);
    assert(injected_len(c2, n, n + 1) == opt_varint_len(c2[n].varint) + injected_len(
        c2,
        n + 1,
        n + 1,
    ));
}

/// The rendered length is the buffer length plus all injected prefix
/// lengths.
pub proof fn lemma_rendered_len(bytes: Seq<u8>, chunks: Seq<ChunkModel>, from: int)
    requires
        chunks_wf(bytes, chunks, from),
    ensures
        rendered_from(bytes, chunks, from).len() == bytes.len() - from + injected_len(
            chunks,
            0,
            chunks.len() as int,
        ),
    decreases chunks.len(),
{
    if chunks.len() == 0 {
    } else {
        let c0 = chunks[0];
        let tail = chunks.skip(1);
        assert(chunks_wf(bytes, tail, c0.start)) by {
            assert(forall|i: int|
                0 <= i < tail.len() ==> #[trigger] tail[i].start == chunks[i + 1].start);
        }
        lemma_rendered_len(bytes, tail, c0.start);
        match c0.varint {
            Some(x) => lemma_varint_byte_length(x),
            None => (),
        }
        lemma_injected_len_shift(chunks, 1, chunks.len() as int);
    }
}

pub(crate) const APPROXIMATE_DEPTH: usize = 16;

#[derive(Debug, Clone, Copy)]
struct LenPrefixedChunk {
    // Written before the data that starts at `start`
    varint: Option<u64>,
    // The buffer offset the injected varint precedes
    start: usize,
}

impl View for LenPrefixedChunk {
    type V = ChunkModel;

    closed spec fn view(&self) -> ChunkModel {
        ChunkModel { varint: self.varint, start: self.start as int }
    }
}

#[derive(Debug)]
struct LenStackFrame<T> {
    len: usize,
    head: usize,
    chunk_idx: usize,
    state: T,
}

/// Buffering writer for protobuf, with per-frame state `T`.
///
/// The writer uses a stack to track the lengths of nested length-prefixed
/// fields.  Each frame in the stack carries its own instance of `T`.
#[derive(Debug)]
pub struct ProtoBufMut<T> {
    bytes: Vec<u8>,
    chunks: Vec<LenPrefixedChunk>,
    root_state: T,
    len_stack: Vec<LenStackFrame<T>>,
}

impl<T> View for ProtoBufMut<T> {
    type V = WriterModel<T>;

    closed spec fn view(&self) -> WriterModel<T> {
        WriterModel {
            bytes: self.bytes@,
            chunks: Seq::new(self.chunks@.len() as nat, |i: int| self.chunks@[i]@),
            frames: Seq::new(
                self.len_stack@.len() as nat,
                |i: int|
                    FrameModel {
                        chunk_idx: self.len_stack@[i].chunk_idx as int,
                        state: self.len_stack@[i].state,
                    },
            ),
            root_state: self.root_state,
        }
    }
}

/// The end of the chunk range that frame `i` accounts for: the next open
/// frame's chunk entry, or the end of the chunk table for the innermost
/// frame.
spec fn fr_upper<T>(fr: Seq<LenStackFrame<T>>, chunks_len: int, i: int) -> int {
    if i + 1 < fr.len() {
        fr[i + 1].chunk_idx as int
    } else {
        chunks_len
    }
}

/// Frame `i` accounts for precisely the buffer bytes and injected prefixes
/// between its own chunk entry and its head, and the head of an outer frame
/// sits at the chunk entry of the frame it encloses.
spec fn frame_ok<T>(
    bytes_len: int,
    chunks: Seq<ChunkModel>,
    fr: Seq<LenStackFrame<T>>,
    i: int,
) -> bool {
    let f = fr[i];
    &&& chunks[f.chunk_idx as int].start <= f.head <= bytes_len
    &&& (i + 1 < fr.len() ==> f.head == chunks[fr[i + 1].chunk_idx as int].start)
    &&& f.len == f.head - chunks[f.chunk_idx as int].start + injected_len(
        chunks,
        f.chunk_idx + 1,
        fr_upper(fr, chunks.len() as int, i),
    )
}

/// All open frames reference strictly increasing chunk entries, and each is
/// well accounted.
spec fn frames_ok<T>(bytes_len: int, chunks: Seq<ChunkModel>, fr: Seq<LenStackFrame<T>>) -> bool {
    &&& forall|i: int| 0 <= i < fr.len() ==> (#[trigger] fr[i].chunk_idx as int) < chunks.len()
    &&& forall|i: int, j: int|
        #![trigger fr[i].chunk_idx, fr[j].chunk_idx]
        0 <= i < j < fr.len() ==> fr[i].chunk_idx < fr[j].chunk_idx
    &&& forall|i: int| 0 <= i < fr.len() ==> #[trigger] frame_ok(bytes_len, chunks, fr, i)
}

impl<T> ProtoBufMut<T> {
    /// Well-formed writer: chunk offsets are ordered and in bounds, and the
    /// open frames' running lengths account for exactly the bytes and
    /// resolved prefixes written since their matching `begin_len`.
    pub closed spec fn wf(&self) -> bool {
        &&& chunks_wf(self.bytes@, self@.chunks, 0)
        &&& frames_ok(self.bytes@.len() as int, self@.chunks, self.len_stack@)
    }
}

/// Append every byte of `src` to `dst`.
fn extend_bytes(dst: &mut Vec<u8>, src: &[u8])
    ensures
        final(dst)@ == old(dst)@ + src@,
{
    let mut i: usize = 0;
    while i < src.len()
        invariant
            i <= src@.len(),
            dst@ == old(dst)@ + src@.take(i as int),
        decreases src@.len() - i,
    {
        dst.push(*slice_index_get(src, i));
        proof {
            assert(old(dst)@ + src@.take(i as int) + seq![src@[i as int]] =~= old(dst)@
                + src@.take(i + 1));
        }
        i = i + 1;
    }
    proof {
        assert(old(dst)@ + src@.take(src@.len() as int) =~= old(dst)@ + src@);
    }
}

impl<T> ProtoBufMut<T> {
    /// Create a new buffering writer, with initial state `state`.
    pub fn new(state: T) -> (r: Self)
        ensures
            r.wf(),
            r@.bytes == Seq::<u8>::empty(),
            r@.chunks == Seq::<ChunkModel>::empty(),
            r@.frames == Seq::<FrameModel<T>>::empty(),
            r@.root_state == state,
    {
        let r = ProtoBufMut {
            bytes: Vec::new(),
            chunks: Vec::new(),
            root_state: state,
            len_stack: Vec::with_capacity(APPROXIMATE_DEPTH),
        };
        proof {
            assert(r@.bytes =~= Seq::<u8>::empty());
            assert(r@.chunks =~= Seq::<ChunkModel>::empty());
            assert(r@.frames =~= Seq::<FrameModel<T>>::empty());
        }
        r
    }

    /// The number of bytes in the backing buffer.
    #[inline(always)]
    pub(crate) fn bytes_len(&self) -> (r: usize)
        ensures
            r == self@.bytes.len(),
    {
        self.bytes.len()
    }

    /// The number of chunk-table entries.
    #[inline(always)]
    pub(crate) fn chunks_len(&self) -> (r: usize)
        ensures
            r == self@.chunks.len(),
    {
        self.chunks.len()
    }

    /// The current depth of the length-prefixed stack.
    #[inline(always)]
    pub fn depth(&self) -> (r: usize)
        ensures
            r == self@.frames.len(),
    {
        self.len_stack.len()
    }

    /// Write a binary payload.
    pub fn push(&mut self, b: &[u8])
        requires
            old(self).wf(),
        ensures
            final(self).wf(),
            final(self)@ == append_model(old(self)@, b@),
    {
        extend_bytes(&mut self.bytes, b);
        proof {
            assert(self@.chunks =~= old(self)@.chunks);
            assert(self@.frames =~= old(self)@.frames);
            assert forall|i: int| 0 <= i < self.len_stack@.len() implies #[trigger] frame_ok(
                self.bytes@.len() as int,
                self@.chunks,
                self.len_stack@,
                i,
            ) by {
                assert(frame_ok(
                    old(self).bytes@.len() as int,
                    old(self)@.chunks,
                    old(self).len_stack@,
                    i,
                ));
            }
            assert(self@ == append_model(old(self)@, b@));
            assert(self.wf());
        }
    }

    /// Encode a value using variable-length encoding.
    #[inline(always)]
    pub fn push_varint(&mut self, v: VarInt)
        requires
            old(self).wf(),
        ensures
            final(self).wf(),
            final(self)@ == append_model(old(self)@, varint_bytes(v@)),
    {
        let bytes = v.fill_bytes();
        self.push(bytes.as_slice());
    }

    /// Encode a 64bit unsigned value using variable-length encoding.
    #[inline(always)]
    pub fn push_varint_uint64(&mut self, v: u64)
        requires
            old(self).wf(),
        ensures
            final(self).wf(),
            final(self)@ == append_model(old(self)@, varint_bytes(v)),
    {
        self.push_varint(VarInt::uint64(v));
    }

    /// Encode a 64bit signed value using variable-length encoding.
    #[inline(always)]
    pub fn push_varint_sint64(&mut self, v: i64)
        requires
            old(self).wf(),
        ensures
            final(self).wf(),
            final(self)@ == append_model(old(self)@, varint_bytes(v as u64)),
    {
        self.push_varint(VarInt::sint64(v));
    }

    /// Encode a 64bit signed value using variable-length zigzag encoding.
    #[inline(always)]
    pub fn push_varint_sint64z(&mut self, v: i64)
        requires
            old(self).wf(),
        ensures
            final(self).wf(),
            final(self)@ == append_model(old(self)@, varint_bytes(zigzag(v))),
    {
        self.push_varint(VarInt::sint64z(v));
    }

    /// Encode a boolean.
    #[inline(always)]
    pub fn push_varint_bool(&mut self, v: bool)
        requires
            old(self).wf(),
        ensures
            final(self).wf(),
            final(self)@ == append_model(old(self)@, varint_bytes(if v { 1u64 } else { 0u64 })),
    {
        self.push_varint(VarInt::bool(v));
    }

    /// Encode a 32bit enum variant tag.
    #[inline(always)]
    pub fn push_varint_enum32(&mut self, v: i32)
        requires
            old(self).wf(),
        ensures
            final(self).wf(),
            final(self)@ == append_model(old(self)@, varint_bytes(v as u64)),
    {
        self.push_varint(VarInt::enum32(v));
    }

    /// Encode 32bits.
    #[inline(always)]
    pub fn push_i32(&mut self, v: I32)
        requires
            old(self).wf(),
        ensures
            final(self).wf(),
            final(self)@ == append_model(old(self)@, le_bytes(v@ as int, 4)),
    {
        let bytes = v.to_bytes();
        self.push(bytes.as_slice());
    }

    /// Encode a 32bit unsigned value using fixed-length encoding.
    #[inline(always)]
    pub fn push_i32_fixed32(&mut self, v: u32)
        requires
            old(self).wf(),
        ensures
            final(self).wf(),
            final(self)@ == append_model(old(self)@, le_bytes(v as int, 4)),
    {
        self.push_i32(I32::fixed32(v));
    }

    /// Encode a 32bit signed value using fixed-length encoding.
    #[inline(always)]
    pub fn push_i32_sfixed32(&mut self, v: i32)
        requires
            old(self).wf(),
        ensures
            final(self).wf(),
            final(self)@ == append_model(old(self)@, le_bytes(v as u32 as int, 4)),
    {
        self.push_i32(I32::sfixed32(v));
    }

    /// Encode 64bits.
    #[inline(always)]
    pub fn push_i64(&mut self, v: I64)
        requires
            old(self).wf(),
        ensures
            final(self).wf(),
            final(self)@ == append_model(old(self)@, le_bytes(v@ as int, 8)),
    {
        let bytes = v.to_bytes();
        self.push(bytes.as_slice());
    }

    /// Encode a 64bit unsigned value using fixed-length encoding.
    #[inline(always)]
    pub fn push_i64_fixed64(&mut self, v: u64)
        requires
            old(self).wf(),
        ensures
            final(self).wf(),
            final(self)@ == append_model(old(self)@, le_bytes(v as int, 8)),
    {
        self.push_i64(I64::fixed64(v));
    }

    /// Encode a 64bit signed value using fixed-length encoding.
    #[inline(always)]
    pub fn push_i64_sfixed64(&mut self, v: i64)
        requires
            old(self).wf(),
        ensures
            final(self).wf(),
            final(self)@ == append_model(old(self)@, le_bytes(v as u64 as int, 8)),
    {
        self.push_i64(I64::sfixed64(v));
    }

    /// Encode the header for a field.
    #[inline(always)]
    pub fn push_field(&mut self, field_number: u64, wire_type: WireType)
        requires
            old(self).wf(),
        ensures
            final(self).wf(),
            final(self)@ == append_model(old(self)@, varint_bytes(field_tag(field_number, wire_type))),
    {
        self.push_varint(VarInt::field(field_number, wire_type));
    }

    /// Encode the header for a variable-length encoded field.
    #[inline(always)]
    pub fn push_field_varint(&mut self, field_number: u64)
        requires
            old(self).wf(),
        ensures
            final(self).wf(),
            final(self)@ == append_model(
                old(self)@,
                varint_bytes(field_tag(field_number, WireType::VarInt)),
            ),
    {
        self.push_field(field_number, WireType::VarInt);
    }

    /// Encode the header for a 64bit fixed-length encoded field.
    #[inline(always)]
    pub fn push_field_i64(&mut self, field_number: u64)
        requires
            old(self).wf(),
        ensures
            final(self).wf(),
            final(self)@ == append_model(old(self)@, varint_bytes(field_tag(field_number, WireType::I64))),
    {
        self.push_field(field_number, WireType::I64);
    }

    /// Encode the header for a 32bit fixed-length encoded field.
    #[inline(always)]
    pub fn push_field_i32(&mut self, field_number: u64)
        requires
            old(self).wf(),
        ensures
            final(self).wf(),
            final(self)@ == append_model(old(self)@, varint_bytes(field_tag(field_number, WireType::I32))),
    {
        self.push_field(field_number, WireType::I32);
    }

    /// Encode the header for a length-prefixed field.
    ///
    /// This method should be immediately followed by a call to
    /// [`ProtoBufMut::push_len_varint_uint64`] or [`ProtoBufMut::begin_len`].
    #[inline(always)]
    pub fn push_field_len(&mut self, field_number: u64)
        requires
            old(self).wf(),
        ensures
            final(self).wf(),
            final(self)@ == append_model(old(self)@, varint_bytes(field_tag(field_number, WireType::Len))),
    {
        self.push_field(field_number, WireType::Len);
    }

    /// Encode the length of a length-prefixed field.
    #[inline(always)]
    pub fn push_len_varint_uint64(&mut self, len: u64)
        requires
            old(self).wf(),
        ensures
            final(self).wf(),
            final(self)@ == append_model(old(self)@, varint_bytes(len)),
    {
        self.push_varint_uint64(len);
    }

    /// Reserve space for roughly `num_entries` more values.
    pub(crate) fn reserve(&mut self, num_entries: usize)
        requires
            old(self).wf(),
        ensures
            final(self).wf(),
            final(self)@ == old(self)@,
    {
        let scaled: usize = match num_entries.checked_mul(256) {
            Some(s) => s,
            None => usize::MAX,
        };
        let d = self.len_stack.len();
        let divisor: usize = if d < usize::MAX {
            d + 1
        } else {
            usize::MAX
        };
        self.bytes.reserve(scaled / divisor);
        proof {
            assert(self@.chunks =~= old(self)@.chunks);
            assert(self@.frames =~= old(self)@.frames);
        }
    }

    /// Reserve space for `num_bytes` more payload bytes.
    pub(crate) fn reserve_bytes(&mut self, num_bytes: usize)
        requires
            old(self).wf(),
        ensures
            final(self).wf(),
            final(self)@ == old(self)@,
    {
        self.bytes.reserve(num_bytes);
        proof {
            assert(self@.chunks =~= old(self)@.chunks);
            assert(self@.frames =~= old(self)@.frames);
        }
    }

    /// Begin a new length-prefixed value, where the length isn't known
    /// upfront.
    ///
    /// The method accepts a new instance of state `T` that will be
    /// associated with this value.  Once the value has been encoded, a call
    /// to [`ProtoBufMut::end_len`] completes it.
    #[verifier::rlimit(100)]
    pub fn begin_len(&mut self, state: T)
        requires
            old(self).wf(),
            old(self)@.total_len() <= usize::MAX,
        ensures
            final(self).wf(),
            final(self)@ == begin_model(old(self)@, state),
    {
        let bytes_len = self.bytes.len();
        let n = self.len_stack.len();
        // If there is an active frame, track all bytes written since the
        // last frame boundary in its running length, and move its head up
        // to the new boundary.
        if n > 0 {
            proof {
                let chunks = self@.chunks;
                let blen = self.bytes@.len() as int;
                assert(frame_ok(blen, chunks, self.len_stack@, n - 1));
                let f = self.len_stack@[n - 1];
                lemma_injected_len_nonneg(chunks, f.chunk_idx + 1, chunks.len() as int);
                lemma_injected_len_nonneg(chunks, 0, f.chunk_idx + 1);
                lemma_injected_len_split(chunks, 0, f.chunk_idx + 1, chunks.len() as int);
            }
            let fr = &mut self.len_stack[n - 1];
            fr.len = fr.len + (bytes_len - fr.head);
            fr.head = bytes_len;
        }
        // Push the frame that tracks this field's length, and the chunk
        // entry that will carry the length once it is known.
        self.len_stack.push(
            LenStackFrame { len: 0, head: bytes_len, chunk_idx: self.chunks.len(), state },
        );
        self.chunks.push(LenPrefixedChunk { varint: None, start: bytes_len });
        proof {
            let pre = old(self)@;
            let ofr = old(self).len_stack@;
            assert(self@.chunks =~= pre.chunks.push(
                ChunkModel { varint: None, start: pre.bytes.len() as int },
            ));
            assert(self@.frames =~= pre.frames.push(
                FrameModel { chunk_idx: pre.chunks.len() as int, state: state },
            ));
            let chunks = self@.chunks;
            let fr = self.len_stack@;
            let m = fr.len() as int;
            let blen = self.bytes@.len() as int;
            assert forall|i: int| 0 <= i < m implies #[trigger] frame_ok(blen, chunks, fr, i) by {
                if i == m - 1 {
                    assert(injected_len(chunks, fr[i].chunk_idx + 1, chunks.len() as int) == 0);
                } else {
                    assert(frame_ok(pre.bytes.len() as int, pre.chunks, ofr, i));
                    lemma_injected_len_congruent(
                        chunks,
                        pre.chunks,
                        fr[i].chunk_idx + 1,
                        fr_upper(fr, chunks.len() as int, i),
                    );
                }
            }
            assert(self@ == begin_model(old(self)@, state));
            assert(self.wf());
        }
    }

    /// Get the state at the current depth.
    #[verifier::rlimit(100)]
    pub fn state_mut(&mut self) -> (r: &mut T)
        ensures
            old(self)@.frames.len() > 0 ==> {
                &&& *r == old(self)@.frames.last().state
                &&& final(self)@.frames =~= old(self)@.frames.update(
                    old(self)@.frames.len() - 1,
                    FrameModel {
                        chunk_idx: old(self)@.frames.last().chunk_idx,
                        state: *final(r),
                    },
                )
                &&& final(self)@.root_state == old(self)@.root_state
            },
            old(self)@.frames.len() == 0 ==> {
                &&& *r == old(self)@.root_state
                &&& final(self)@.frames =~= old(self)@.frames
                &&& final(self)@.root_state == *final(r)
            },
            final(self)@.bytes =~= old(self)@.bytes,
            final(self)@.chunks =~= old(self)@.chunks,
            old(self).wf() ==> final(self).wf(),
    {
        let n = self.len_stack.len();
        if n > 0 {
            proof {
                if old(self).wf() {
                    let blen = self.bytes@.len() as int;
                    let chunks = self@.chunks;
                    let fr = self.len_stack@;
                    assert forall|st: T| #[trigger] frames_ok(
                        blen,
                        chunks,
                        fr.update(
                            n - 1,
                            LenStackFrame {
                                len: fr[n - 1].len,
                                head: fr[n - 1].head,
                                chunk_idx: fr[n - 1].chunk_idx,
                                state: st,
                            },
                        ),
                    ) by {
                        let fr2 = fr.update(
                            n - 1,
                            LenStackFrame {
                                len: fr[n - 1].len,
                                head: fr[n - 1].head,
                                chunk_idx: fr[n - 1].chunk_idx,
                                state: st,
                            },
                        );
                        assert forall|i: int| 0 <= i < fr2.len() implies #[trigger] frame_ok(
                            blen,
                            chunks,
                            fr2,
                            i,
                        ) by {
                            assert(frame_ok(blen, chunks, fr, i));
                            assert(fr_upper(fr2, chunks.len() as int, i) == fr_upper(
                                fr,
                                chunks.len() as int,
                                i,
                            ));
                        }
                    }
                }
            }
            &mut self.len_stack[n - 1].state
        } else {
            &mut self.root_state
        }
    }

    /// Complete a length-prefixed value, where the length wasn't known
    /// upfront.
    ///
    /// The resolved length prefix is exactly the number of logical bytes
    /// written since the matching [`ProtoBufMut::begin_len`], resolved inner
    /// prefixes included.  With no open frame the call is a defensive no-op.
    #[verifier::rlimit(100)]
    pub fn end_len(&mut self)
        requires
            old(self).wf(),
            old(self)@.frames.len() > 0 ==> old(self)@.total_len() + 10 <= usize::MAX,
        ensures
            final(self).wf(),
            final(self)@ == end_model(old(self)@),
            old(self)@.frames.len() > 0 ==> close_len(old(self)@) == rendered_from(
                old(self)@.bytes,
                old(self)@.chunks.skip(old(self)@.frames.last().chunk_idx + 1),
                old(self)@.chunks[old(self)@.frames.last().chunk_idx].start,
            ).len(),
    {
        proof {
            let pre = old(self)@;
            let ofr = old(self).len_stack@;
            if pre.frames.len() > 0 {
                let n = ofr.len() as int;
                assert(frame_ok(pre.bytes.len() as int, pre.chunks, ofr, n - 1));
                let f = pre.frames.last();
                let ci = f.chunk_idx;
                lemma_injected_len_nonneg(pre.chunks, ci + 1, pre.chunks.len() as int);
                lemma_injected_len_nonneg(pre.chunks, 0, ci + 1);
                lemma_injected_len_split(pre.chunks, 0, ci + 1, pre.chunks.len() as int);
            }
        }
        if let Some(frame) = self.len_stack.pop() {
            // Any bytes after the frame's head are not yet accounted for.
            let len = frame.len + (self.bytes.len() - frame.head);
            // Resolve the varint value in the frame's chunk entry.
            let c = &mut self.chunks[frame.chunk_idx];
            c.varint = Some(len as u64);
            proof {
                let pre = old(self)@;
                let f = pre.frames.last();
                let start = pre.chunks[f.chunk_idx].start;
                let resolved = pre.bytes.len() - start + injected_len(
                    pre.chunks,
                    f.chunk_idx + 1,
                    pre.chunks.len() as int,
                );
                assert(len == resolved);
                assert(self@.chunks =~= pre.chunks.update(
                    f.chunk_idx,
                    ChunkModel { varint: Some(resolved as u64), start: start },
                ));
                assert(self@.frames =~= pre.frames.drop_last());
                // The resolved value is the rendered length of the frame's
                // span.
                let suffix = pre.chunks.skip(f.chunk_idx + 1);
                assert(chunks_wf(pre.bytes, suffix, start)) by {
                    let base = f.chunk_idx + 1;
                    assert(forall|i: int|
                        0 <= i < suffix.len() ==> #[trigger] suffix[i].start == pre.chunks[i
                            + base].start);
                }
                lemma_rendered_len(pre.bytes, suffix, start);
                lemma_injected_len_subrange(pre.chunks, f.chunk_idx + 1, pre.chunks.len() as int);
                assert(suffix =~= pre.chunks.subrange(f.chunk_idx + 1, pre.chunks.len() as int));
                lemma_varint_byte_length_bounds(resolved as u64);
            }
            // If there is a parent frame, account for this field's body and
            // its length prefix in the parent, and move its head up.
            let m = self.len_stack.len();
            if m > 0 {
                let vlen = VarInt::uint64(len as u64).len();
                let bytes_len = self.bytes.len();
                proof {
                    let pre = old(self)@;
                    let ofr = old(self).len_stack@;
                    let n = ofr.len() as int;
                    assert(frame_ok(pre.bytes.len() as int, pre.chunks, ofr, n - 2));
                    assert(ofr[n - 2].chunk_idx < ofr[n - 1].chunk_idx);
                    let f = pre.frames.last();
                    let cip = ofr[n - 2].chunk_idx as int;
                    let cif = f.chunk_idx;
                    let plen = pre.chunks.len() as int;
                    // The parent's running length plus this field's body and
                    // prefix stays within the (pre-state) total plus one
                    // prefix length.
                    lemma_injected_len_nonneg(pre.chunks, 0, cip + 1);
                    lemma_injected_len_nonneg(pre.chunks, cif, cif + 1);
                    lemma_injected_len_split(pre.chunks, 0, cip + 1, plen);
                    lemma_injected_len_split(pre.chunks, cip + 1, cif, plen);
                    lemma_injected_len_split(pre.chunks, cif, cif + 1, plen);
                }
                let fr = &mut self.len_stack[m - 1];
                fr.len = fr.len + (len + vlen);
                fr.head = bytes_len;
            }
            proof {
                let pre = old(self)@;
                let ofr = old(self).len_stack@;
                let n = ofr.len() as int;
                let chunks = self@.chunks;
                let fr = self.len_stack@;
                let mm = fr.len() as int;
                let blen = self.bytes@.len() as int;
                let fv = pre.frames.last();
                let cif = fv.chunk_idx;
                assert forall|i: int| 0 <= i < mm implies #[trigger] frame_ok(
                    blen,
                    chunks,
                    fr,
                    i,
                ) by {
                    assert(frame_ok(pre.bytes.len() as int, pre.chunks, ofr, i));
                    if i < mm - 1 {
                        assert(ofr[i + 1].chunk_idx < ofr[n - 1].chunk_idx);
                        lemma_injected_len_congruent(
                            chunks,
                            pre.chunks,
                            fr[i].chunk_idx + 1,
                            fr_upper(fr, chunks.len() as int, i),
                        );
                    } else {
                        // The parent becomes the innermost frame: its range
                        // now runs to the end of the chunk table and picks
                        // up the just-resolved prefix.
                        let cip = ofr[i].chunk_idx as int;
                        assert(ofr[i].chunk_idx < ofr[n - 1].chunk_idx);
                        lemma_injected_len_split(chunks, cip + 1, cif, chunks.len() as int);
                        lemma_injected_len_split(chunks, cif, cif + 1, chunks.len() as int);
                        lemma_injected_len_congruent(chunks, pre.chunks, cip + 1, cif);
                        lemma_injected_len_congruent(
                            chunks,
                            pre.chunks,
                            cif + 1,
                            chunks.len() as int,
                        );
                        assert(injected_len(chunks, cif, cif + 1) == opt_varint_len(
                            chunks[cif].varint,
                        ));
                    }
                }
                assert(self@.chunks =~= end_model(old(self)@).chunks);
                assert(self@.frames =~= end_model(old(self)@).frames);
                assert(self@ == end_model(old(self)@));
                assert(self.wf());
            }
        }
    }

    /// Complete the writer, returning an immutable buffer containing the
    /// encoded protobuf payload.
    #[inline(always)]
    pub fn freeze(self) -> (r: ProtoBuf)
        requires
            self.wf(),
        ensures
            r@.bytes == self@.bytes,
            r@.chunks == self@.chunks,
            r@.wf(),
    {
        ProtoBuf { bytes: self.bytes, chunks: self.chunks }
    }
}

/// An encoded protobuf value.
///
/// A `ProtoBuf` holds the byte buffer and the resolved length-prefix chunk
/// table produced by a writer; it can be rendered to a contiguous buffer or
/// read out chunk by chunk.
#[derive(Debug, Clone)]
pub struct ProtoBuf {
    bytes: Vec<u8>,
    chunks: Vec<LenPrefixedChunk>,
}

impl View for ProtoBuf {
    type V = BufModel;

    closed spec fn view(&self) -> BufModel {
        BufModel {
            bytes: self.bytes@,
            chunks: Seq::new(self.chunks@.len() as nat, |i: int| self.chunks@[i]@),
        }
    }
}

impl ProtoBuf {
    /// Treat a buffer as a pre-encoded message.
    ///
    /// No validation is performed on the given buffer; it's expected to
    /// already contain a valid message.
    pub fn pre_encoded(buf: Vec<u8>) -> (r: Self)
        ensures
            r@.bytes == buf@,
            r@.chunks == Seq::<ChunkModel>::empty(),
            r@.wf(),
            r@.rendered() == buf@,
    {
        let r = ProtoBuf { bytes: buf, chunks: Vec::new() };
        proof {
            assert(r@.chunks =~= Seq::<ChunkModel>::empty());
            assert(r@.rendered() =~= r@.bytes);
        }
        r
    }

    /// Get the length in bytes of the encoded payload.
    pub fn len(&self) -> (r: usize)
        requires
            self@.wf(),
            self@.total_len() <= usize::MAX,
        ensures
            r == self@.rendered().len(),
    {
        let ghost chunks = self@.chunks;
        let mut total: usize = self.bytes.len();
        let mut i: usize = 0;
        proof {
            lemma_rendered_len(self@.bytes, chunks, 0);
        }
        while i < self.chunks.len()
            invariant
                self@.wf(),
                self@.total_len() <= usize::MAX,
                chunks == self@.chunks,
                i <= self.chunks@.len(),
                total == self@.bytes.len() + injected_len(chunks, 0, i as int),
            decreases self.chunks@.len() - i,
        {
            proof {
                lemma_injected_len_split(chunks, 0, i as int, i + 1);
                lemma_injected_len_split(chunks, 0, i + 1, chunks.len() as int);
                lemma_injected_len_nonneg(chunks, i + 1, chunks.len() as int);
                assert(injected_len(chunks, i as int, i + 1) == opt_varint_len(
                    chunks[i as int].varint,
                )) by {
                    assert(injected_len(chunks, i + 1, i + 1) == 0);
                }
            }
            let c = self.chunks[i];
            if let Some(v) = c.varint {
                let vi = VarInt::uint64(v);
                total = total + vi.len();
            }
            i = i + 1;
        }
        total
    }

    /// Get the payload as a contiguous buffer.
    pub fn to_vec(&self) -> (r: Vec<u8>)
        requires
            self@.wf(),
        ensures
            r@ == self@.rendered(),
    {
        let ghost chunks = self@.chunks;
        let mut out: Vec<u8> = Vec::new();
        let mut start: usize = 0;
        let mut i: usize = 0;
        proof {
            assert(chunks.skip(0) =~= chunks);
            assert(Seq::<u8>::empty() + self@.rendered() =~= self@.rendered());
        }
        while i < self.chunks.len()
            invariant
                self@.wf(),
                chunks == self@.chunks,
                i <= self.chunks@.len(),
                i == 0 ==> start == 0,
                i > 0 ==> start as int == chunks[i - 1].start,
                start <= self@.bytes.len(),
                self@.rendered() == out@ + rendered_from(
                    self@.bytes,
                    chunks.skip(i as int),
                    start as int,
                ),
            decreases self.chunks@.len() - i,
        {
            let c = self.chunks[i];
            proof {
                assert(chunks[i as int].start == c.start as int);
            }
            let piece = vstd::slice::slice_subrange(self.bytes.as_slice(), start, c.start);
            extend_bytes(&mut out, piece);
            if let Some(v) = c.varint {
                let vb = VarInt::uint64(v).fill_bytes();
                extend_bytes(&mut out, vb.as_slice());
            }
            proof {
                let tail = chunks.skip(i as int);
                assert(tail[0] == chunks[i as int]);
                assert(tail.skip(1) =~= chunks.skip(i as int + 1));
                assert(self@.rendered() =~= out@ + rendered_from(
                    self@.bytes,
                    chunks.skip(i as int + 1),
                    chunks[i as int].start,
                ));
            }
            start = c.start;
            i = i + 1;
        }
        let tail = vstd::slice::slice_subrange(self.bytes.as_slice(), start, self.bytes.len());
        extend_bytes(&mut out, tail);
        proof {
            assert(out@ =~= self@.rendered());
        }
        out
    }

    /// Convert the payload into a reader that will yield its contents
    /// without copying them first.
    pub fn into_cursor(self) -> (c: ProtoBufCursor)
        requires
            self@.wf(),
            self@.total_len() <= usize::MAX,
        ensures
            c.wf(),
            c@ == self@.rendered(),
    {
        let remaining = self.len();
        let ProtoBuf { bytes, chunks } = self;
        ProtoBufCursor::new(bytes, chunks, remaining)
    }
}

/// The reported length of an encoded message equals the length of the
/// contiguous buffer it renders to: the rendered bytes are exactly the
/// buffer bytes plus every resolved prefix.
pub proof fn lemma_len_matches_rendered(m: BufModel)
    requires
        m.wf(),
    ensures
        m.rendered().len() == m.total_len(),
{
    lemma_rendered_len(m.bytes, m.chunks, 0);
}

/// Wrapping already-rendered bytes as a pre-encoded message and rendering
/// again yields byte-identical output.
pub proof fn lemma_pre_encoded_roundtrip(bytes: Seq<u8>)
    ensures
        (BufModel { bytes: bytes, chunks: Seq::<ChunkModel>::empty() }).rendered() == bytes,
{
    assert((BufModel { bytes: bytes, chunks: Seq::<ChunkModel>::empty() }).rendered()
        =~= bytes);
}

} // verus!
