//! Pull-mode reader over an encoded message.
//!
//! [`ProtoBufCursor`] yields the logical bytes of a frozen message as a
//! sequence of contiguous chunks, materializing each resolved length prefix
//! on the fly instead of copying the payload into one buffer first.

use super::{
    chunks_wf, opt_varint_bytes, rendered_from, ChunkModel, LenPrefixedChunk,
};
use crate::raw::{varint_bytes, VarInt};
use vstd::prelude::*;
use vstd::slice::slice_subrange;

verus! {

#[derive(Clone, Copy)]
enum NextChunk {
    Chunk(usize, LenPrefixedChunk),
    VarInt(usize, u64),
    Trailing(usize),
    Done,
}

enum CurrentChunk {
    Empty,
    Bytes { lo: usize, hi: usize },
    VarInt { buf: Vec<u8>, pos: usize },
}

/// A reader over an encoded protobuf message that yields its logical bytes
/// chunk by chunk.
pub struct ProtoBufCursor {
    bytes: Vec<u8>,
    chunks: Vec<LenPrefixedChunk>,
    // Index of the next chunk-table entry to feed into the state machine
    head: usize,
    // Typically queried in loops, so it's good to have this value readily
    // available
    remaining: usize,
    next: NextChunk,
    current: CurrentChunk,
}

impl View for ProtoBufCursor {
    type V = Seq<u8>;

    /// The logical bytes left to read.
    closed spec fn view(&self) -> Seq<u8> {
        self.cur_view() + self.next_view()
    }
}

impl ProtoBufCursor {
    /// The chunk-table entries, abstractly.
    closed spec fn cm(&self) -> Seq<ChunkModel> {
        Seq::new(self.chunks@.len() as nat, |i: int| self.chunks@[i]@)
    }

    /// The chunk-table entries the state machine has not consumed yet.
    closed spec fn tail(&self) -> Seq<ChunkModel> {
        self.cm().skip(self.head as int)
    }

    /// The bytes of the chunk currently exposed.
    closed spec fn cur_view(&self) -> Seq<u8> {
        match self.current {
            CurrentChunk::Empty => Seq::empty(),
            CurrentChunk::Bytes { lo, hi } => self.bytes@.subrange(lo as int, hi as int),
            CurrentChunk::VarInt { buf, pos } => buf@.skip(pos as int),
        }
    }

    /// The bytes of everything after the current chunk.
    closed spec fn next_view(&self) -> Seq<u8> {
        match self.next {
            NextChunk::Chunk(from, c) => self.bytes@.subrange(from as int, c@.start)
                + opt_varint_bytes(c@.varint) + rendered_from(self.bytes@, self.tail(), c@.start),
            NextChunk::VarInt(to, v) => varint_bytes(v) + rendered_from(
                self.bytes@,
                self.tail(),
                to as int,
            ),
            NextChunk::Trailing(from) => self.bytes@.subrange(
                from as int,
                self.bytes@.len() as int,
            ),
            NextChunk::Done => Seq::empty(),
        }
    }

    /// Structural soundness of the state machine: every offset it holds is
    /// in bounds and the unconsumed chunk entries lie beyond the position it
    /// has reached.
    closed spec fn wf_machine(&self) -> bool {
        &&& self.head <= self.chunks@.len()
        &&& match self.current {
            CurrentChunk::Empty => true,
            CurrentChunk::Bytes { lo, hi } => lo <= hi <= self.bytes@.len(),
            CurrentChunk::VarInt { buf, pos } => pos <= buf@.len(),
        }
        &&& match self.next {
            NextChunk::Chunk(from, c) => from as int <= c@.start && chunks_wf(
                self.bytes@,
                self.tail(),
                c@.start,
            ),
            NextChunk::VarInt(to, v) => chunks_wf(self.bytes@, self.tail(), to as int),
            NextChunk::Trailing(from) => from <= self.bytes@.len(),
            NextChunk::Done => true,
        }
    }

    /// A well-formed cursor also keeps `remaining` in sync with the bytes
    /// left, and never exposes an empty chunk unless it is done.
    pub closed spec fn wf(&self) -> bool {
        &&& self.wf_machine()
        &&& self.remaining == self@.len()
        &&& self.cur_view().len() == 0 ==> self.next is Done
    }

    /// A bound on the state transitions the machine can still make.
    closed spec fn steps(&self) -> int {
        let k = self.cm().len() - self.head;
        match self.next {
            NextChunk::Done => 0,
            NextChunk::Trailing(_) => 1,
            NextChunk::VarInt(_, _) => 2 + 3 * k,
            NextChunk::Chunk(_, _) => 3 + 3 * k,
        }
    }

    /// Build a cursor over `(bytes, chunks)` whose rendered length is
    /// `remaining`.
    pub(super) fn new(bytes: Vec<u8>, chunks: Vec<LenPrefixedChunk>, remaining: usize) -> (r: Self)
        requires
            chunks_wf(
                bytes@,
                Seq::new(chunks@.len() as nat, |i: int| chunks@[i]@),
                0,
            ),
            remaining == rendered_from(
                bytes@,
                Seq::new(chunks@.len() as nat, |i: int| chunks@[i]@),
                0,
            ).len(),
        ensures
            r.wf(),
            r@ == rendered_from(
                bytes@,
                Seq::new(chunks@.len() as nat, |i: int| chunks@[i]@),
                0,
            ),
    {
        let ghost cm = Seq::new(chunks@.len() as nat, |i: int| chunks@[i]@);
        let mut cursor = if chunks.len() > 0 {
            let c0 = chunks[0];
            ProtoBufCursor {
                bytes,
                chunks,
                head: 1,
                remaining,
                next: NextChunk::Chunk(0, c0),
                current: CurrentChunk::Empty,
            }
        } else {
            ProtoBufCursor {
                bytes,
                chunks,
                head: 0,
                remaining,
                next: NextChunk::Trailing(0),
                current: CurrentChunk::Empty,
            }
        };
        proof {
            assert(cursor.cm() =~= cm);
            if cm.len() > 0 {
                assert(cursor.tail() =~= cm.skip(1));
                assert(cursor.next_view() =~= rendered_from(cursor.bytes@, cm, 0)) by {
                    assert(cm[0] == cursor.chunks@[0]@);
                    assert(rendered_from(cursor.bytes@, cm, 0) == cursor.bytes@.subrange(
                        0,
                        cm[0].start,
                    ) + opt_varint_bytes(cm[0].varint) + rendered_from(
                        cursor.bytes@,
                        cm.skip(1),
                        cm[0].start,
                    ));
                }
            } else {
                assert(cursor.tail() =~= cm);
                assert(cursor.next_view() =~= rendered_from(cursor.bytes@, cm, 0));
            }
            assert(cursor@ =~= cursor.next_view());
        }
        cursor.skip_empty();
        cursor
    }

    /// The number of bytes in the chunk currently exposed.
    fn cur_len(&self) -> (r: usize)
        requires
            self.wf_machine(),
        ensures
            r == self.cur_view().len(),
    {
        match &self.current {
            CurrentChunk::Empty => 0,
            CurrentChunk::Bytes { lo, hi } => *hi - *lo,
            CurrentChunk::VarInt { buf, pos } => buf.len() - *pos,
        }
    }

    /// Drop the current chunk and expose the next one.  Returns false only
    /// if the machine was already done.
    fn move_next(&mut self) -> (r: bool)
        requires
            old(self).wf_machine(),
        ensures
            final(self).wf_machine(),
            final(self).bytes@ == old(self).bytes@,
            final(self).remaining == old(self).remaining,
            final(self).cur_view() + final(self).next_view() == old(self).next_view(),
            r == !(old(self).next is Done),
            !(old(self).next is Done) ==> final(self).steps() < old(self).steps(),
            old(self).next is Done ==> final(self).steps() == 0 && final(self).cur_view()
                =~= Seq::<u8>::empty() && final(self).next is Done,
    {
        match self.next {
            NextChunk::Chunk(from, chunk) => {
                let to = chunk.start;
                self.current = CurrentChunk::Bytes { lo: from, hi: to };
                if let Some(varint) = chunk.varint {
                    self.next = NextChunk::VarInt(to, varint);
                    proof {
                        assert(self.cur_view() + self.next_view() =~= old(self).next_view());
                    }
                } else {
                    self.step_iterator(to);
                    proof {
                        assert(self.cur_view() + self.next_view() =~= old(self).next_view());
                    }
                }
                true
            },
            NextChunk::VarInt(to, varint) => {
                let vb = VarInt::uint64(varint).fill_bytes();
                self.current = CurrentChunk::VarInt { buf: vb, pos: 0 };
                self.step_iterator(to);
                proof {
                    assert(self.cur_view() =~= varint_bytes(varint));
                    assert(self.cur_view() + self.next_view() =~= old(self).next_view());
                }
                true
            },
            NextChunk::Trailing(from) => {
                self.current = CurrentChunk::Bytes { lo: from, hi: self.bytes.len() };
                self.next = NextChunk::Done;
                proof {
                    assert(self.cur_view() + self.next_view() =~= old(self).next_view());
                }
                true
            },
            NextChunk::Done => {
                self.current = CurrentChunk::Empty;
                proof {
                    assert(self.cur_view() + self.next_view() =~= old(self).next_view());
                }
                false
            },
        }
    }

    /// Pull the next chunk entry into the state machine, continuing from
    /// buffer offset `to`.
    fn step_iterator(&mut self, to: usize)
        requires
            old(self).wf_machine(),
            to <= old(self).bytes@.len(),
            chunks_wf(old(self).bytes@, old(self).tail(), to as int),
        ensures
            final(self).bytes@ == old(self).bytes@,
            final(self).remaining == old(self).remaining,
            final(self).current == old(self).current,
            final(self).wf_machine(),
            final(self).cur_view() == old(self).cur_view(),
            final(self).next_view() =~= rendered_from(
                old(self).bytes@,
                old(self).tail(),
                to as int,
            ),
            final(self).steps() <= 1 + 3 * (old(self).cm().len() - old(self).head),
            final(self).steps() >= 0,
    {
        let ghost pre = *old(self);
        if self.head < self.chunks.len() {
            let c2 = self.chunks[self.head];
            self.head = self.head + 1;
            self.next = NextChunk::Chunk(to, c2);
            proof {
                assert(self.tail() =~= pre.tail().skip(1));
                assert(pre.tail()[0] == c2@);
                assert(self.next_view() =~= rendered_from(pre.bytes@, pre.tail(), to as int));
            }
        } else {
            self.next = NextChunk::Trailing(to);
            proof {
                assert(pre.tail().len() == 0);
                assert(self.tail() =~= pre.tail());
                assert(self.next_view() =~= rendered_from(pre.bytes@, pre.tail(), to as int));
            }
        }
    }

    /// Roll the machine forward until it exposes a nonempty chunk or is
    /// done.
    fn skip_empty(&mut self)
        requires
            old(self).wf_machine(),
            old(self).remaining == old(self)@.len(),
        ensures
            final(self).wf(),
            final(self)@ == old(self)@,
            final(self).bytes@ == old(self).bytes@,
    {
        loop
            invariant
                self.wf_machine(),
                self.remaining == self@.len(),
                self@ == old(self)@,
                self.bytes@ == old(self).bytes@,
                self.steps() >= 0,
            decreases self.steps(),
        {
            if self.cur_len() > 0 {
                return ;
            }
            proof {
                assert(self@ =~= self.next_view());
            }
            if !self.move_next() {
                return ;
            }
        }
    }

    /// Get the next contiguous chunk of data in the message.
    ///
    /// The size of chunks will depend on how the message was originally
    /// encoded.  Messages produced from streams of values of unknown size
    /// will produce smaller chunks.  The chunk is empty exactly when the
    /// cursor is exhausted.
    pub fn chunk(&self) -> (r: &[u8])
        requires
            self.wf(),
        ensures
            r@ == self@.take(r@.len() as int),
            r@.len() <= self@.len(),
            r@.len() == 0 <==> self@.len() == 0,
    {
        let r: &[u8] = match &self.current {
            CurrentChunk::Empty => slice_subrange(self.bytes.as_slice(), 0, 0),
            CurrentChunk::Bytes { lo, hi } => slice_subrange(self.bytes.as_slice(), *lo, *hi),
            CurrentChunk::VarInt { buf, pos } => slice_subrange(buf.as_slice(), *pos, buf.len()),
        };
        proof {
            assert(r@ =~= self.cur_view());
            assert(r@ =~= self@.take(r@.len() as int));
        }
        r
    }

    /// The number of bytes left to read.
    #[inline(always)]
    pub fn remaining(&self) -> (r: usize)
        requires
            self.wf(),
        ensures
            r == self@.len(),
    {
        self.remaining
    }

    /// Advance the cursor by `cnt` bytes, which must not exceed
    /// [`Self::remaining`].
    pub fn advance(&mut self, cnt: usize)
        requires
            old(self).wf(),
            cnt <= old(self)@.len(),
        ensures
            final(self).wf(),
            final(self)@ == old(self)@.skip(cnt as int),
    {
        self.remaining = self.remaining - cnt;
        let mut k = cnt;
        loop
            invariant
                self.wf_machine(),
                k <= cnt,
                cnt <= old(self)@.len(),
                k <= self@.len(),
                self.remaining == self@.len() - k,
                self@ =~= old(self)@.skip((cnt - k) as int),
                self.bytes@ == old(self).bytes@,
                self.steps() >= 0,
            decreases k, self.steps(),
        {
            let ghost view0 = self@;
            let ghost kpre = k;
            // Consume what we can from the current chunk; we may advance
            // past its end and into the next one.
            let take: usize;
            match &mut self.current {
                CurrentChunk::Empty => {
                    take = 0;
                },
                CurrentChunk::Bytes { lo, hi } => {
                    let rem = *hi - *lo;
                    take = if k < rem {
                        k
                    } else {
                        rem
                    };
                    *lo = *lo + take;
                },
                CurrentChunk::VarInt { buf, pos } => {
                    let rem = buf.len() - *pos;
                    take = if k < rem {
                        k
                    } else {
                        rem
                    };
                    *pos = *pos + take;
                },
            }
            k = k - take;
            proof {
                assert(self@ =~= view0.skip(take as int));
                vstd::seq_lib::lemma_seq_skip_of_skip(
                    old(self)@,
                    (cnt - kpre) as int,
                    take as int,
                );
                assert(view0.skip(take as int) =~= old(self)@.skip((cnt - kpre + take) as int));
                assert(self@ =~= old(self)@.skip((cnt - k) as int));
            }
            let chunk_remaining = self.cur_len();
            if chunk_remaining == 0 {
                proof {
                    assert(self@ =~= self.next_view());
                }
                let has_next = self.move_next();
                if k == 0 {
                    if self.cur_len() == 0 && has_next {
                        self.skip_empty();
                    }
                    return ;
                } else if !has_next {
                    proof {
                        assert(self@.len() == 0);
                        assert(false);
                    }
                }
            } else {
                if k == 0 {
                    return ;
                }
            }
        }
    }

    /// Copy all remaining bytes into a contiguous vec.
    pub fn copy_to_vec(&mut self, v: &mut Vec<u8>)
        requires
            old(self).wf(),
        ensures
            final(self).wf(),
            final(v)@ == old(v)@ + old(self)@,
            final(self)@.len() == 0,
    {
        loop
            invariant
                self.wf(),
                v@ + self@ =~= old(v)@ + old(self)@,
            decreases self@.len(),
        {
            if self.remaining() == 0 {
                proof {
                    assert(v@ =~= v@ + self@);
                }
                return ;
            }
            let ghost view_it = self@;
            let ghost v0 = v@;
            let chunk = self.chunk();
            let n = chunk.len();
            super::extend_bytes(v, chunk);
            self.advance(n);
            proof {
                assert(v@ + self@ =~= v0 + view_it);
            }
        }
    }
}

} // verus!
