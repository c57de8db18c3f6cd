//! The serializer capability: a growing byte buffer with a write position
//! and a capacity.
//!
//! Serialization is one linear pass: dependencies are written first, the
//! writer is aligned for the archived form, and the footprint is written at
//! the now-known position.  Every write can fail — a serializer has a finite
//! capacity, and exceeding it is reported as an error, never a panic.

use vstd::prelude::*;

use crate::Archive;
use crate::Fallible;
use crate::Footprint;

verus! {

/// The error of [`BufSerializer`]: a write would exceed its capacity.
#[derive(Clone, Copy, PartialEq, Eq, Structural, Debug)]
pub enum SerializerError {
    /// The bytes to be written do not fit in the remaining capacity.
    Full,
}

/// `n` zero bytes, as written for alignment padding.
pub open spec fn zeros(n: int) -> Seq<u8>
    recommends
        n >= 0,
{
    Seq::new(n as nat, |i| 0u8)
}

/// The first position at or after `pos` that satisfies `align`.
pub open spec fn align_up(pos: int, align: int) -> int
    recommends
        0 <= pos,
        1 <= align,
{
    pos + ((align - pos % align) % align)
}

/// Alignment rounds up by less than one whole alignment unit, and the
/// result satisfies the alignment.
pub proof fn lemma_align_up(pos: int, align: int)
    requires
        0 <= pos,
        1 <= align,
    ensures
        pos <= align_up(pos, align) < pos + align,
        align_up(pos, align) % align == 0,
        align_up(pos, align) == pos + (if pos % align == 0 {
            0int
        } else {
            align - pos % align
        }),
{
    let r = pos % align;
    assert(0 <= r < align) by (nonlinear_arith)
        requires
            0 <= pos,
            1 <= align,
            r == pos % align,
    ;
    if r == 0 {
        assert(align % align == 0) by (nonlinear_arith)
            requires
                1 <= align,
        ;
        assert(align_up(pos, align) == pos);
    } else {
        assert((align - r) % align == align - r) by (nonlinear_arith)
            requires
                1 <= align,
                0 < r < align,
        ;
        assert(align_up(pos, align) == pos + (align - r));
        assert((pos + (align - r)) % align == 0) by (nonlinear_arith)
            requires
                1 <= align,
                0 <= pos,
                r == pos % align,
                r != 0,
        ;
    }
}

/// A serializer that accumulates archive bytes in memory, up to a fixed
/// capacity.
pub struct BufSerializer {
    /// The bytes written so far.  The write position is their length.
    pub buf: Vec<u8>,
    /// The capacity: writes beyond this many bytes fail.
    pub limit: usize,
}

impl Fallible for BufSerializer {
    type Error = SerializerError;
}

impl BufSerializer {
    /// What every operation preserves: the buffer never outgrows the limit.
    pub open spec fn wf(self) -> bool {
        self.buf@.len() <= self.limit
    }

    /// Creates an empty serializer with the given capacity.
    pub fn new(limit: usize) -> (r: Self)
        ensures
            r.buf@ == Seq::<u8>::empty(),
            r.limit == limit,
            r.wf(),
    {
        BufSerializer { buf: Vec::new(), limit }
    }

    /// The current write position: where the next byte will land.
    pub fn pos(&self) -> (r: usize)
        ensures
            r == self.buf@.len(),
    {
        self.buf.len()
    }

    /// Consumes the serializer and hands back the bytes it accumulated.
    pub fn into_inner(self) -> (r: Vec<u8>)
        ensures
            r@ == self.buf@,
    {
        self.buf
    }

    /// Appends raw bytes, failing without effect if they do not fit.
    pub fn write(&mut self, bytes: &Vec<u8>) -> (r: Result<(), SerializerError>)
        requires
            old(self).wf(),
        ensures
            final(self).wf(),
            final(self).limit == old(self).limit,
            match r {
                Ok(()) => {
                    &&& old(self).buf@.len() + bytes@.len() <= old(self).limit
                    &&& final(self).buf@ == old(self).buf@ + bytes@
                },
                Err(SerializerError::Full) => {
                    &&& old(self).buf@.len() + bytes@.len() > old(self).limit
                    &&& *final(self) == *old(self)
                },
            },
    {
        let n = self.buf.len();
        let m = bytes.len();
        if m <= self.limit - n {
            let mut j: usize = 0;
            while j < m
                invariant
                    j <= m,
                    m == bytes@.len(),
                    n + m <= self.limit,
                    self.limit == old(self).limit,
                    self.buf@ == old(self).buf@ + bytes@.subrange(0, j as int),
                decreases m - j,
            {
                self.buf.push(bytes[j]);
                j = j + 1;
                proof {
                    assert(self.buf@ =~= old(self).buf@ + bytes@.subrange(0, j as int));
                }
            }
            proof {
                assert(bytes@.subrange(0, m as int) =~= bytes@);
            }
            Ok(())
        } else {
            Err(SerializerError::Full)
        }
    }

    /// Pads with zero bytes until the write position satisfies the archived
    /// form of `T`, failing without effect if the padding does not fit.
    pub fn align_for<T: Footprint>(&mut self) -> (r: Result<(), SerializerError>)
        requires
            old(self).wf(),
        ensures
            final(self).wf(),
            final(self).limit == old(self).limit,
            match r {
                Ok(()) => {
                    &&& align_up(old(self).buf@.len() as int, T::spec_align()) <= old(self).limit
                    &&& final(self).buf@ == old(self).buf@ + zeros(
                        align_up(old(self).buf@.len() as int, T::spec_align()) - old(
                            self,
                        ).buf@.len(),
                    )
                    &&& final(self).buf@.len() == align_up(
                        old(self).buf@.len() as int,
                        T::spec_align(),
                    )
                    &&& final(self).buf@.len() as int % T::spec_align() == 0
                },
                Err(SerializerError::Full) => {
                    &&& align_up(old(self).buf@.len() as int, T::spec_align()) > old(self).limit
                    &&& *final(self) == *old(self)
                },
            },
    {
        let align = T::exec_align();
        let n = self.buf.len();
        proof {
            T::lemma_layout_wf();
            lemma_align_up(n as int, align as int);
        }
        let rem = n % align;
        let pad: usize = if rem == 0 {
            0
        } else {
            align - rem
        };
        if pad <= self.limit - n {
            let mut i: usize = 0;
            while i < pad
                invariant
                    i <= pad,
                    self.buf@.len() == n + i,
                    self.limit == old(self).limit,
                    n + pad <= self.limit,
                    self.buf@ == old(self).buf@ + zeros(i as int),
                decreases pad - i,
            {
                self.buf.push(0u8);
                i = i + 1;
                proof {
                    assert(self.buf@ =~= old(self).buf@ + zeros(i as int));
                }
            }
            Ok(())
        } else {
            Err(SerializerError::Full)
        }
    }

    /// Resolves a value at the current, already aligned position and writes
    /// its footprint there, returning that position.
    ///
    /// This is the commit half of the two-phase write: the caller has already
    /// serialized the value's dependencies and aligned the writer.
    pub fn resolve_aligned<V: Archive>(&mut self, value: &V, resolver: V::Resolver) -> (r: Result<
        usize,
        SerializerError,
    >)
        requires
            old(self).wf(),
            value.resolve_pre(old(self).buf@.len() as int, resolver),
        ensures
            final(self).wf(),
            final(self).limit == old(self).limit,
            match r {
                Ok(p) => {
                    &&& p == old(self).buf@.len()
                    &&& old(self).buf@.len() + <V::Archived as Footprint>::spec_size() <= old(
                        self,
                    ).limit
                    &&& final(self).buf@ == old(self).buf@ + value.resolve_spec(
                        p as int,
                        resolver,
                    ).enc()
                },
                Err(SerializerError::Full) => {
                    &&& old(self).buf@.len() + <V::Archived as Footprint>::spec_size() > old(
                        self,
                    ).limit
                    &&& *final(self) == *old(self)
                },
            },
    {
        let size = <V::Archived as Footprint>::exec_size();
        let pos = self.buf.len();
        if size <= self.limit - pos {
            let archived = value.resolve(pos, resolver);
            proof {
                value.lemma_resolve_placed(pos as int, resolver);
                archived.lemma_enc_len();
            }
            archived.write_footprint(&mut self.buf);
            Ok(pos)
        } else {
            Err(SerializerError::Full)
        }
    }
}

} // verus!
