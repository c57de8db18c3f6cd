//! The validation subsystem: a checked walk that turns an untrusted buffer
//! into safely readable archived views.
//!
//! A validation pass carries the buffer's bounds and a record of byte ranges
//! already claimed by some validated value.  Each owned-pointer form is
//! checked by a fixed four-step protocol: the pointer's own footprint, the
//! target position against the bounds, the target's dynamic extent claimed
//! against earlier claims, and finally the target's contents.  Every failure
//! is a typed error naming the layer that was violated — the pointer itself,
//! the pointed-to value, or the context — and validation never panics.

use vstd::prelude::*;

use crate::bytes::u32_at;
use crate::rel_ptr::lemma_footprint_fields;
use crate::rel_ptr::stored_target;
use crate::rel_ptr::SliceTarget;
use crate::rel_ptr::StrTarget;
use crate::rel_ptr::ValueTarget;
use crate::strings::string_archived_at;
use crate::strings::text_wf;
use crate::strings::ArchivedString;
use crate::vectors::vec_archived_at;
use crate::vectors::ArchivedVec;
use crate::boxed::box_archived_at;
use crate::boxed::ArchivedBox;
use crate::ArchivePtr;
use crate::Footprint;

verus! {

/// An error of the validation context: a target or claim fell outside the
/// buffer, or a claim overlapped an earlier one.
#[derive(Clone, Copy, PartialEq, Eq, Structural, Debug)]
pub enum ArchiveContextError {
    /// A pointer target or claimed range lies outside the buffer bounds.
    OutOfBounds,
    /// A claimed range overlaps a range already claimed by another value.
    ClaimOverlap,
}

/// An error in a relative pointer's own footprint: it does not fit the
/// validated region.
#[derive(Clone, Copy, PartialEq, Eq, Structural, Debug)]
pub enum PointerCheckError {
    /// The footprint runs past the end of the validated region.
    Truncated,
}

/// An error in the pointed-to value itself.
#[derive(Clone, Copy, PartialEq, Eq, Structural, Debug)]
pub enum ValueCheckError {
    /// A text payload holds a byte outside the seven-bit range.
    NotText,
    /// The target's computed extent exceeds the address space.
    SizeOverflow,
}

/// A validation error for an owned-pointer archived form, keeping apart the
/// three layers at which the format can be violated.
#[derive(PartialEq, Eq, Debug)]
pub enum OwnedPointerError<T, R, C> {
    /// The pointer's own footprint was malformed.
    PointerCheckBytesError(T),
    /// The pointed-to value was malformed.
    ValueCheckBytesError(R),
    /// The context rejected the target: out of bounds or overlapping.
    ContextError(C),
}

/// The error type of the owned-pointer checks in this module.
pub type CheckError = OwnedPointerError<PointerCheckError, ValueCheckError, ArchiveContextError>;

/// Two byte ranges do not overlap.
pub open spec fn range_disjoint(s1: int, n1: int, s2: int, n2: int) -> bool {
    s1 + n1 <= s2 || s2 + n2 <= s1
}

/// The state of one validation pass: the buffer bounds and the byte ranges
/// already claimed by validated values.
pub struct ValidationContext {
    /// The buffer length; every target and claim must stay below it.
    pub len: usize,
    /// The ranges claimed so far, as (start, size) pairs.
    pub claims: Vec<(usize, usize)>,
}

impl ValidationContext {
    /// The buffer bound this pass checks against.
    pub open spec fn bound(self) -> int {
        self.len as int
    }

    /// Every claim recorded so far lies within the bounds.
    pub open spec fn wf(self) -> bool {
        forall|i: int|
            0 <= i < self.claims@.len() ==> (#[trigger] self.claims@[i]).0 + self.claims@[i].1
                <= self.len
    }

    /// No recorded claim overlaps the given range.
    pub open spec fn range_free(self, start: int, size: int) -> bool {
        forall|i: int|
            0 <= i < self.claims@.len() ==> range_disjoint(
                start,
                size,
                (#[trigger] self.claims@[i]).0 as int,
                self.claims@[i].1 as int,
            )
    }

    /// Starts a validation pass over a buffer of `len` bytes, with nothing
    /// claimed yet.
    pub fn new(len: usize) -> (r: Self)
        ensures
            r.len == len,
            r.claims@ == Seq::<(usize, usize)>::empty(),
            r.wf(),
    {
        ValidationContext { len, claims: Vec::new() }
    }

    /// Resolves a relative pointer against the bounds: the target must lie
    /// at or before the end of the buffer.
    pub fn check_rel_ptr(&self, base: usize, offset: i32) -> (r: Result<
        usize,
        ArchiveContextError,
    >)
        ensures
            match r {
                Ok(t) => 0 <= base + offset <= self.bound() && t == base + offset,
                Err(e) => {
                    &&& e == ArchiveContextError::OutOfBounds
                    &&& !(0 <= base + offset <= self.bound())
                },
            },
    {
        if offset >= 0 {
            let off = offset as usize;
            if base <= self.len && off <= self.len - base {
                Ok(base + off)
            } else {
                Err(ArchiveContextError::OutOfBounds)
            }
        } else {
            let off = (-(offset as i64)) as usize;
            if off <= base {
                let t = base - off;
                if t <= self.len {
                    Ok(t)
                } else {
                    Err(ArchiveContextError::OutOfBounds)
                }
            } else {
                Err(ArchiveContextError::OutOfBounds)
            }
        }
    }

    /// Claims a byte range for one validated value, rejecting a range that
    /// leaves the bounds or overlaps an earlier claim.
    pub fn claim_bytes(&mut self, start: usize, size: usize) -> (r: Result<
        (),
        ArchiveContextError,
    >)
        requires
            old(self).wf(),
        ensures
            final(self).wf(),
            final(self).len == old(self).len,
            match r {
                Ok(()) => {
                    &&& start + size <= old(self).bound()
                    &&& old(self).range_free(start as int, size as int)
                    &&& final(self).claims@ == old(self).claims@.push((start, size))
                },
                Err(ArchiveContextError::OutOfBounds) => {
                    &&& start + size > old(self).bound()
                    &&& *final(self) == *old(self)
                },
                Err(ArchiveContextError::ClaimOverlap) => {
                    &&& start + size <= old(self).bound()
                    &&& !old(self).range_free(start as int, size as int)
                    &&& *final(self) == *old(self)
                },
            },
    {
        if start > self.len || size > self.len - start {
            return Err(ArchiveContextError::OutOfBounds);
        }
        let m = self.claims.len();
        let mut i: usize = 0;
        while i < m
            invariant
                i <= m,
                m == self.claims@.len(),
                self.wf(),
                self == old(self),
                start + size <= self.len,
                forall|k: int|
                    0 <= k < i ==> range_disjoint(
                        start as int,
                        size as int,
                        (#[trigger] self.claims@[k]).0 as int,
                        self.claims@[k].1 as int,
                    ),
            decreases m - i,
        {
            let (s2, n2) = self.claims[i];
            if !(start + size <= s2 || s2 + n2 <= start) {
                return Err(ArchiveContextError::ClaimOverlap);
            }
            i = i + 1;
        }
        self.claims.push((start, size));
        Ok(())
    }
}

impl ArchivedString {
    /// Validates the string footprint stored at `pos`, following the
    /// four-step protocol: footprint, target bounds, claimed extent, and
    /// payload contents.  A value error leaves the claim in place; the pass
    /// must then be discarded by the caller.
    pub fn check_bytes(buf: &Vec<u8>, pos: usize, context: &mut ValidationContext) -> (r: Result<
        ArchivedString,
        CheckError,
    >)
        requires
            old(context).wf(),
            old(context).bound() <= buf@.len(),
        ensures
            final(context).wf(),
            final(context).len == old(context).len,
            ({
                let k = old(context).bound();
                let t = stored_target::<StrTarget>(buf@, pos as int);
                let n = u32_at(buf@, pos as int + 4) as int;
                match r {
                    Ok(v) => {
                        &&& pos + 8 <= k
                        &&& 0 <= t
                        &&& t + n <= k
                        &&& old(context).range_free(t, n)
                        &&& text_wf(buf@.subrange(t, t + n))
                        &&& final(context).claims@ == old(context).claims@.push(
                            (t as usize, n as usize),
                        )
                        &&& v.placed_at(pos as int)
                        &&& v.enc() == buf@.subrange(pos as int, pos as int + 8)
                        &&& v.target() == t
                        &&& v.len_spec() == n
                    },
                    Err(OwnedPointerError::PointerCheckBytesError(e)) => {
                        &&& e == PointerCheckError::Truncated
                        &&& pos + 8 > k
                        &&& *final(context) == *old(context)
                    },
                    Err(OwnedPointerError::ContextError(ArchiveContextError::OutOfBounds)) => {
                        &&& pos + 8 <= k
                        &&& !(0 <= t && t + n <= k)
                        &&& *final(context) == *old(context)
                    },
                    Err(OwnedPointerError::ContextError(ArchiveContextError::ClaimOverlap)) => {
                        &&& pos + 8 <= k
                        &&& 0 <= t
                        &&& t + n <= k
                        &&& !old(context).range_free(t, n)
                        &&& *final(context) == *old(context)
                    },
                    Err(OwnedPointerError::ValueCheckBytesError(e)) => {
                        &&& e == ValueCheckError::NotText
                        &&& pos + 8 <= k
                        &&& 0 <= t
                        &&& t + n <= k
                        &&& old(context).range_free(t, n)
                        &&& !text_wf(buf@.subrange(t, t + n))
                        &&& final(context).claims@ == old(context).claims@.push(
                            (t as usize, n as usize),
                        )
                    },
                }
            }),
    {
        let bl = buf.len();
        if context.len < 8 || pos > context.len - 8 {
            return Err(OwnedPointerError::PointerCheckBytesError(PointerCheckError::Truncated));
        }
        let v = <ArchivedString as Footprint>::read_footprint(buf, pos);
        proof {
            lemma_footprint_fields::<StrTarget>(v.ptr, buf@, pos as int);
            crate::bytes::lemma_u32_at_of_le_bytes(buf@, pos as int + 4, v.ptr.augment);
        }
        let t = match context.check_rel_ptr(v.ptr.base(), v.ptr.offset()) {
            Ok(t) => t,
            Err(e) => {
                return Err(OwnedPointerError::ContextError(e));
            },
        };
        let size = match <StrTarget as ArchivePtr>::checked_layout_size(v.ptr.augment()) {
            Some(size) => size,
            None => {
                return Err(OwnedPointerError::ValueCheckBytesError(
                    ValueCheckError::SizeOverflow,
                ));
            },
        };
        let ghost c0 = *old(context);
        match context.claim_bytes(t, size) {
            Ok(()) => {},
            Err(e) => {
                return Err(OwnedPointerError::ContextError(e));
            },
        }
        let mut j: usize = 0;
        while j < size
            invariant
                j <= size,
                c0 == *old(context),
                t + size <= buf@.len() <= usize::MAX,
                context.wf(),
                context.len == c0.len,
                pos + 8 <= c0.bound(),
                t == stored_target::<StrTarget>(buf@, pos as int),
                size == u32_at(buf@, pos as int + 4),
                t + size <= c0.bound(),
                c0.range_free(t as int, size as int),
                context.claims@ == c0.claims@.push((t, size)),
                v.placed_at(pos as int),
                v.enc() == buf@.subrange(pos as int, pos as int + 8),
                v.target() == t,
                v.len_spec() == size,
                forall|k: int| t <= k < t + j ==> buf@[k] < 128,
            decreases size - j,
        {
            if buf[t + j] >= 128 {
                proof {
                    assert(buf@.subrange(t as int, t + size)[j as int] == buf@[t + j]);
                }
                return Err(OwnedPointerError::ValueCheckBytesError(ValueCheckError::NotText));
            }
            j = j + 1;
        }
        proof {
            assert forall|k: int| 0 <= k < size implies (#[trigger] buf@.subrange(
                t as int,
                t + size,
            )[k]) < 128 by {
                assert(buf@.subrange(t as int, t + size)[k] == buf@[t + k]);
            }
        }
        Ok(v)
    }
}

impl ArchivedVec {
    /// Validates the sequence footprint stored at `pos`, following the
    /// four-step protocol.  The target extent is four bytes per element and
    /// is checked against the address space before it is claimed; the
    /// elements themselves admit every bit pattern.
    pub fn check_bytes(buf: &Vec<u8>, pos: usize, context: &mut ValidationContext) -> (r: Result<
        ArchivedVec,
        CheckError,
    >)
        requires
            old(context).wf(),
            old(context).bound() <= buf@.len(),
        ensures
            final(context).wf(),
            final(context).len == old(context).len,
            ({
                let k = old(context).bound();
                let t = stored_target::<SliceTarget>(buf@, pos as int);
                let n = u32_at(buf@, pos as int + 4) as int;
                match r {
                    Ok(v) => {
                        &&& pos + 8 <= k
                        &&& 0 <= t
                        &&& 4 * n <= usize::MAX
                        &&& t + 4 * n <= k
                        &&& old(context).range_free(t, 4 * n)
                        &&& final(context).claims@ == old(context).claims@.push(
                            (t as usize, (4 * n) as usize),
                        )
                        &&& v.placed_at(pos as int)
                        &&& v.enc() == buf@.subrange(pos as int, pos as int + 8)
                        &&& v.target() == t
                        &&& v.len_spec() == n
                    },
                    Err(OwnedPointerError::PointerCheckBytesError(e)) => {
                        &&& e == PointerCheckError::Truncated
                        &&& pos + 8 > k
                        &&& *final(context) == *old(context)
                    },
                    Err(OwnedPointerError::ContextError(ArchiveContextError::OutOfBounds)) => {
                        &&& pos + 8 <= k
                        &&& (!(0 <= t <= k) || (4 * n <= usize::MAX && t + 4 * n > k))
                        &&& *final(context) == *old(context)
                    },
                    Err(OwnedPointerError::ContextError(ArchiveContextError::ClaimOverlap)) => {
                        &&& pos + 8 <= k
                        &&& 0 <= t
                        &&& 4 * n <= usize::MAX
                        &&& t + 4 * n <= k
                        &&& !old(context).range_free(t, 4 * n)
                        &&& *final(context) == *old(context)
                    },
                    Err(OwnedPointerError::ValueCheckBytesError(e)) => {
                        &&& e == ValueCheckError::SizeOverflow
                        &&& pos + 8 <= k
                        &&& 0 <= t <= k
                        &&& 4 * n > usize::MAX
                        &&& *final(context) == *old(context)
                    },
                }
            }),
    {
        let bl = buf.len();
        if context.len < 8 || pos > context.len - 8 {
            return Err(OwnedPointerError::PointerCheckBytesError(PointerCheckError::Truncated));
        }
        let v = <ArchivedVec as Footprint>::read_footprint(buf, pos);
        proof {
            lemma_footprint_fields::<SliceTarget>(v.ptr, buf@, pos as int);
            crate::bytes::lemma_u32_at_of_le_bytes(buf@, pos as int + 4, v.ptr.augment);
        }
        let t = match context.check_rel_ptr(v.ptr.base(), v.ptr.offset()) {
            Ok(t) => t,
            Err(e) => {
                return Err(OwnedPointerError::ContextError(e));
            },
        };
        let size = match <SliceTarget as ArchivePtr>::checked_layout_size(v.ptr.augment()) {
            Some(size) => size,
            None => {
                return Err(OwnedPointerError::ValueCheckBytesError(
                    ValueCheckError::SizeOverflow,
                ));
            },
        };
        match context.claim_bytes(t, size) {
            Ok(()) => {},
            Err(e) => {
                return Err(OwnedPointerError::ContextError(e));
            },
        }
        Ok(v)
    }
}

impl ArchivedBox {
    /// Validates the box footprint stored at `pos`, following the four-step
    /// protocol.  The footprint is the stored offset alone, the target
    /// extent is the pointee's fixed four bytes, and the pointee admits
    /// every bit pattern.
    pub fn check_bytes(buf: &Vec<u8>, pos: usize, context: &mut ValidationContext) -> (r: Result<
        ArchivedBox,
        CheckError,
    >)
        requires
            old(context).wf(),
            old(context).bound() <= buf@.len(),
        ensures
            final(context).wf(),
            final(context).len == old(context).len,
            ({
                let k = old(context).bound();
                let t = stored_target::<ValueTarget>(buf@, pos as int);
                match r {
                    Ok(v) => {
                        &&& pos + 4 <= k
                        &&& 0 <= t
                        &&& t + 4 <= k
                        &&& old(context).range_free(t, 4)
                        &&& final(context).claims@ == old(context).claims@.push((t as usize, 4))
                        &&& v.placed_at(pos as int)
                        &&& v.enc() == buf@.subrange(pos as int, pos as int + 4)
                        &&& v.target() == t
                    },
                    Err(OwnedPointerError::PointerCheckBytesError(e)) => {
                        &&& e == PointerCheckError::Truncated
                        &&& pos + 4 > k
                        &&& *final(context) == *old(context)
                    },
                    Err(OwnedPointerError::ContextError(ArchiveContextError::OutOfBounds)) => {
                        &&& pos + 4 <= k
                        &&& !(0 <= t && t + 4 <= k)
                        &&& *final(context) == *old(context)
                    },
                    Err(OwnedPointerError::ContextError(ArchiveContextError::ClaimOverlap)) => {
                        &&& pos + 4 <= k
                        &&& 0 <= t
                        &&& t + 4 <= k
                        &&& !old(context).range_free(t, 4)
                        &&& *final(context) == *old(context)
                    },
                    Err(OwnedPointerError::ValueCheckBytesError(e)) => false,
                }
            }),
    {
        let bl = buf.len();
        if context.len < 4 || pos > context.len - 4 {
            return Err(OwnedPointerError::PointerCheckBytesError(PointerCheckError::Truncated));
        }
        let v = <ArchivedBox as Footprint>::read_footprint(buf, pos);
        proof {
            lemma_footprint_fields::<ValueTarget>(v.ptr, buf@, pos as int);
        }
        let t = match context.check_rel_ptr(v.ptr.base(), v.ptr.offset()) {
            Ok(t) => t,
            Err(e) => {
                return Err(OwnedPointerError::ContextError(e));
            },
        };
        let size = match <ValueTarget as ArchivePtr>::checked_layout_size(v.ptr.augment()) {
            Some(size) => size,
            None => {
                return Err(OwnedPointerError::ValueCheckBytesError(
                    ValueCheckError::SizeOverflow,
                ));
            },
        };
        match context.claim_bytes(t, size) {
            Ok(()) => {},
            Err(e) => {
                return Err(OwnedPointerError::ContextError(e));
            },
        }
        Ok(v)
    }
}

/// A buffer passes a full string validation at `pos`: the footprint and its
/// target both lie inside the buffer, they do not overlap, and the payload
/// is well-formed text.
pub open spec fn string_valid(b: Seq<u8>, pos: int) -> bool {
    let t = stored_target::<StrTarget>(b, pos);
    let n = u32_at(b, pos + 4) as int;
    &&& 0 <= pos
    &&& pos + 8 <= b.len()
    &&& 0 <= t
    &&& t + n <= b.len()
    &&& range_disjoint(t, n, pos, 8)
    &&& text_wf(b.subrange(t, t + n))
}

/// Validates a whole archive holding one string value at `pos`: starts a
/// fresh pass over the buffer, claims the footprint range, and checks the
/// string.  Returns the same view the trusted path would decode, and an
/// error for every buffer on which the trusted path would be unsafe.
pub fn check_archived_string(buf: &Vec<u8>, pos: usize) -> (r: Result<ArchivedString, CheckError>)
    ensures
        match r {
            Ok(v) => {
                &&& string_valid(buf@, pos as int)
                &&& v.placed_at(pos as int)
                &&& v.enc() == buf@.subrange(pos as int, pos as int + 8)
            },
            Err(e) => !string_valid(buf@, pos as int),
        },
{
    let bl = buf.len();
    let mut context = ValidationContext::new(bl);
    match context.claim_bytes(pos, 8) {
        Ok(()) => {},
        Err(e) => {
            return Err(OwnedPointerError::ContextError(e));
        },
    }
    let ghost c1 = context;
    let r = ArchivedString::check_bytes(buf, pos, &mut context);
    proof {
        assert(c1.claims@[0] == (pos, 8usize));
        let t = stored_target::<StrTarget>(buf@, pos as int);
        let n = u32_at(buf@, pos as int + 4) as int;
        if r is Ok {
            assert(range_disjoint(t, n, pos as int, 8));
        }
        if !c1.range_free(t, n) {
            assert(!range_disjoint(t, n, pos as int, 8)) by {
                if range_disjoint(t, n, pos as int, 8) {
                    assert forall|i: int| 0 <= i < c1.claims@.len() implies range_disjoint(
                        t,
                        n,
                        (#[trigger] c1.claims@[i]).0 as int,
                        c1.claims@[i].1 as int,
                    ) by {
                        assert(c1.claims@[i] == (pos, 8usize));
                    }
                }
            }
        }
    }
    r
}

/// A buffer passes a full box validation at `pos`.
pub open spec fn box_valid(b: Seq<u8>, pos: int) -> bool {
    let t = stored_target::<ValueTarget>(b, pos);
    &&& 0 <= pos
    &&& pos + 4 <= b.len()
    &&& 0 <= t
    &&& t + 4 <= b.len()
    &&& range_disjoint(t, 4, pos, 4)
}

/// Validates a whole archive holding one boxed value at `pos`.
pub fn check_archived_box(buf: &Vec<u8>, pos: usize) -> (r: Result<ArchivedBox, CheckError>)
    ensures
        match r {
            Ok(v) => {
                &&& box_valid(buf@, pos as int)
                &&& v.placed_at(pos as int)
                &&& v.enc() == buf@.subrange(pos as int, pos as int + 4)
            },
            Err(e) => !box_valid(buf@, pos as int),
        },
{
    let bl = buf.len();
    let mut context = ValidationContext::new(bl);
    match context.claim_bytes(pos, 4) {
        Ok(()) => {},
        Err(e) => {
            return Err(OwnedPointerError::ContextError(e));
        },
    }
    let ghost c1 = context;
    let r = ArchivedBox::check_bytes(buf, pos, &mut context);
    proof {
        assert(c1.claims@[0] == (pos, 4usize));
        let t = stored_target::<ValueTarget>(buf@, pos as int);
        if r is Ok {
            assert(range_disjoint(t, 4, pos as int, 4));
        }
        if !c1.range_free(t, 4) {
            assert(!range_disjoint(t, 4, pos as int, 4)) by {
                if range_disjoint(t, 4, pos as int, 4) {
                    assert forall|i: int| 0 <= i < c1.claims@.len() implies range_disjoint(
                        t,
                        4,
                        (#[trigger] c1.claims@[i]).0 as int,
                        c1.claims@[i].1 as int,
                    ) by {
                        assert(c1.claims@[i] == (pos, 4usize));
                    }
                }
            }
        }
    }
    r
}

/// A buffer passes a full sequence validation at `pos`.
pub open spec fn vec_valid(b: Seq<u8>, pos: int) -> bool {
    let t = stored_target::<SliceTarget>(b, pos);
    let n = u32_at(b, pos + 4) as int;
    &&& 0 <= pos
    &&& pos + 8 <= b.len()
    &&& 0 <= t
    &&& 4 * n <= usize::MAX
    &&& t + 4 * n <= b.len()
    &&& range_disjoint(t, 4 * n, pos, 8)
}

/// Validates a whole archive holding one sequence at `pos`.
pub fn check_archived_vec(buf: &Vec<u8>, pos: usize) -> (r: Result<ArchivedVec, CheckError>)
    ensures
        match r {
            Ok(v) => {
                &&& vec_valid(buf@, pos as int)
                &&& v.placed_at(pos as int)
                &&& v.enc() == buf@.subrange(pos as int, pos as int + 8)
            },
            Err(e) => !vec_valid(buf@, pos as int),
        },
{
    let bl = buf.len();
    let mut context = ValidationContext::new(bl);
    match context.claim_bytes(pos, 8) {
        Ok(()) => {},
        Err(e) => {
            return Err(OwnedPointerError::ContextError(e));
        },
    }
    let ghost c1 = context;
    let r = ArchivedVec::check_bytes(buf, pos, &mut context);
    proof {
        assert(c1.claims@[0] == (pos, 8usize));
        let t = stored_target::<SliceTarget>(buf@, pos as int);
        let n = u32_at(buf@, pos as int + 4) as int;
        if r is Ok {
            assert(range_disjoint(t, 4 * n, pos as int, 8));
        }
        if !c1.range_free(t, 4 * n) {
            assert(!range_disjoint(t, 4 * n, pos as int, 8)) by {
                if range_disjoint(t, 4 * n, pos as int, 8) {
                    assert forall|i: int| 0 <= i < c1.claims@.len() implies range_disjoint(
                        t,
                        4 * n,
                        (#[trigger] c1.claims@[i]).0 as int,
                        c1.claims@[i].1 as int,
                    ) by {
                        assert(c1.claims@[i] == (pos, 8usize));
                    }
                }
            }
        }
    }
    r
}

/// A buffer passes a full block validation at `pos`: both footprints and
/// both targets lie inside the buffer, no two claimed ranges overlap, and
/// the head payload is well-formed text.
pub open spec fn block_valid(b: Seq<u8>, pos: int) -> bool {
    let ht = stored_target::<StrTarget>(b, pos);
    let hn = u32_at(b, pos + 4) as int;
    let tt = stored_target::<SliceTarget>(b, pos + 8);
    let tn = u32_at(b, pos + 12) as int;
    &&& 0 <= pos
    &&& pos + 16 <= b.len()
    &&& 0 <= ht
    &&& ht + hn <= b.len()
    &&& range_disjoint(ht, hn, pos, 16)
    &&& text_wf(b.subrange(ht, ht + hn))
    &&& 0 <= tt
    &&& 4 * tn <= usize::MAX
    &&& tt + 4 * tn <= b.len()
    &&& range_disjoint(tt, 4 * tn, pos, 16)
    &&& range_disjoint(tt, 4 * tn, ht, hn)
}

/// Validates a whole archive holding one block at `pos`: claims the
/// sixteen-byte footprint, then checks the head and the tail in turn, each
/// claiming its own target.  The shared context is what rejects any two
/// values whose byte ranges alias.
pub fn check_archived_block(buf: &Vec<u8>, pos: usize) -> (r: Result<
    crate::block::ArchivedBlock,
    CheckError,
>)
    ensures
        match r {
            Ok(v) => {
                &&& block_valid(buf@, pos as int)
                &&& v.placed_at(pos as int)
                &&& v.enc() == buf@.subrange(pos as int, pos as int + 16)
            },
            Err(e) => !block_valid(buf@, pos as int),
        },
{
    let bl = buf.len();
    let mut context = ValidationContext::new(bl);
    match context.claim_bytes(pos, 16) {
        Ok(()) => {},
        Err(e) => {
            return Err(OwnedPointerError::ContextError(e));
        },
    }
    let ghost c1 = context;
    let ghost ht = stored_target::<StrTarget>(buf@, pos as int);
    let ghost hn = u32_at(buf@, pos as int + 4) as int;
    let ghost tt = stored_target::<SliceTarget>(buf@, pos as int + 8);
    let ghost tn = u32_at(buf@, pos as int + 12) as int;
    let head = match ArchivedString::check_bytes(buf, pos, &mut context) {
        Ok(head) => head,
        Err(e) => {
            proof {
                assert(c1.claims@[0] == (pos, 16usize));
                if !c1.range_free(ht, hn) {
                    assert(!range_disjoint(ht, hn, pos as int, 16)) by {
                        if range_disjoint(ht, hn, pos as int, 16) {
                            assert forall|i: int|
                                0 <= i < c1.claims@.len() implies range_disjoint(
                                ht,
                                hn,
                                (#[trigger] c1.claims@[i]).0 as int,
                                c1.claims@[i].1 as int,
                            ) by {
                                assert(c1.claims@[i] == (pos, 16usize));
                            }
                        }
                    }
                }
            }
            return Err(e);
        },
    };
    let ghost c2 = context;
    match ArchivedVec::check_bytes(buf, pos + 8, &mut context) {
        Ok(tail) => {
            let r = crate::block::ArchivedBlock { head, tail };
            proof {
                assert(c1.claims@[0] == (pos, 16usize));
                assert(c2.claims@ == c1.claims@.push((ht as usize, hn as usize)));
                assert(c2.claims@[0] == (pos, 16usize));
                assert(c2.claims@[1] == (ht as usize, hn as usize));
                assert(range_disjoint(ht, hn, pos as int, 16));
                assert(range_disjoint(tt, 4 * tn, pos as int, 16));
                assert(range_disjoint(tt, 4 * tn, ht, hn));
                r.head.lemma_enc_len();
                r.tail.lemma_enc_len();
                assert(r.enc() =~= buf@.subrange(pos as int, pos as int + 16));
            }
            Ok(r)
        },
        Err(e) => {
            proof {
                assert(c2.claims@ == c1.claims@.push((ht as usize, hn as usize)));
                assert(c2.claims@[0] == (pos, 16usize));
                assert(c2.claims@[1] == (ht as usize, hn as usize));
                if !c2.range_free(tt, 4 * tn) {
                    assert(!(range_disjoint(tt, 4 * tn, pos as int, 16) && range_disjoint(
                        tt,
                        4 * tn,
                        ht,
                        hn,
                    ))) by {
                        if range_disjoint(tt, 4 * tn, pos as int, 16) && range_disjoint(
                            tt,
                            4 * tn,
                            ht,
                            hn,
                        ) {
                            assert forall|i: int|
                                0 <= i < c2.claims@.len() implies range_disjoint(
                                tt,
                                4 * tn,
                                (#[trigger] c2.claims@[i]).0 as int,
                                c2.claims@[i].1 as int,
                            ) by {
                                assert(i == 0 || i == 1);
                            }
                        }
                    }
                }
            }
            Err(e)
        },
    }
}

/// Validation soundness for blocks: a buffer produced by the trusted write
/// path always passes the composite validation.
pub proof fn lemma_validation_sound_block(b: Seq<u8>, pos: int, head: Seq<u8>, tail: Seq<u32>)
    requires
        crate::block::block_archived_at(b, pos, head, tail),
        text_wf(head),
    ensures
        block_valid(b, pos),
{
}

/// Validation soundness for strings: a buffer produced by the trusted write
/// path always passes validation, and the validated view is bit-identical
/// to the one the trusted path decodes.
pub proof fn lemma_validation_sound_string(
    b: Seq<u8>,
    pos: int,
    content: Seq<u8>,
    checked: ArchivedString,
    trusted: ArchivedString,
)
    requires
        string_archived_at(b, pos, content),
        text_wf(content),
        checked.placed_at(pos),
        checked.enc() == b.subrange(pos, pos + 8),
        trusted.placed_at(pos),
        trusted.enc() == b.subrange(pos, pos + 8),
    ensures
        string_valid(b, pos),
        checked == trusted,
{
    crate::strings::lemma_string_round_trip(b, pos, content, checked);
    checked.lemma_enc_injective(trusted, pos);
}

/// Validation soundness for sequences: a buffer produced by the trusted
/// write path always passes validation, and the validated view is
/// bit-identical to the one the trusted path decodes.
pub proof fn lemma_validation_sound_vec(
    b: Seq<u8>,
    pos: int,
    content: Seq<u32>,
    checked: ArchivedVec,
    trusted: ArchivedVec,
)
    requires
        vec_archived_at(b, pos, content),
        checked.placed_at(pos),
        checked.enc() == b.subrange(pos, pos + 8),
        trusted.placed_at(pos),
        trusted.enc() == b.subrange(pos, pos + 8),
    ensures
        vec_valid(b, pos),
        checked == trusted,
{
    crate::vectors::lemma_vec_round_trip(b, pos, content, checked);
    checked.lemma_enc_injective(trusted, pos);
}

/// Validation soundness for boxes: a buffer produced by the trusted write
/// path always passes validation, and the validated view is bit-identical
/// to the one the trusted path decodes.
pub proof fn lemma_validation_sound_box(
    b: Seq<u8>,
    pos: int,
    value: u32,
    checked: ArchivedBox,
    trusted: ArchivedBox,
)
    requires
        box_archived_at(b, pos, value),
        checked.placed_at(pos),
        checked.enc() == b.subrange(pos, pos + 4),
        trusted.placed_at(pos),
        trusted.enc() == b.subrange(pos, pos + 4),
    ensures
        box_valid(b, pos),
        checked == trusted,
{
    crate::boxed::lemma_box_round_trip(b, pos, value, checked);
    checked.lemma_enc_injective(trusted, pos);
}

/// Validation rejects a corrupted offset: whenever the offset stored at
/// `pos` sends the target out of the buffer bounds, the full string
/// validation fails — there is no silent success, and a verified function
/// cannot panic.
pub proof fn lemma_validation_rejects_out_of_bounds(b: Seq<u8>, pos: int)
    requires
        0 <= pos,
        pos + 8 <= b.len(),
        !(0 <= stored_target::<StrTarget>(b, pos) <= b.len()),
    ensures
        !string_valid(b, pos),
{
}

/// Validation rejects aliasing: whenever the target range of the string
/// stored at `pos` overlaps the string's own footprint, the full string
/// validation fails.
pub proof fn lemma_validation_rejects_overlap(b: Seq<u8>, pos: int)
    requires
        0 <= pos,
        pos + 8 <= b.len(),
        !range_disjoint(
            stored_target::<StrTarget>(b, pos),
            u32_at(b, pos + 4) as int,
            pos,
            8,
        ),
    ensures
        !string_valid(b, pos),
{
}

} // verus!
