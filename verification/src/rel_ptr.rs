//! Relative pointers: position-independent references inside an archive.
//!
//! A relative pointer stores a signed byte offset from its own position plus
//! a fixed-size augment describing whatever metadata its target needs beyond
//! a bare position — a payload length, an element count, or nothing at all
//! for a sized target.  The target position is computed at read time as the
//! pointer's own position plus the offset, so a buffer full of such pointers
//! can be relocated as a whole without patching any of them.

use vstd::prelude::*;

use crate::bytes::bits32;
use crate::bytes::le_bytes;
use crate::bytes::lemma_bits_of_signed;
use crate::bytes::lemma_le_bytes_at;
use crate::bytes::lemma_le_bytes_injective;
use crate::bytes::lemma_signed_roundtrip;
use crate::bytes::lemma_u32_at_of_le_bytes;
use crate::bytes::offset_bits;
use crate::bytes::offset_of_bits;
use crate::bytes::read_u32_le;
use crate::bytes::signed32;
use crate::bytes::u32_at;
use crate::bytes::write_u32_le;
use crate::ArchivePtr;
use crate::Footprint;

verus! {

/// The storage type of a relative pointer's offset: the compact 32-bit
/// width, which supports archives up to two gigabytes.  A wider offset
/// would change every stored footprint, so writer and reader must agree on
/// the width; this library fixes it.
pub type Offset = i32;

/// The smallest offset a relative pointer can store.
pub const OFFSET_MIN: i64 = -0x8000_0000;

/// One past the largest offset a relative pointer can store.
pub const OFFSET_END: i64 = 0x8000_0000;

/// A full pointer to an archived target: the position where the target
/// begins, paired with the augment that describes its extent.
pub struct TargetPtr<A: ArchivePtr> {
    /// The position in the buffer where the target begins.
    pub pos: usize,
    /// The metadata the target needs beyond its position.
    pub augment: A::Augment,
}

/// A pointer that resolves relative to its own position in the buffer.
///
/// Only `offset` and `augment` are stored in the archive; `base` records the
/// position the pointer was placed at, which in memory would be its own
/// address.  A pointer is meaningful only at the position it was resolved
/// for, so a decoded view carries that position with it.
pub struct RelPtr<A: ArchivePtr> {
    /// The position this pointer lives at.
    pub base: usize,
    /// The signed distance from `base` to the target.
    pub offset: Offset,
    /// The inline metadata for the target.
    pub augment: A::Augment,
}

impl<A: ArchivePtr> RelPtr<A> {
    /// The pointer that `new` builds from one position to another.
    pub open spec fn new_spec(from: int, to: int, augment: A::Augment) -> RelPtr<A>
        recommends
            OFFSET_MIN <= to - from < OFFSET_END,
    {
        RelPtr { base: from as usize, offset: (to - from) as i32, augment }
    }

    /// The position this pointer resolves to.
    pub open spec fn target_spec(self) -> int {
        self.base + self.offset
    }

    /// Creates a relative pointer from one position to another.
    ///
    /// `from` is the position at which the pointer itself will live and `to`
    /// the position of its already-placed target.  A distance outside the
    /// offset width is a caller bug, ruled out here rather than detected.
    pub fn new(from: usize, to: usize, augment: A::Augment) -> (r: Self)
        requires
            OFFSET_MIN <= to - from < OFFSET_END,
        ensures
            r == Self::new_spec(from as int, to as int, augment),
            r.base == from,
            r.offset == to - from,
            r.augment == augment,
    {
        let offset: Offset = if to >= from {
            (to - from) as i32
        } else {
            let d = from - to;
            (-(d as i64)) as i32
        };
        RelPtr { base: from, offset, augment }
    }

    /// The position this pointer lives at: its own address in the buffer.
    pub fn base(&self) -> (r: usize)
        ensures
            r == self.base,
    {
        self.base
    }

    /// The stored offset of this pointer.
    pub fn offset(&self) -> (r: Offset)
        ensures
            r == self.offset,
    {
        self.offset
    }

    /// The stored augment of this pointer.
    pub fn augment(&self) -> (r: &A::Augment)
        ensures
            r == &self.augment,
    {
        &self.augment
    }

    /// Computes the full pointer this relative pointer resolves to: its own
    /// position plus the stored offset, paired with the stored augment.
    ///
    /// No bounds are checked here — this is the trusted fast path, meant for
    /// buffers the caller produced or has already validated.
    pub fn as_ptr(&self) -> (r: TargetPtr<A>)
        requires
            0 <= self.target_spec() <= usize::MAX,
        ensures
            r.pos == self.target_spec(),
            r.augment == self.augment,
    {
        let t: usize = if self.offset >= 0 {
            self.base + (self.offset as usize)
        } else {
            self.base - ((-(self.offset as i64)) as usize)
        };
        A::augment_ptr(t, &self.augment)
    }
}

/// A relative pointer made from `from` to `to` resolves back to `to` and
/// carries its augment unchanged.
pub proof fn lemma_rel_ptr_correct<A: ArchivePtr>(from: usize, to: usize, augment: A::Augment)
    requires
        OFFSET_MIN <= to - from < OFFSET_END,
    ensures
        RelPtr::<A>::new_spec(from as int, to as int, augment).target_spec() == to,
        RelPtr::<A>::new_spec(from as int, to as int, augment).augment == augment,
        RelPtr::<A>::new_spec(from as int, to as int, augment).placed_at(from as int),
{
}

/// The target position encoded by the relative pointer stored at `pos`: the
/// pointer's own position plus the signed offset stored there.
pub open spec fn stored_target<A: ArchivePtr>(b: Seq<u8>, pos: int) -> int
    recommends
        0 <= pos,
        pos + 4 <= b.len(),
{
    pos + signed32(u32_at(b, pos))
}

impl<A: ArchivePtr> Footprint for RelPtr<A> {
    open spec fn spec_size() -> int {
        4 + A::augment_size()
    }

    open spec fn spec_align() -> int {
        4
    }

    open spec fn enc(self) -> Seq<u8> {
        le_bytes(bits32(self.offset as int)) + A::augment_enc(self.augment)
    }

    open spec fn placed_at(self, pos: int) -> bool {
        self.base == pos
    }

    proof fn lemma_layout_wf() {
        A::lemma_augment_size_wf();
    }

    proof fn lemma_enc_len(self) {
        A::lemma_augment_wf(self.augment);
        A::lemma_augment_size_wf();
    }

    proof fn lemma_enc_injective(self, other: Self, pos: int) {
        A::lemma_augment_wf(self.augment);
        A::lemma_augment_wf(other.augment);
        let u1 = bits32(self.offset as int);
        let u2 = bits32(other.offset as int);
        assert(le_bytes(u1) =~= self.enc().subrange(0, 4));
        assert(le_bytes(u2) =~= other.enc().subrange(0, 4));
        lemma_le_bytes_injective(u1, u2);
        lemma_signed_roundtrip(self.offset as int);
        lemma_signed_roundtrip(other.offset as int);
        assert(A::augment_enc(self.augment) =~= self.enc().subrange(4, 4 + A::augment_size()));
        assert(A::augment_enc(other.augment) =~= other.enc().subrange(4, 4 + A::augment_size()));
        A::lemma_augment_injective(self.augment, other.augment);
    }

    fn exec_size() -> (r: usize) {
        proof {
            A::lemma_augment_size_wf();
        }
        4 + A::exec_augment_size()
    }

    fn exec_align() -> (r: usize) {
        4
    }

    fn write_footprint(&self, buf: &mut Vec<u8>) {
        write_u32_le(buf, offset_bits(self.offset));
        A::write_augment(buf, &self.augment);
        proof {
            assert(buf@ =~= old(buf)@ + self.enc());
        }
    }

    fn read_footprint(buf: &Vec<u8>, pos: usize) -> (r: Self) {
        let n = buf.len();
        proof {
            A::lemma_augment_size_wf();
            assert(pos + 4 <= n);
        }
        let u = read_u32_le(buf, pos);
        let offset = offset_of_bits(u);
        let augment = A::read_augment(buf, pos + 4);
        let r = RelPtr { base: pos, offset, augment };
        proof {
            lemma_bits_of_signed(u);
            lemma_le_bytes_at(buf@, pos as int);
            assert(r.enc() =~= buf@.subrange(pos as int, pos as int + Self::spec_size()));
        }
        r
    }
}

/// Decomposes a placed footprint: the pattern stored at `pos` is the
/// pointer's offset, and the stored augment bytes are its augment's encoding.
pub proof fn lemma_footprint_fields<A: ArchivePtr>(r: RelPtr<A>, b: Seq<u8>, pos: int)
    requires
        0 <= pos,
        pos + RelPtr::<A>::spec_size() <= b.len(),
        r.placed_at(pos),
        r.enc() == b.subrange(pos, pos + RelPtr::<A>::spec_size()),
    ensures
        r.base == pos,
        r.offset as int == signed32(u32_at(b, pos)),
        r.target_spec() == stored_target::<A>(b, pos),
        A::augment_enc(r.augment) == b.subrange(pos + 4, pos + RelPtr::<A>::spec_size()),
{
    A::lemma_augment_wf(r.augment);
    let u = bits32(r.offset as int);
    assert(le_bytes(u) =~= b.subrange(pos, pos + 4)) by {
        assert forall|i: int| 0 <= i < 4 implies le_bytes(u)[i] == b.subrange(pos, pos + 4)[i] by {
            assert(le_bytes(u)[i] == r.enc()[i]);
            assert(b.subrange(pos, pos + 4)[i] == b.subrange(pos, pos + RelPtr::<A>::spec_size())[i]);
        }
    }
    lemma_u32_at_of_le_bytes(b, pos, u);
    lemma_signed_roundtrip(r.offset as int);
    assert(A::augment_enc(r.augment) =~= b.subrange(pos + 4, pos + RelPtr::<A>::spec_size())) by {
        assert forall|i: int| 0 <= i < A::augment_size() implies A::augment_enc(r.augment)[i]
            == b.subrange(pos + 4, pos + RelPtr::<A>::spec_size())[i] by {
            assert(A::augment_enc(r.augment)[i] == r.enc()[4 + i]);
            assert(b.subrange(pos + 4, pos + RelPtr::<A>::spec_size())[i] == b.subrange(
                pos,
                pos + RelPtr::<A>::spec_size(),
            )[4 + i]);
        }
    }
}

/// Target descriptor for an archived text payload.  The augment is the
/// payload's length in bytes.
pub struct StrTarget;

impl ArchivePtr for StrTarget {
    type Augment = u32;

    open spec fn layout_size(augment: u32) -> int {
        augment as int
    }

    open spec fn augment_enc(augment: u32) -> Seq<u8> {
        le_bytes(augment)
    }

    open spec fn augment_size() -> int {
        4
    }

    proof fn lemma_augment_size_wf() {
    }

    proof fn lemma_augment_wf(augment: u32) {
    }

    proof fn lemma_augment_injective(a: u32, b: u32) {
        lemma_le_bytes_injective(a, b);
    }

    fn exec_augment_size() -> (r: usize) {
        4
    }

    fn checked_layout_size(augment: &u32) -> (r: Option<usize>) {
        Some(*augment as usize)
    }

    fn write_augment(buf: &mut Vec<u8>, augment: &u32) {
        write_u32_le(buf, *augment);
    }

    fn read_augment(buf: &Vec<u8>, pos: usize) -> (r: u32) {
        let r = read_u32_le(buf, pos);
        proof {
            lemma_le_bytes_at(buf@, pos as int);
        }
        r
    }

    fn augment_ptr(pos: usize, augment: &u32) -> (r: TargetPtr<Self>) {
        TargetPtr { pos, augment: *augment }
    }
}

/// Target descriptor for an archived sequence of 32-bit values.  The augment
/// is the element count; the byte extent is four bytes per element.
pub struct SliceTarget;

impl ArchivePtr for SliceTarget {
    type Augment = u32;

    open spec fn layout_size(augment: u32) -> int {
        4 * (augment as int)
    }

    open spec fn augment_enc(augment: u32) -> Seq<u8> {
        le_bytes(augment)
    }

    open spec fn augment_size() -> int {
        4
    }

    proof fn lemma_augment_size_wf() {
    }

    proof fn lemma_augment_wf(augment: u32) {
    }

    proof fn lemma_augment_injective(a: u32, b: u32) {
        lemma_le_bytes_injective(a, b);
    }

    fn exec_augment_size() -> (r: usize) {
        4
    }

    fn checked_layout_size(augment: &u32) -> (r: Option<usize>) {
        let n = *augment as usize;
        if n <= usize::MAX / 4 {
            Some(n * 4)
        } else {
            None
        }
    }

    fn write_augment(buf: &mut Vec<u8>, augment: &u32) {
        write_u32_le(buf, *augment);
    }

    fn read_augment(buf: &Vec<u8>, pos: usize) -> (r: u32) {
        let r = read_u32_le(buf, pos);
        proof {
            lemma_le_bytes_at(buf@, pos as int);
        }
        r
    }

    fn augment_ptr(pos: usize, augment: &u32) -> (r: TargetPtr<Self>) {
        TargetPtr { pos, augment: *augment }
    }
}

/// The empty augment of a sized target: a bare position is already a full
/// pointer, so nothing extra is stored.
#[derive(Clone, Copy, PartialEq, Eq, Structural)]
pub struct EmptyAugment;

/// Target descriptor for a sized 32-bit value.  A sized target needs no
/// metadata beyond its position, so the augment is empty.
pub struct ValueTarget;

impl ArchivePtr for ValueTarget {
    type Augment = EmptyAugment;

    open spec fn layout_size(augment: EmptyAugment) -> int {
        4
    }

    open spec fn augment_enc(augment: EmptyAugment) -> Seq<u8> {
        Seq::empty()
    }

    open spec fn augment_size() -> int {
        0
    }

    proof fn lemma_augment_size_wf() {
    }

    proof fn lemma_augment_wf(augment: EmptyAugment) {
    }

    proof fn lemma_augment_injective(a: EmptyAugment, b: EmptyAugment) {
    }

    fn exec_augment_size() -> (r: usize) {
        0
    }

    fn checked_layout_size(augment: &EmptyAugment) -> (r: Option<usize>) {
        Some(4)
    }

    fn write_augment(buf: &mut Vec<u8>, augment: &EmptyAugment) {
        proof {
            assert(buf@ =~= old(buf)@ + Self::augment_enc(*augment));
        }
    }

    fn read_augment(buf: &Vec<u8>, pos: usize) -> (r: EmptyAugment) {
        proof {
            assert(Self::augment_enc(EmptyAugment) =~= buf@.subrange(pos as int, pos as int));
        }
        EmptyAugment
    }

    fn augment_ptr(pos: usize, augment: &EmptyAugment) -> (r: TargetPtr<Self>) {
        TargetPtr { pos, augment: EmptyAugment }
    }
}

} // verus!
