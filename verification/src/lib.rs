//! An archive format that can be used without a decode step.
//!
//! A value is serialized depth-first into a growing byte buffer: the data it
//! owns is written first, and the positions where that data landed are
//! collected in a *resolver*.  Once the value's own position is known, the
//! resolver is consumed to produce the value's *archived form*, a fixed-size
//! footprint written at that position.  Reading the archive back requires no
//! transformation: an archived value is decoded directly from its footprint
//! bytes, and references between archived values are *relative pointers* —
//! signed byte offsets from the position of the pointer itself, so the buffer
//! as a whole can be relocated without patching anything inside it.
//!
//! Buffers from untrusted sources are handled by the validation subsystem,
//! which walks the archive once, checking every relative pointer target and
//! every claimed byte range against the buffer's bounds before any content is
//! handed out.

pub mod block;
pub mod boxed;
pub mod bytes;
pub mod core_impl;
pub mod de;
pub mod rel_ptr;
pub mod ser;
pub mod strings;
pub mod validation;
pub mod vectors;

use vstd::prelude::*;

use crate::rel_ptr::RelPtr;
use crate::rel_ptr::TargetPtr;

verus! {

/// The layout of a fixed-size archived footprint.
///
/// An archived form occupies a fixed number of bytes at the position it was
/// resolved to.  This trait ties the decoded view of such a form to its bytes:
/// `enc` gives the footprint bytes, and `placed_at` says at which position the
/// view belongs (a view holding a relative pointer is only meaningful at the
/// position the pointer was resolved for).
pub trait Footprint: Sized {
    /// The number of bytes the footprint occupies.
    spec fn spec_size() -> int;

    /// The alignment a footprint must be written at.
    spec fn spec_align() -> int;

    /// The footprint bytes.  They never include the data the value points at.
    spec fn enc(self) -> Seq<u8>;

    /// Whether this view belongs at position `pos`.
    spec fn placed_at(self, pos: int) -> bool;

    /// The size and alignment are well formed.
    proof fn lemma_layout_wf()
        ensures
            0 <= Self::spec_size() <= usize::MAX,
            Self::spec_align() >= 1;

    /// The encoding fills exactly the footprint size.
    proof fn lemma_enc_len(self)
        ensures
            self.enc().len() == Self::spec_size();

    /// Two views placed at the same position with equal bytes are equal:
    /// reading a footprint back is unambiguous.
    proof fn lemma_enc_injective(self, other: Self, pos: int)
        requires
            self.placed_at(pos),
            other.placed_at(pos),
            self.enc() == other.enc(),
        ensures
            self == other;

    /// The footprint size, as a machine word.
    fn exec_size() -> (r: usize)
        ensures
            r as int == Self::spec_size();

    /// The footprint alignment, as a machine word.
    fn exec_align() -> (r: usize)
        ensures
            r as int == Self::spec_align();

    /// Appends the footprint bytes of a view placed at the end of `buf`.
    fn write_footprint(&self, buf: &mut Vec<u8>)
        requires
            self.placed_at(old(buf)@.len() as int),
        ensures
            final(buf)@ == old(buf)@ + self.enc();

    /// Decodes the footprint stored at `pos` in `buf`.
    fn read_footprint(buf: &Vec<u8>, pos: usize) -> (r: Self)
        requires
            pos + Self::spec_size() <= buf@.len(),
        ensures
            r.placed_at(pos as int),
            r.enc() == buf@.subrange(pos as int, pos as int + Self::spec_size());
}

/// A type that can be used without deserializing.
///
/// Archiving is done depth-first: the data a value owns is written before the
/// value's own footprint.  The archived form is produced from the value, the
/// position it will occupy, and its resolver alone — never from buffer
/// contents — so it can be computed and written without re-reading anything
/// already flushed.
pub trait Archive {
    /// The archived form of this type.
    type Archived: Footprint;

    /// Transient data produced while serializing this value's dependencies,
    /// typically the positions where they landed.  It is consumed exactly
    /// once, to produce the archived form at a known position.
    type Resolver;

    /// When `pos` and `resolver` fit this value: positions in range of the
    /// offset width, sizes in range of the augment width.
    spec fn resolve_pre(&self, pos: int, resolver: Self::Resolver) -> bool;

    /// The archived form of this value at position `pos`.  A function of
    /// `(self, pos, resolver)` and of nothing else.
    spec fn resolve_spec(&self, pos: int, resolver: Self::Resolver) -> Self::Archived;

    /// A resolved form belongs at the position it was resolved for.
    proof fn lemma_resolve_placed(&self, pos: int, resolver: Self::Resolver)
        requires
            self.resolve_pre(pos, resolver),
        ensures
            self.resolve_spec(pos, resolver).placed_at(pos);

    /// Produces the archived form of this value at position `pos`.
    fn resolve(&self, pos: usize, resolver: Self::Resolver) -> (r: Self::Archived)
        requires
            self.resolve_pre(pos as int, resolver),
        ensures
            r == self.resolve_spec(pos as int, resolver);
}

/// The error type of a serializer or deserializer capability.
///
/// Every capability exposes exactly one error type; there is no infallible
/// path, since even plain memory writes can fail on resource exhaustion.
pub trait Fallible {
    /// The error produced by any failing method.
    type Error;
}

/// Writes a value's dependencies and produces its resolver.
///
/// `serialize` writes all of the data the value owns to the serializer and
/// returns a resolver carrying the positions where that data landed.  It never
/// writes the value's own footprint — that happens later, once the value's
/// final position is known, by resolving and writing the archived form.
pub trait Serialize<S: Fallible>: Archive {
    /// What must hold of the value and the serializer before serializing.
    spec fn serialize_pre(&self, s0: S) -> bool;

    /// The exact effect of `serialize`: how the serializer changed and which
    /// resolver or error came back, including when success is owed.
    spec fn serialize_post(&self, s0: S, s1: S, r: Result<Self::Resolver, S::Error>) -> bool;

    /// Writes this value's dependencies and returns its resolver.
    fn serialize(&self, serializer: &mut S) -> (r: Result<Self::Resolver, S::Error>)
        requires
            self.serialize_pre(*old(serializer)),
        ensures
            self.serialize_post(*old(serializer), *final(serializer), r);
}

/// Converts an archived form back into an owned value.
///
/// The archived view reads its target out of the buffer it was decoded from
/// and rebuilds a fully independent value, allocating through the
/// deserializer capability.  The buffer is never mutated, so deserializing
/// may be repeated freely on the same archived data.
pub trait Deserialize<T: Archive, D: Fallible>: Footprint {
    /// When this archived view may be deserialized from `buf`: the view's
    /// target must genuinely be archived there.
    spec fn deserialize_pre(&self, buf: Seq<u8>) -> bool;

    /// The exact effect of `deserialize`: which value or error came back and
    /// how the deserializer changed, including when success is owed.
    spec fn deserialize_post(&self, buf: Seq<u8>, d0: D, d1: D, r: Result<T, D::Error>) -> bool;

    /// Rebuilds an owned value from this archived view.
    fn deserialize(&self, buf: &Vec<u8>, deserializer: &mut D) -> (r: Result<T, D::Error>)
        requires
            self.deserialize_pre(buf@),
        ensures
            self.deserialize_post(buf@, *old(deserializer), *final(deserializer), r);
}

/// The augment protocol: how a raw data position plus the fixed-size augment
/// stored inline in a relative pointer make a full pointer to a target.
///
/// Implemented by target descriptors — one per kind of pointee the format
/// supports.  For a sized target the augment is `()` and carries nothing; for
/// an unsized target it carries the metadata a bare position lacks, such as an
/// element count.
pub trait ArchivePtr: Sized {
    /// The fixed-size metadata stored inline beside the offset.
    type Augment: Copy;

    /// The byte extent of the target a given augment describes.
    spec fn layout_size(augment: Self::Augment) -> int;

    /// The augment bytes as stored inline in a relative pointer.
    spec fn augment_enc(augment: Self::Augment) -> Seq<u8>;

    /// The stored size of the augment.
    spec fn augment_size() -> int;

    /// The stored augment is a small inline field: at most eight bytes.
    proof fn lemma_augment_size_wf()
        ensures
            0 <= Self::augment_size() <= 8;

    /// The augment encoding fills its stored size, and no augment describes
    /// a negative extent.
    proof fn lemma_augment_wf(augment: Self::Augment)
        ensures
            Self::augment_enc(augment).len() == Self::augment_size(),
            Self::layout_size(augment) >= 0;

    /// Equal augment bytes decode to equal augments.
    proof fn lemma_augment_injective(a: Self::Augment, b: Self::Augment)
        requires
            Self::augment_enc(a) == Self::augment_enc(b),
        ensures
            a == b;

    /// The stored augment size, as a machine word.
    fn exec_augment_size() -> (r: usize)
        ensures
            r as int == Self::augment_size();

    /// The target's byte extent, or `None` where it exceeds the address space.
    fn checked_layout_size(augment: &Self::Augment) -> (r: Option<usize>)
        ensures
            match r {
                Some(n) => n as int == Self::layout_size(*augment),
                None => Self::layout_size(*augment) > usize::MAX as int,
            };

    /// Appends the augment bytes to `buf`.
    fn write_augment(buf: &mut Vec<u8>, augment: &Self::Augment)
        ensures
            final(buf)@ == old(buf)@ + Self::augment_enc(*augment);

    /// Decodes the augment stored at `pos` in `buf`.
    fn read_augment(buf: &Vec<u8>, pos: usize) -> (r: Self::Augment)
        requires
            pos + Self::augment_size() <= buf@.len(),
        ensures
            Self::augment_enc(r) == buf@.subrange(pos as int, pos as int + Self::augment_size());

    /// Pairs a raw data position with an augment to form a full pointer.
    fn augment_ptr(pos: usize, augment: &Self::Augment) -> (r: TargetPtr<Self>)
        ensures
            r.pos == pos,
            r.augment == *augment;
}

/// The unsized counterpart of [`Archive`].
///
/// An unsized value's archived form is never written inline: it is reached
/// through a relative pointer whose augment carries the metadata needed to
/// reconstruct a full pointer, such as the payload's length.
pub trait ArchiveUnsized {
    /// The target descriptor for this type's archived payload.
    type Archived: ArchivePtr;

    /// When the payload fits the augment width: its size in range of the
    /// stored field.
    spec fn augment_pre(&self) -> bool;

    /// The augment describing this value's payload.
    spec fn augment_spec(&self) -> <Self::Archived as ArchivePtr>::Augment;

    /// Computes the augment describing this value's payload.
    fn make_augment(&self) -> (r: <Self::Archived as ArchivePtr>::Augment)
        requires
            self.augment_pre(),
        ensures
            r == self.augment_spec();

    /// Builds the relative pointer that will stand at `from` and reach this
    /// value's payload at `to`: the augment paired with the offset.
    fn resolve_unsized(&self, from: usize, to: usize) -> (r: RelPtr<Self::Archived>)
        requires
            self.augment_pre(),
            rel_ptr::OFFSET_MIN <= to - from < rel_ptr::OFFSET_END,
        ensures
            r == RelPtr::<Self::Archived>::new_spec(from as int, to as int, self.augment_spec()),
    {
        let augment = self.make_augment();
        RelPtr::new(from, to, augment)
    }
}

/// The unsized counterpart of [`Serialize`].
pub trait SerializeUnsized<S: Fallible>: ArchiveUnsized {
    /// What must hold of the value and the serializer before serializing.
    spec fn serialize_unsized_pre(&self, s0: S) -> bool;

    /// The exact effect of `serialize_unsized`, including the position of the
    /// written payload and when success is owed.
    spec fn serialize_unsized_post(&self, s0: S, s1: S, r: Result<usize, S::Error>) -> bool;

    /// Writes the whole unsized payload — every element's dependencies before
    /// any element's own footprint — and returns the position where the
    /// payload begins.
    fn serialize_unsized(&self, serializer: &mut S) -> (r: Result<usize, S::Error>)
        requires
            self.serialize_unsized_pre(*old(serializer)),
        ensures
            self.serialize_unsized_post(*old(serializer), *final(serializer), r);
}

/// The unsized counterpart of [`Deserialize`], implemented by full pointers to
/// archived payloads.
pub trait DeserializeUnsized<T, D: Fallible> {
    /// When this pointer may be followed in `buf`: its target must genuinely
    /// be archived there.
    spec fn deserialize_unsized_pre(&self, buf: Seq<u8>) -> bool;

    /// The exact effect of `deserialize_unsized`.
    spec fn deserialize_unsized_post(&self, buf: Seq<u8>, d0: D, d1: D, r: Result<T, D::Error>) -> bool;

    /// Rebuilds an owned value from the payload this pointer refers to.
    fn deserialize_unsized(&self, buf: &Vec<u8>, deserializer: &mut D) -> (r: Result<T, D::Error>)
        requires
            self.deserialize_unsized_pre(buf@),
        ensures
            self.deserialize_unsized_post(buf@, *old(deserializer), *final(deserializer), r);
}

/// A type whose archived form is the value itself.
///
/// Resolving such a type copies it unchanged, so its footprint may be written
/// by a raw copy with no serialize step.  Unlike a mere marker, the claim is
/// proved: every implementation shows that resolving is the identity.
pub trait ArchiveCopy: Archive<Archived = Self> + Copy {
    /// Resolving a copyable value yields the value itself, at any position
    /// and for any resolver.
    proof fn lemma_archive_copy_identity(&self, pos: int, resolver: Self::Resolver)
        requires
            self.resolve_pre(pos, resolver),
        ensures
            self.resolve_spec(pos, resolver) == *self;
}

/// Resolving is position-invariant and pure: what `resolve` produces is a
/// function of the value, the position, and the resolver alone, so two calls
/// with the same arguments yield identical archived forms no matter what
/// buffer state surrounds them.  This is the meaning of the `resolve`
/// contract, restated as a law.
pub proof fn lemma_resolve_pure<V: Archive>(
    v: &V,
    pos: int,
    resolver1: V::Resolver,
    resolver2: V::Resolver,
)
    requires
        resolver1 == resolver2,
    ensures
        v.resolve_spec(pos, resolver1) == v.resolve_spec(pos, resolver2),
{
}

/// Alias for the archived form of some [`Archive`] type.
pub type Archived<T> = <T as Archive>::Archived;

/// Alias for the resolver of some [`Archive`] type.
pub type Resolver<T> = <T as Archive>::Resolver;

/// Wraps a byte buffer that serves as the backing store of an archive.
///
/// An archive buffer owns all archived bytes; every archived view into it is
/// computed from a position and stored offsets and stays meaningful exactly
/// as long as the buffer is kept unchanged.
pub struct Aligned<T>(pub T);

impl<T> Aligned<T> {
    /// The wrapped buffer.
    pub fn as_ref(&self) -> (r: &T)
        ensures
            r == &self.0,
    {
        &self.0
    }
}

/// Decodes the archived form of a `T` stored at `pos` in `bytes`.
///
/// This is the trusted fast path: no bounds beyond the footprint itself are
/// checked, so it is meant for buffers the caller produced or has already
/// validated.  The caller owes the precondition that a value of the archived
/// type genuinely stands at `pos`.
pub fn archived_value<T: Archive>(bytes: &Vec<u8>, pos: usize) -> (r: T::Archived)
    requires
        pos + <T::Archived as Footprint>::spec_size() <= bytes@.len(),
    ensures
        r.placed_at(pos as int),
        r.enc() == bytes@.subrange(pos as int, pos as int + <T::Archived as Footprint>::spec_size()),
{
    <T::Archived as Footprint>::read_footprint(bytes, pos)
}

/// Decodes the relative pointer stored at `pos` in `bytes` and follows it,
/// yielding a full pointer to the unsized archived payload.
///
/// Like [`archived_value`], this is the trusted fast path.
pub fn archived_unsized_value<T: ArchiveUnsized>(bytes: &Vec<u8>, pos: usize) -> (r: TargetPtr<
    T::Archived,
>)
    requires
        pos + <RelPtr<T::Archived> as Footprint>::spec_size() <= bytes@.len(),
        0 <= rel_ptr::stored_target::<T::Archived>(bytes@, pos as int) <= usize::MAX,
    ensures
        r.pos == rel_ptr::stored_target::<T::Archived>(bytes@, pos as int),
        <T::Archived as ArchivePtr>::augment_enc(r.augment) == bytes@.subrange(
            pos as int + 4,
            pos as int + <RelPtr<T::Archived> as Footprint>::spec_size(),
        ),
{
    let ptr = <RelPtr<T::Archived> as Footprint>::read_footprint(bytes, pos);
    proof {
        rel_ptr::lemma_footprint_fields::<T::Archived>(ptr, bytes@, pos as int);
    }
    ptr.as_ptr()
}

} // verus!
