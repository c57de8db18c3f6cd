//! The archived form of a boxed 32-bit value: a relative pointer to a sized
//! target.
//!
//! A sized pointee needs no augment, so this footprint is the stored offset
//! alone — four bytes.  The pointee's footprint is written first, aligned
//! for its type; the pointer is committed afterwards.

use vstd::prelude::*;

use crate::bytes::lemma_signed_roundtrip;
use crate::bytes::lemma_u32_at_of_le_bytes;
use crate::bytes::read_u32_le;
use crate::bytes::u32_at;
use crate::de::AllocDeserializer;
use crate::de::AllocError;
use crate::rel_ptr::lemma_footprint_fields;
use crate::rel_ptr::stored_target;
use crate::rel_ptr::EmptyAugment;
use crate::rel_ptr::RelPtr;
use crate::rel_ptr::TargetPtr;
use crate::rel_ptr::ValueTarget;
use crate::rel_ptr::OFFSET_END;
use crate::rel_ptr::OFFSET_MIN;
use crate::ser::align_up;
use crate::ser::BufSerializer;
use crate::ser::SerializerError;
use crate::Archive;
use crate::ArchiveUnsized;
use crate::Deserialize;
use crate::DeserializeUnsized;
use crate::Footprint;
use crate::Serialize;
use crate::SerializeUnsized;

verus! {

/// The position where the pointee of a box serialized at position `start`
/// of the buffer will land.
pub struct BoxResolver {
    /// The position where the pointee's footprint was written.
    pub value_pos: usize,
}

/// The archived form of a boxed 32-bit value: a relative pointer to the
/// pointee's footprint, with nothing else to store.
pub struct ArchivedBox {
    /// The pointer to the pointee.
    pub ptr: RelPtr<ValueTarget>,
}

impl ArchivedBox {
    /// The position of the pointee this view refers to.
    pub open spec fn target(self) -> int {
        self.ptr.target_spec()
    }

    /// The pointee lies inside `buf`.
    pub open spec fn in_bounds(self, buf: Seq<u8>) -> bool {
        0 <= self.target() && self.target() + 4 <= buf.len()
    }

    /// The pointee value this view refers to in `buf`.
    pub open spec fn value_spec(self, buf: Seq<u8>) -> u32 {
        u32_at(buf, self.target())
    }

    /// Reads the pointee out of the buffer, on the trusted path.
    pub fn read_value(&self, buf: &Vec<u8>) -> (r: u32)
        requires
            self.in_bounds(buf@),
        ensures
            r == self.value_spec(buf@),
    {
        let bl = buf.len();
        let tp = self.ptr.as_ptr();
        read_u32_le(buf, tp.pos)
    }
}

impl Footprint for ArchivedBox {
    open spec fn spec_size() -> int {
        <RelPtr<ValueTarget> as Footprint>::spec_size()
    }

    open spec fn spec_align() -> int {
        <RelPtr<ValueTarget> as Footprint>::spec_align()
    }

    open spec fn enc(self) -> Seq<u8> {
        self.ptr.enc()
    }

    open spec fn placed_at(self, pos: int) -> bool {
        self.ptr.placed_at(pos)
    }

    proof fn lemma_layout_wf() {
        <RelPtr<ValueTarget> as Footprint>::lemma_layout_wf();
    }

    proof fn lemma_enc_len(self) {
        self.ptr.lemma_enc_len();
    }

    proof fn lemma_enc_injective(self, other: Self, pos: int) {
        self.ptr.lemma_enc_injective(other.ptr, pos);
    }

    fn exec_size() -> (r: usize) {
        <RelPtr<ValueTarget> as Footprint>::exec_size()
    }

    fn exec_align() -> (r: usize) {
        <RelPtr<ValueTarget> as Footprint>::exec_align()
    }

    fn write_footprint(&self, buf: &mut Vec<u8>) {
        self.ptr.write_footprint(buf);
    }

    fn read_footprint(buf: &Vec<u8>, pos: usize) -> (r: Self) {
        let ptr = <RelPtr<ValueTarget> as Footprint>::read_footprint(buf, pos);
        ArchivedBox { ptr }
    }
}

impl ArchiveUnsized for u32 {
    type Archived = ValueTarget;

    open spec fn augment_pre(&self) -> bool {
        true
    }

    open spec fn augment_spec(&self) -> EmptyAugment {
        EmptyAugment
    }

    fn make_augment(&self) -> (r: EmptyAugment) {
        EmptyAugment
    }
}

impl SerializeUnsized<BufSerializer> for u32 {
    open spec fn serialize_unsized_pre(&self, s0: BufSerializer) -> bool {
        s0.wf()
    }

    open spec fn serialize_unsized_post(
        &self,
        s0: BufSerializer,
        s1: BufSerializer,
        r: Result<usize, SerializerError>,
    ) -> bool {
        &&& s1.limit == s0.limit
        &&& s1.wf()
        &&& match r {
            Ok(p) => {
                &&& p == align_up(s0.buf@.len() as int, 4)
                &&& p + 4 <= s0.limit
                &&& s1.buf@.len() == p + 4
                &&& s1.buf@.len() as int % 4 == 0
                &&& s1.buf@.subrange(0, s0.buf@.len() as int) == s0.buf@
                &&& u32_at(s1.buf@, p as int) == *self
            },
            Err(e) => {
                &&& e == SerializerError::Full
                &&& align_up(s0.buf@.len() as int, 4) + 4 > s0.limit
            },
        }
    }

    /// Aligns the writer and writes this value's own footprint, returning
    /// its position.
    fn serialize_unsized(&self, serializer: &mut BufSerializer) -> (r: Result<
        usize,
        SerializerError,
    >) {
        match serializer.align_for::<u32>() {
            Ok(()) => {},
            Err(e) => {
                return Err(e);
            },
        }
        let ghost aligned = serializer.buf@;
        match serializer.resolve_aligned::<u32>(self, ()) {
            Ok(p) => {
                proof {
                    assert(serializer.buf@.subrange(p as int, p as int + 4)
                        =~= crate::bytes::le_bytes(*self));
                    lemma_u32_at_of_le_bytes(serializer.buf@, p as int, *self);
                    let b = serializer.buf@;
                    let s0b = old(serializer).buf@;
                    assert forall|k: int| 0 <= k < s0b.len() implies b[k] == s0b[k] by {
                        assert(aligned.subrange(0, s0b.len() as int)[k] == aligned[k]);
                        assert(aligned[k] == b[k]);
                    }
                    assert(b.subrange(0, s0b.len() as int) =~= s0b);
                }
                Ok(p)
            },
            Err(e) => Err(e),
        }
    }
}

impl Archive for Box<u32> {
    type Archived = ArchivedBox;

    type Resolver = BoxResolver;

    open spec fn resolve_pre(&self, pos: int, resolver: BoxResolver) -> bool {
        &&& 0 <= pos <= usize::MAX
        &&& OFFSET_MIN <= resolver.value_pos - pos < OFFSET_END
    }

    open spec fn resolve_spec(&self, pos: int, resolver: BoxResolver) -> ArchivedBox {
        ArchivedBox {
            ptr: RelPtr::<ValueTarget>::new_spec(pos, resolver.value_pos as int, EmptyAugment),
        }
    }

    proof fn lemma_resolve_placed(&self, pos: int, resolver: BoxResolver) {
    }

    fn resolve(&self, pos: usize, resolver: BoxResolver) -> (r: ArchivedBox) {
        ArchivedBox { ptr: (**self).resolve_unsized(pos, resolver.value_pos) }
    }
}

impl Serialize<BufSerializer> for Box<u32> {
    open spec fn serialize_pre(&self, s0: BufSerializer) -> bool {
        s0.wf()
    }

    open spec fn serialize_post(
        &self,
        s0: BufSerializer,
        s1: BufSerializer,
        r: Result<BoxResolver, SerializerError>,
    ) -> bool {
        &&& s1.limit == s0.limit
        &&& s1.wf()
        &&& match r {
            Ok(res) => {
                &&& res.value_pos == align_up(s0.buf@.len() as int, 4)
                &&& res.value_pos + 4 <= s0.limit
                &&& s1.buf@.len() == res.value_pos + 4
                &&& s1.buf@.len() as int % 4 == 0
                &&& s1.buf@.subrange(0, s0.buf@.len() as int) == s0.buf@
                &&& u32_at(s1.buf@, res.value_pos as int) == **self
            },
            Err(e) => {
                &&& e == SerializerError::Full
                &&& align_up(s0.buf@.len() as int, 4) + 4 > s0.limit
            },
        }
    }

    /// Writes the pointee — this box's one dependency — and returns a
    /// resolver recording where it landed.
    fn serialize(&self, serializer: &mut BufSerializer) -> (r: Result<
        BoxResolver,
        SerializerError,
    >) {
        match (**self).serialize_unsized(serializer) {
            Ok(value_pos) => Ok(BoxResolver { value_pos }),
            Err(e) => Err(e),
        }
    }
}

impl DeserializeUnsized<u32, AllocDeserializer> for TargetPtr<ValueTarget> {
    open spec fn deserialize_unsized_pre(&self, buf: Seq<u8>) -> bool {
        self.pos + 4 <= buf.len()
    }

    open spec fn deserialize_unsized_post(
        &self,
        buf: Seq<u8>,
        d0: AllocDeserializer,
        d1: AllocDeserializer,
        r: Result<u32, AllocError>,
    ) -> bool {
        match r {
            Ok(v) => {
                &&& v == u32_at(buf, self.pos as int)
                &&& 4 <= d0.remaining
                &&& d1.remaining == d0.remaining - 4
            },
            Err(e) => {
                &&& e == AllocError::OutOfMemory
                &&& 4 > d0.remaining
                &&& d1 == d0
            },
        }
    }

    /// Rebuilds the pointee value, allocating its footprint from the budget.
    fn deserialize_unsized(&self, buf: &Vec<u8>, deserializer: &mut AllocDeserializer) -> (r:
        Result<u32, AllocError>) {
        let bl = buf.len();
        match deserializer.allocate(4) {
            Ok(()) => {},
            Err(e) => {
                return Err(e);
            },
        }
        Ok(read_u32_le(buf, self.pos))
    }
}

impl Deserialize<Box<u32>, AllocDeserializer> for ArchivedBox {
    open spec fn deserialize_pre(&self, buf: Seq<u8>) -> bool {
        self.in_bounds(buf)
    }

    open spec fn deserialize_post(
        &self,
        buf: Seq<u8>,
        d0: AllocDeserializer,
        d1: AllocDeserializer,
        r: Result<Box<u32>, AllocError>,
    ) -> bool {
        match r {
            Ok(v) => {
                &&& *v == self.value_spec(buf)
                &&& 4 <= d0.remaining
                &&& d1.remaining == d0.remaining - 4
            },
            Err(e) => {
                &&& e == AllocError::OutOfMemory
                &&& 4 > d0.remaining
                &&& d1 == d0
            },
        }
    }

    /// Follows the pointer and rebuilds the owned box.
    fn deserialize(&self, buf: &Vec<u8>, deserializer: &mut AllocDeserializer) -> (r: Result<
        Box<u32>,
        AllocError,
    >) {
        let bl = buf.len();
        let tp = self.ptr.as_ptr();
        match tp.deserialize_unsized(buf, deserializer) {
            Ok(v) => Ok(Box::new(v)),
            Err(e) => Err(e),
        }
    }
}

/// One past the last position an archive of a box started at `start`
/// reaches: alignment padding, the pointee, and the footprint.
pub open spec fn box_end(start: int) -> int {
    align_up(start, 4) + 8
}

/// What the buffer holds once a box has been archived with its footprint at
/// `pos`: the footprint encodes a pointer to an aligned pointee that lies
/// fully before the footprint and equals `value`.
pub open spec fn box_archived_at(b: Seq<u8>, pos: int, value: u32) -> bool {
    &&& 0 <= pos
    &&& pos + 4 <= b.len()
    &&& {
        let t = stored_target::<ValueTarget>(b, pos);
        &&& 0 <= t
        &&& t % 4 == 0
        &&& t + 4 <= pos
        &&& u32_at(b, t) == value
    }
}

/// Archives a boxed value: writes the aligned pointee, then commits the
/// footprint at the returned position.
///
/// Success is owed exactly when the whole archive fits the capacity.  The
/// serializer's capacity must stay within the compact offset width, so that
/// any backward distance inside the buffer fits a stored offset.
pub fn archive_box(serializer: &mut BufSerializer, value: &Box<u32>) -> (r: Result<
    usize,
    SerializerError,
>)
    requires
        old(serializer).wf(),
        old(serializer).limit <= OFFSET_END,
    ensures
        final(serializer).wf(),
        final(serializer).limit == old(serializer).limit,
        match r {
            Ok(p) => {
                &&& p == align_up(old(serializer).buf@.len() as int, 4) + 4
                &&& final(serializer).buf@.len() == p + 4
                &&& box_end(old(serializer).buf@.len() as int) <= old(serializer).limit
                &&& final(serializer).buf@.subrange(0, old(serializer).buf@.len() as int) == old(
                    serializer,
                ).buf@
                &&& box_archived_at(final(serializer).buf@, p as int, **value)
                &&& stored_target::<ValueTarget>(final(serializer).buf@, p as int) == align_up(
                    old(serializer).buf@.len() as int,
                    4,
                )
            },
            Err(e) => {
                &&& e == SerializerError::Full
                &&& box_end(old(serializer).buf@.len() as int) > old(serializer).limit
            },
        },
{
    let resolver = match value.serialize(serializer) {
        Ok(res) => res,
        Err(e) => {
            return Err(e);
        },
    };
    let ghost payload = resolver.value_pos as int;
    match serializer.align_for::<ArchivedBox>() {
        Ok(()) => {},
        Err(e) => {
            proof {
                // the writer is already aligned after the pointee, so
                // aligning for the footprint pads nothing and cannot fail
                assert(false);
            }
            return Err(e);
        },
    }
    let ghost mid = serializer.buf@;
    match serializer.resolve_aligned::<Box<u32>>(value, resolver) {
        Ok(p) => {
            proof {
                let b = serializer.buf@;
                let pos = p as int;
                let arch = value.resolve_spec(pos, BoxResolver { value_pos: resolver.value_pos });
                assert(b =~= mid + arch.enc());
                assert(b.subrange(pos, pos + 4) =~= crate::bytes::le_bytes(
                    crate::bytes::bits32(arch.ptr.offset as int),
                ));
                lemma_u32_at_of_le_bytes(b, pos, crate::bytes::bits32(arch.ptr.offset as int));
                lemma_signed_roundtrip(arch.ptr.offset as int);
                assert(stored_target::<ValueTarget>(b, pos) == payload);
                assert(b.subrange(0, mid.len() as int) =~= mid);
                assert(u32_at(b, payload) == u32_at(mid, payload));
                assert(b.subrange(0, old(serializer).buf@.len() as int) =~= old(serializer).buf@);
                assert(box_archived_at(b, pos, **value));
            }
            Ok(p)
        },
        Err(e) => Err(e),
    }
}

/// Round-trip for boxes: any footprint view read back from a buffer in which
/// a box was archived at `pos` refers to exactly the value that was written.
pub proof fn lemma_box_round_trip(b: Seq<u8>, pos: int, value: u32, v: ArchivedBox)
    requires
        box_archived_at(b, pos, value),
        v.placed_at(pos),
        v.enc() == b.subrange(pos, pos + 4),
    ensures
        v.in_bounds(b),
        v.value_spec(b) == value,
{
    lemma_footprint_fields::<ValueTarget>(v.ptr, b, pos);
}

/// Full round-trip for boxes: when a buffer holds an archived box, reading
/// the footprint back and deserializing it is owed to succeed within the
/// pointee's budget and restores exactly the value written.
pub proof fn lemma_box_restored(
    b: Seq<u8>,
    pos: int,
    value: u32,
    v: ArchivedBox,
    d0: AllocDeserializer,
    d1: AllocDeserializer,
    r: Result<Box<u32>, AllocError>,
)
    requires
        box_archived_at(b, pos, value),
        v.placed_at(pos),
        v.enc() == b.subrange(pos, pos + 4),
        4 <= d0.remaining,
        v.deserialize_post(b, d0, d1, r),
    ensures
        match r {
            Ok(out) => *out == value,
            Err(e) => false,
        },
{
    lemma_box_round_trip(b, pos, value, v);
}

} // verus!
