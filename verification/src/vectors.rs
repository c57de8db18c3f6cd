//! The archived form of a sequence of 32-bit values: a relative pointer to a
//! contiguous payload of element footprints.
//!
//! The payload is written before the footprint, after aligning the writer
//! for the element type; the pointer's augment is the element count.  The
//! head/tail discipline holds trivially here — a 32-bit element owns no
//! dependencies — but the writing order is the general one: all element
//! dependencies first, then every element's own footprint, contiguously.

use vstd::prelude::*;

use crate::bytes::lemma_signed_roundtrip;
use crate::bytes::lemma_u32_at_of_le_bytes;
use crate::bytes::read_u32_le;
use crate::bytes::u32_at;
use crate::de::AllocDeserializer;
use crate::de::AllocError;
use crate::rel_ptr::lemma_footprint_fields;
use crate::rel_ptr::stored_target;
use crate::rel_ptr::RelPtr;
use crate::rel_ptr::SliceTarget;
use crate::rel_ptr::TargetPtr;
use crate::rel_ptr::OFFSET_END;
use crate::rel_ptr::OFFSET_MIN;
use crate::ser::align_up;
use crate::ser::BufSerializer;
use crate::ser::SerializerError;
use crate::Archive;
use crate::ArchiveUnsized;
use crate::Deserialize;
use crate::DeserializeUnsized;
use crate::Footprint;
use crate::Serialize;
use crate::SerializeUnsized;

verus! {

/// The `n` 32-bit values stored contiguously at `pos`.
pub open spec fn u32s_at(b: Seq<u8>, pos: int, n: int) -> Seq<u32>
    recommends
        0 <= pos,
        0 <= n,
        pos + 4 * n <= b.len(),
{
    Seq::new(n as nat, |i: int| u32_at(b, pos + 4 * i))
}

/// Values stored below the end of a buffer are untouched by appending to it.
pub proof fn lemma_u32s_at_stable(b1: Seq<u8>, b2: Seq<u8>, pos: int, n: int)
    requires
        0 <= pos,
        0 <= n,
        pos + 4 * n <= b1.len(),
        b1.len() <= b2.len(),
        b2.subrange(0, b1.len() as int) == b1,
    ensures
        u32s_at(b2, pos, n) == u32s_at(b1, pos, n),
{
    assert forall|i: int| 0 <= i < n implies u32s_at(b2, pos, n)[i] == u32s_at(b1, pos, n)[i] by {
        assert forall|k: int| 0 <= k < b1.len() implies b2[k] == b1[k] by {
            assert(b2.subrange(0, b1.len() as int)[k] == b2[k]);
        }
        assert(u32_at(b2, pos + 4 * i) == u32_at(b1, pos + 4 * i));
    }
    assert(u32s_at(b2, pos, n) =~= u32s_at(b1, pos, n));
}

/// The position where the element payload of a sequence serialized at
/// position `start` of the buffer will land.
pub struct VecResolver {
    /// The position where the element payloads were written.
    pub payload_pos: usize,
}

/// The archived form of a sequence of 32-bit values: a relative pointer to
/// the contiguous payload, with the element count as its augment.
pub struct ArchivedVec {
    /// The pointer to the payload.
    pub ptr: RelPtr<SliceTarget>,
}

impl ArchivedVec {
    /// The position of the payload this view refers to.
    pub open spec fn target(self) -> int {
        self.ptr.target_spec()
    }

    /// The element count.
    pub open spec fn len_spec(self) -> int {
        self.ptr.augment as int
    }

    /// The payload lies inside `buf`.
    pub open spec fn in_bounds(self, buf: Seq<u8>) -> bool {
        0 <= self.target() && self.target() + 4 * self.len_spec() <= buf.len()
    }

    /// The elements this view refers to in `buf`.
    pub open spec fn elements(self, buf: Seq<u8>) -> Seq<u32> {
        u32s_at(buf, self.target(), self.len_spec())
    }

    /// Reads the elements out of the buffer, on the trusted path.
    pub fn read_elements(&self, buf: &Vec<u8>) -> (r: Vec<u32>)
        requires
            self.in_bounds(buf@),
        ensures
            r@ == self.elements(buf@),
    {
        let bl = buf.len();
        let tp = self.ptr.as_ptr();
        let len = tp.augment as usize;
        let mut out: Vec<u32> = Vec::new();
        let mut j: usize = 0;
        while j < len
            invariant
                j <= len,
                len == self.len_spec(),
                tp.pos == self.target(),
                tp.pos + 4 * len <= buf@.len() <= usize::MAX,
                out@ == self.elements(buf@).subrange(0, j as int),
            decreases len - j,
        {
            let v = read_u32_le(buf, tp.pos + 4 * j);
            out.push(v);
            j = j + 1;
            proof {
                assert(out@ =~= self.elements(buf@).subrange(0, j as int));
            }
        }
        proof {
            assert(self.elements(buf@).subrange(0, len as int) =~= self.elements(buf@));
        }
        out
    }
}

impl Footprint for ArchivedVec {
    open spec fn spec_size() -> int {
        <RelPtr<SliceTarget> as Footprint>::spec_size()
    }

    open spec fn spec_align() -> int {
        <RelPtr<SliceTarget> as Footprint>::spec_align()
    }

    open spec fn enc(self) -> Seq<u8> {
        self.ptr.enc()
    }

    open spec fn placed_at(self, pos: int) -> bool {
        self.ptr.placed_at(pos)
    }

    proof fn lemma_layout_wf() {
        <RelPtr<SliceTarget> as Footprint>::lemma_layout_wf();
    }

    proof fn lemma_enc_len(self) {
        self.ptr.lemma_enc_len();
    }

    proof fn lemma_enc_injective(self, other: Self, pos: int) {
        self.ptr.lemma_enc_injective(other.ptr, pos);
    }

    fn exec_size() -> (r: usize) {
        <RelPtr<SliceTarget> as Footprint>::exec_size()
    }

    fn exec_align() -> (r: usize) {
        <RelPtr<SliceTarget> as Footprint>::exec_align()
    }

    fn write_footprint(&self, buf: &mut Vec<u8>) {
        self.ptr.write_footprint(buf);
    }

    fn read_footprint(buf: &Vec<u8>, pos: usize) -> (r: Self) {
        let ptr = <RelPtr<SliceTarget> as Footprint>::read_footprint(buf, pos);
        ArchivedVec { ptr }
    }
}

impl ArchiveUnsized for Vec<u32> {
    type Archived = SliceTarget;

    open spec fn augment_pre(&self) -> bool {
        self@.len() <= u32::MAX
    }

    open spec fn augment_spec(&self) -> u32 {
        self@.len() as u32
    }

    fn make_augment(&self) -> (r: u32) {
        self.len() as u32
    }
}

impl Archive for Vec<u32> {
    type Archived = ArchivedVec;

    type Resolver = VecResolver;

    open spec fn resolve_pre(&self, pos: int, resolver: VecResolver) -> bool {
        &&& 0 <= pos <= usize::MAX
        &&& self@.len() <= u32::MAX
        &&& OFFSET_MIN <= resolver.payload_pos - pos < OFFSET_END
    }

    open spec fn resolve_spec(&self, pos: int, resolver: VecResolver) -> ArchivedVec {
        ArchivedVec {
            ptr: RelPtr::<SliceTarget>::new_spec(
                pos,
                resolver.payload_pos as int,
                self@.len() as u32,
            ),
        }
    }

    proof fn lemma_resolve_placed(&self, pos: int, resolver: VecResolver) {
    }

    fn resolve(&self, pos: usize, resolver: VecResolver) -> (r: ArchivedVec) {
        ArchivedVec { ptr: self.resolve_unsized(pos, resolver.payload_pos) }
    }
}

impl SerializeUnsized<BufSerializer> for Vec<u32> {
    open spec fn serialize_unsized_pre(&self, s0: BufSerializer) -> bool {
        s0.wf()
    }

    open spec fn serialize_unsized_post(
        &self,
        s0: BufSerializer,
        s1: BufSerializer,
        r: Result<usize, SerializerError>,
    ) -> bool {
        &&& s1.limit == s0.limit
        &&& s1.wf()
        &&& match r {
            Ok(p) => {
                &&& p == align_up(s0.buf@.len() as int, 4)
                &&& p + 4 * self@.len() <= s0.limit
                &&& s1.buf@.len() == p + 4 * self@.len()
                &&& s1.buf@.len() as int % 4 == 0
                &&& s1.buf@.subrange(0, s0.buf@.len() as int) == s0.buf@
                &&& u32s_at(s1.buf@, p as int, self@.len() as int) == self@
            },
            Err(e) => {
                &&& e == SerializerError::Full
                &&& align_up(s0.buf@.len() as int, 4) + 4 * self@.len() > s0.limit
            },
        }
    }

    /// Aligns the writer for the element type, then writes every element's
    /// footprint contiguously, returning the position where they begin.
    fn serialize_unsized(&self, serializer: &mut BufSerializer) -> (r: Result<
        usize,
        SerializerError,
    >) {
        match serializer.align_for::<u32>() {
            Ok(()) => {},
            Err(e) => {
                return Err(e);
            },
        }
        let p = serializer.pos();
        let ghost aligned = serializer.buf@;
        let n = self.len();
        let mut i: usize = 0;
        proof {
            assert(u32s_at(serializer.buf@, p as int, 0) =~= self@.subrange(0, 0));
            assert(serializer.buf@.subrange(0, aligned.len() as int) =~= aligned);
            assert(aligned.subrange(0, old(serializer).buf@.len() as int) =~= old(
                serializer,
            ).buf@);
        }
        while i < n
            invariant
                i <= n,
                n == self@.len(),
                serializer.limit == old(serializer).limit,
                serializer.wf(),
                p as int == align_up(old(serializer).buf@.len() as int, 4),
                serializer.buf@.len() == p + 4 * i,
                serializer.buf@.len() as int % 4 == 0,
                p + 4 * i <= serializer.limit,
                serializer.buf@.subrange(0, aligned.len() as int) == aligned,
                p == aligned.len(),
                aligned.subrange(0, old(serializer).buf@.len() as int) == old(serializer).buf@,
                old(serializer).buf@.len() <= aligned.len(),
                u32s_at(serializer.buf@, p as int, i as int) == self@.subrange(0, i as int),
            decreases n - i,
        {
            let ghost before = serializer.buf@;
            let elem = self[i];
            match serializer.resolve_aligned::<u32>(&elem, ()) {
                Ok(_) => {},
                Err(e) => {
                    proof {
                        assert(p + 4 * n > serializer.limit);
                    }
                    return Err(e);
                },
            }
            i = i + 1;
            proof {
                assert(serializer.buf@.subrange(0, before.len() as int) =~= before);
                assert(serializer.buf@.subrange(0, aligned.len() as int) =~= aligned);
                assert(serializer.buf@.subrange(
                    before.len() as int,
                    before.len() as int + 4,
                ) =~= crate::bytes::le_bytes(elem));
                lemma_u32_at_of_le_bytes(serializer.buf@, before.len() as int, elem);
                lemma_u32s_at_stable(before, serializer.buf@, p as int, i - 1);
                assert(u32s_at(serializer.buf@, p as int, i as int) =~= self@.subrange(
                    0,
                    i as int,
                ));
            }
        }
        proof {
            assert(self@.subrange(0, n as int) =~= self@);
            let b = serializer.buf@;
            let s0b = old(serializer).buf@;
            assert forall|k: int| 0 <= k < s0b.len() implies b[k] == s0b[k] by {
                assert(b.subrange(0, aligned.len() as int)[k] == b[k]);
                assert(aligned.subrange(0, s0b.len() as int)[k] == aligned[k]);
            }
            assert(b.subrange(0, s0b.len() as int) =~= s0b);
        }
        Ok(p)
    }
}

impl Serialize<BufSerializer> for Vec<u32> {
    open spec fn serialize_pre(&self, s0: BufSerializer) -> bool {
        s0.wf()
    }

    open spec fn serialize_post(
        &self,
        s0: BufSerializer,
        s1: BufSerializer,
        r: Result<VecResolver, SerializerError>,
    ) -> bool {
        &&& s1.limit == s0.limit
        &&& s1.wf()
        &&& match r {
            Ok(res) => {
                &&& res.payload_pos == align_up(s0.buf@.len() as int, 4)
                &&& res.payload_pos + 4 * self@.len() <= s0.limit
                &&& s1.buf@.len() == res.payload_pos + 4 * self@.len()
                &&& s1.buf@.len() as int % 4 == 0
                &&& s1.buf@.subrange(0, s0.buf@.len() as int) == s0.buf@
                &&& u32s_at(s1.buf@, res.payload_pos as int, self@.len() as int) == self@
            },
            Err(e) => {
                &&& e == SerializerError::Full
                &&& align_up(s0.buf@.len() as int, 4) + 4 * self@.len() > s0.limit
            },
        }
    }

    /// Writes the element payload — this sequence's one dependency — and
    /// returns a resolver recording where it landed.
    fn serialize(&self, serializer: &mut BufSerializer) -> (r: Result<
        VecResolver,
        SerializerError,
    >) {
        match self.serialize_unsized(serializer) {
            Ok(payload_pos) => Ok(VecResolver { payload_pos }),
            Err(e) => Err(e),
        }
    }
}

impl DeserializeUnsized<Vec<u32>, AllocDeserializer> for TargetPtr<SliceTarget> {
    open spec fn deserialize_unsized_pre(&self, buf: Seq<u8>) -> bool {
        self.pos + 4 * self.augment <= buf.len()
    }

    open spec fn deserialize_unsized_post(
        &self,
        buf: Seq<u8>,
        d0: AllocDeserializer,
        d1: AllocDeserializer,
        r: Result<Vec<u32>, AllocError>,
    ) -> bool {
        match r {
            Ok(v) => {
                &&& v@ == u32s_at(buf, self.pos as int, self.augment as int)
                &&& 4 * self.augment <= d0.remaining
                &&& d1.remaining == d0.remaining - 4 * self.augment
            },
            Err(e) => {
                &&& e == AllocError::OutOfMemory
                &&& 4 * self.augment > d0.remaining
                &&& d1 == d0
            },
        }
    }

    /// Rebuilds an owned sequence from the payload this pointer refers to,
    /// allocating four bytes per element from the budget.
    fn deserialize_unsized(&self, buf: &Vec<u8>, deserializer: &mut AllocDeserializer) -> (r:
        Result<Vec<u32>, AllocError>) {
        let bl = buf.len();
        let len = self.augment as usize;
        match deserializer.allocate(4 * len) {
            Ok(()) => {},
            Err(e) => {
                return Err(e);
            },
        }
        let mut out: Vec<u32> = Vec::new();
        let mut j: usize = 0;
        while j < len
            invariant
                j <= len,
                len == self.augment,
                self.pos + 4 * len <= buf@.len() <= usize::MAX,
                out@ == u32s_at(buf@, self.pos as int, len as int).subrange(0, j as int),
            decreases len - j,
        {
            let v = read_u32_le(buf, self.pos + 4 * j);
            out.push(v);
            j = j + 1;
            proof {
                assert(out@ =~= u32s_at(buf@, self.pos as int, len as int).subrange(0, j as int));
            }
        }
        proof {
            assert(u32s_at(buf@, self.pos as int, len as int).subrange(
                0,
                len as int,
            ) =~= u32s_at(buf@, self.pos as int, len as int));
        }
        Ok(out)
    }
}

impl Deserialize<Vec<u32>, AllocDeserializer> for ArchivedVec {
    open spec fn deserialize_pre(&self, buf: Seq<u8>) -> bool {
        self.in_bounds(buf)
    }

    open spec fn deserialize_post(
        &self,
        buf: Seq<u8>,
        d0: AllocDeserializer,
        d1: AllocDeserializer,
        r: Result<Vec<u32>, AllocError>,
    ) -> bool {
        match r {
            Ok(v) => {
                &&& v@ == self.elements(buf)
                &&& 4 * self.len_spec() <= d0.remaining
                &&& d1.remaining == d0.remaining - 4 * self.len_spec()
            },
            Err(e) => {
                &&& e == AllocError::OutOfMemory
                &&& 4 * self.len_spec() > d0.remaining
                &&& d1 == d0
            },
        }
    }

    /// Follows the pointer and rebuilds the owned sequence.
    fn deserialize(&self, buf: &Vec<u8>, deserializer: &mut AllocDeserializer) -> (r: Result<
        Vec<u32>,
        AllocError,
    >) {
        let bl = buf.len();
        let tp = self.ptr.as_ptr();
        tp.deserialize_unsized(buf, deserializer)
    }
}

/// One past the last position an archive of a sequence started at `start`
/// reaches: alignment padding, the element payload, and the footprint.
pub open spec fn vec_end(start: int, len: int) -> int {
    align_up(start, 4) + 4 * len + 8
}

/// What the buffer holds once a sequence has been archived with its
/// footprint at `pos`: the footprint encodes a pointer to an aligned payload
/// that lies fully before the footprint and holds exactly `content`.
pub open spec fn vec_archived_at(b: Seq<u8>, pos: int, content: Seq<u32>) -> bool {
    &&& 0 <= pos
    &&& pos + 8 <= b.len()
    &&& content.len() <= u32::MAX
    &&& u32_at(b, pos + 4) == content.len()
    &&& {
        let t = stored_target::<SliceTarget>(b, pos);
        &&& 0 <= t
        &&& t % 4 == 0
        &&& t + 4 * content.len() <= pos
        &&& u32s_at(b, t, content.len() as int) == content
    }
}

/// Archives a sequence: writes its aligned element payload, then commits the
/// footprint at the returned position.
///
/// Success is owed exactly when the whole archive fits the capacity.  The
/// serializer's capacity must stay within the compact offset width, so that
/// any backward distance inside the buffer fits a stored offset.
pub fn archive_vec(serializer: &mut BufSerializer, value: &Vec<u32>) -> (r: Result<
    usize,
    SerializerError,
>)
    requires
        old(serializer).wf(),
        old(serializer).limit <= OFFSET_END,
        value@.len() <= u32::MAX,
    ensures
        final(serializer).wf(),
        final(serializer).limit == old(serializer).limit,
        match r {
            Ok(p) => {
                &&& p == align_up(old(serializer).buf@.len() as int, 4) + 4 * value@.len()
                &&& final(serializer).buf@.len() == p + 8
                &&& vec_end(old(serializer).buf@.len() as int, value@.len() as int) <= old(
                    serializer,
                ).limit
                &&& final(serializer).buf@.subrange(0, old(serializer).buf@.len() as int) == old(
                    serializer,
                ).buf@
                &&& vec_archived_at(final(serializer).buf@, p as int, value@)
                &&& stored_target::<SliceTarget>(final(serializer).buf@, p as int) == align_up(
                    old(serializer).buf@.len() as int,
                    4,
                )
            },
            Err(e) => {
                &&& e == SerializerError::Full
                &&& vec_end(old(serializer).buf@.len() as int, value@.len() as int) > old(
                    serializer,
                ).limit
            },
        },
{
    let resolver = match value.serialize(serializer) {
        Ok(res) => res,
        Err(e) => {
            return Err(e);
        },
    };
    let ghost payload = resolver.payload_pos as int;
    match serializer.align_for::<ArchivedVec>() {
        Ok(()) => {},
        Err(e) => {
            proof {
                // the writer is already element-aligned, so aligning for the
                // footprint pads nothing and cannot fail
                assert(false);
            }
            return Err(e);
        },
    }
    let ghost mid = serializer.buf@;
    match serializer.resolve_aligned::<Vec<u32>>(value, resolver) {
        Ok(p) => {
            proof {
                let b = serializer.buf@;
                let pos = p as int;
                let arch = value.resolve_spec(
                    pos,
                    VecResolver { payload_pos: resolver.payload_pos },
                );
                assert(mid =~= mid.subrange(0, mid.len() as int));
                assert(b =~= mid + arch.enc());
                assert(b.subrange(pos, pos + 4) =~= crate::bytes::le_bytes(
                    crate::bytes::bits32(arch.ptr.offset as int),
                ));
                assert(b.subrange(pos + 4, pos + 8) =~= crate::bytes::le_bytes(arch.ptr.augment));
                lemma_u32_at_of_le_bytes(b, pos, crate::bytes::bits32(arch.ptr.offset as int));
                lemma_u32_at_of_le_bytes(b, pos + 4, arch.ptr.augment);
                lemma_signed_roundtrip(arch.ptr.offset as int);
                assert(stored_target::<SliceTarget>(b, pos) == payload);
                assert(b.subrange(0, mid.len() as int) =~= mid);
                lemma_u32s_at_stable(mid, b, payload, value@.len() as int);
                assert(b.subrange(0, old(serializer).buf@.len() as int) =~= old(serializer).buf@);
                assert(vec_archived_at(b, pos, value@));
            }
            Ok(p)
        },
        Err(e) => Err(e),
    }
}

/// Round-trip for sequences: any footprint view read back from a buffer in
/// which a sequence was archived at `pos` refers to exactly the elements
/// that were written.
pub proof fn lemma_vec_round_trip(b: Seq<u8>, pos: int, content: Seq<u32>, v: ArchivedVec)
    requires
        vec_archived_at(b, pos, content),
        v.placed_at(pos),
        v.enc() == b.subrange(pos, pos + 8),
    ensures
        v.in_bounds(b),
        v.len_spec() == content.len(),
        v.elements(b) == content,
{
    lemma_footprint_fields::<SliceTarget>(v.ptr, b, pos);
    assert(<SliceTarget as crate::ArchivePtr>::augment_enc(v.ptr.augment) == b.subrange(
        pos + 4,
        pos + 8,
    ));
    lemma_u32_at_of_le_bytes(b, pos + 4, v.ptr.augment);
}

/// Full round-trip for sequences: when a buffer holds an archived sequence,
/// reading the footprint back and deserializing it is owed to succeed
/// within the payload's budget and restores exactly the elements written.
pub proof fn lemma_vec_restored(
    b: Seq<u8>,
    pos: int,
    content: Seq<u32>,
    v: ArchivedVec,
    d0: AllocDeserializer,
    d1: AllocDeserializer,
    r: Result<Vec<u32>, AllocError>,
)
    requires
        vec_archived_at(b, pos, content),
        v.placed_at(pos),
        v.enc() == b.subrange(pos, pos + 8),
        4 * content.len() <= d0.remaining,
        v.deserialize_post(b, d0, d1, r),
    ensures
        match r {
            Ok(out) => out@ == content,
            Err(e) => false,
        },
{
    lemma_vec_round_trip(b, pos, content, v);
}

} // verus!
