//! The archived form of owned text: a relative pointer to the payload bytes.
//!
//! Text is the simplest unsized payload: its bytes are written first, and
//! the footprint is a relative pointer whose augment is the byte length.
//! Text content is restricted to the seven-bit range, which gives the
//! validation pass a real content check to perform on the payload.

use vstd::prelude::*;

use crate::bytes::u32_at;
use crate::bytes::lemma_u32_at_of_le_bytes;
use crate::bytes::lemma_signed_roundtrip;
use crate::de::AllocDeserializer;
use crate::de::AllocError;
use crate::rel_ptr::lemma_footprint_fields;
use crate::rel_ptr::stored_target;
use crate::rel_ptr::RelPtr;
use crate::rel_ptr::StrTarget;
use crate::rel_ptr::TargetPtr;
use crate::rel_ptr::OFFSET_END;
use crate::rel_ptr::OFFSET_MIN;
use crate::ser::align_up;
use crate::ser::BufSerializer;
use crate::ser::SerializerError;
use crate::Archive;
use crate::ArchiveUnsized;
use crate::Deserialize;
use crate::DeserializeUnsized;
use crate::Footprint;
use crate::Serialize;
use crate::SerializeUnsized;

verus! {

/// Well-formed text content: every byte is in the seven-bit range.
pub open spec fn text_wf(s: Seq<u8>) -> bool {
    forall|i: int| 0 <= i < s.len() ==> s[i] < 128
}

/// Owned text whose bytes are all in the seven-bit range.
#[derive(Debug, PartialEq, Eq)]
pub struct Text {
    data: Vec<u8>,
}

impl View for Text {
    type V = Seq<u8>;

    closed spec fn view(&self) -> Seq<u8> {
        self.data@
    }
}

impl Text {
    /// Every `Text` holds well-formed content.
    pub open spec fn wf(self) -> bool {
        text_wf(self@)
    }

    /// Accepts the bytes as text if they are all in range, and rejects them
    /// otherwise.
    pub fn new(data: Vec<u8>) -> (r: Option<Text>)
        ensures
            match r {
                Some(t) => t@ == data@ && t.wf(),
                None => !text_wf(data@),
            },
    {
        let n = data.len();
        let mut i: usize = 0;
        while i < n
            invariant
                i <= n,
                n == data@.len(),
                forall|k: int| 0 <= k < i ==> data@[k] < 128,
            decreases n - i,
        {
            if data[i] >= 128 {
                return None;
            }
            i = i + 1;
        }
        Some(Text { data })
    }

    /// The text bytes.
    pub fn as_bytes(&self) -> (r: &Vec<u8>)
        ensures
            r@ == self@,
    {
        &self.data
    }
}

/// The position where the text payload of a value serialized at position
/// `start` of the buffer will land.
pub struct StringResolver {
    /// The position where the payload bytes were written.
    pub bytes_pos: usize,
}

/// The archived form of text: a relative pointer to the payload bytes, with
/// the byte length as its augment.
pub struct ArchivedString {
    /// The pointer to the payload.
    pub ptr: RelPtr<StrTarget>,
}

impl ArchivedString {
    /// The position of the payload this view refers to.
    pub open spec fn target(self) -> int {
        self.ptr.target_spec()
    }

    /// The payload length in bytes.
    pub open spec fn len_spec(self) -> int {
        self.ptr.augment as int
    }

    /// The payload lies inside `buf`.
    pub open spec fn in_bounds(self, buf: Seq<u8>) -> bool {
        0 <= self.target() && self.target() + self.len_spec() <= buf.len()
    }

    /// The payload bytes this view refers to in `buf`.
    pub open spec fn content(self, buf: Seq<u8>) -> Seq<u8> {
        buf.subrange(self.target(), self.target() + self.len_spec())
    }

    /// Reads the payload bytes out of the buffer, on the trusted path.
    pub fn read_content(&self, buf: &Vec<u8>) -> (r: Vec<u8>)
        requires
            self.in_bounds(buf@),
        ensures
            r@ == self.content(buf@),
    {
        let bl = buf.len();
        let tp = self.ptr.as_ptr();
        let len = tp.augment as usize;
        let mut data: Vec<u8> = Vec::new();
        let mut j: usize = 0;
        while j < len
            invariant
                j <= len,
                len == self.len_spec(),
                tp.pos == self.target(),
                tp.pos + len <= buf@.len() <= usize::MAX,
                data@ == buf@.subrange(tp.pos as int, tp.pos + j),
            decreases len - j,
        {
            data.push(buf[tp.pos + j]);
            j = j + 1;
            proof {
                assert(data@ =~= buf@.subrange(tp.pos as int, tp.pos + j));
            }
        }
        data
    }
}

impl Footprint for ArchivedString {
    open spec fn spec_size() -> int {
        <RelPtr<StrTarget> as Footprint>::spec_size()
    }

    open spec fn spec_align() -> int {
        <RelPtr<StrTarget> as Footprint>::spec_align()
    }

    open spec fn enc(self) -> Seq<u8> {
        self.ptr.enc()
    }

    open spec fn placed_at(self, pos: int) -> bool {
        self.ptr.placed_at(pos)
    }

    proof fn lemma_layout_wf() {
        <RelPtr<StrTarget> as Footprint>::lemma_layout_wf();
    }

    proof fn lemma_enc_len(self) {
        self.ptr.lemma_enc_len();
    }

    proof fn lemma_enc_injective(self, other: Self, pos: int) {
        self.ptr.lemma_enc_injective(other.ptr, pos);
    }

    fn exec_size() -> (r: usize) {
        <RelPtr<StrTarget> as Footprint>::exec_size()
    }

    fn exec_align() -> (r: usize) {
        <RelPtr<StrTarget> as Footprint>::exec_align()
    }

    fn write_footprint(&self, buf: &mut Vec<u8>) {
        self.ptr.write_footprint(buf);
    }

    fn read_footprint(buf: &Vec<u8>, pos: usize) -> (r: Self) {
        let ptr = <RelPtr<StrTarget> as Footprint>::read_footprint(buf, pos);
        ArchivedString { ptr }
    }
}

impl ArchiveUnsized for Text {
    type Archived = StrTarget;

    open spec fn augment_pre(&self) -> bool {
        self@.len() <= u32::MAX
    }

    open spec fn augment_spec(&self) -> u32 {
        self@.len() as u32
    }

    fn make_augment(&self) -> (r: u32) {
        self.data.len() as u32
    }
}

impl Archive for Text {
    type Archived = ArchivedString;

    type Resolver = StringResolver;

    open spec fn resolve_pre(&self, pos: int, resolver: StringResolver) -> bool {
        &&& 0 <= pos <= usize::MAX
        &&& self@.len() <= u32::MAX
        &&& OFFSET_MIN <= resolver.bytes_pos - pos < OFFSET_END
    }

    open spec fn resolve_spec(&self, pos: int, resolver: StringResolver) -> ArchivedString {
        ArchivedString {
            ptr: RelPtr::<StrTarget>::new_spec(pos, resolver.bytes_pos as int, self@.len() as u32),
        }
    }

    proof fn lemma_resolve_placed(&self, pos: int, resolver: StringResolver) {
    }

    fn resolve(&self, pos: usize, resolver: StringResolver) -> (r: ArchivedString) {
        ArchivedString {
            ptr: self.resolve_unsized(pos, resolver.bytes_pos),
        }
    }
}

impl SerializeUnsized<BufSerializer> for Text {
    open spec fn serialize_unsized_pre(&self, s0: BufSerializer) -> bool {
        s0.wf()
    }

    open spec fn serialize_unsized_post(
        &self,
        s0: BufSerializer,
        s1: BufSerializer,
        r: Result<usize, SerializerError>,
    ) -> bool {
        &&& s1.limit == s0.limit
        &&& s1.wf()
        &&& match r {
            Ok(p) => {
                &&& p == s0.buf@.len()
                &&& s0.buf@.len() + self@.len() <= s0.limit
                &&& s1.buf@ == s0.buf@ + self@
            },
            Err(e) => {
                &&& e == SerializerError::Full
                &&& s0.buf@.len() + self@.len() > s0.limit
                &&& s1 == s0
            },
        }
    }

    /// Writes the payload bytes and returns the position where they begin.
    fn serialize_unsized(&self, serializer: &mut BufSerializer) -> (r: Result<
        usize,
        SerializerError,
    >) {
        let pos = serializer.pos();
        match serializer.write(&self.data) {
            Ok(()) => Ok(pos),
            Err(e) => Err(e),
        }
    }
}

impl Serialize<BufSerializer> for Text {
    open spec fn serialize_pre(&self, s0: BufSerializer) -> bool {
        s0.wf()
    }

    open spec fn serialize_post(
        &self,
        s0: BufSerializer,
        s1: BufSerializer,
        r: Result<StringResolver, SerializerError>,
    ) -> bool {
        &&& s1.limit == s0.limit
        &&& s1.wf()
        &&& match r {
            Ok(res) => {
                &&& res.bytes_pos == s0.buf@.len()
                &&& s0.buf@.len() + self@.len() <= s0.limit
                &&& s1.buf@ == s0.buf@ + self@
            },
            Err(e) => {
                &&& e == SerializerError::Full
                &&& s0.buf@.len() + self@.len() > s0.limit
                &&& s1 == s0
            },
        }
    }

    /// Writes the text's one dependency — its payload bytes — and returns a
    /// resolver recording where they landed.
    fn serialize(&self, serializer: &mut BufSerializer) -> (r: Result<
        StringResolver,
        SerializerError,
    >) {
        match self.serialize_unsized(serializer) {
            Ok(bytes_pos) => Ok(StringResolver { bytes_pos }),
            Err(e) => Err(e),
        }
    }
}

impl DeserializeUnsized<Text, AllocDeserializer> for TargetPtr<StrTarget> {
    open spec fn deserialize_unsized_pre(&self, buf: Seq<u8>) -> bool {
        &&& self.pos + self.augment <= buf.len()
        &&& text_wf(buf.subrange(self.pos as int, self.pos + self.augment))
    }

    open spec fn deserialize_unsized_post(
        &self,
        buf: Seq<u8>,
        d0: AllocDeserializer,
        d1: AllocDeserializer,
        r: Result<Text, AllocError>,
    ) -> bool {
        match r {
            Ok(t) => {
                &&& t@ == buf.subrange(self.pos as int, self.pos + self.augment)
                &&& self.augment <= d0.remaining
                &&& d1.remaining == d0.remaining - self.augment
            },
            Err(e) => {
                &&& e == AllocError::OutOfMemory
                &&& self.augment > d0.remaining
                &&& d1 == d0
            },
        }
    }

    /// Rebuilds owned text from the payload this pointer refers to,
    /// allocating its length from the budget.
    fn deserialize_unsized(&self, buf: &Vec<u8>, deserializer: &mut AllocDeserializer) -> (r:
        Result<Text, AllocError>) {
        let bl = buf.len();
        let len = self.augment as usize;
        match deserializer.allocate(len) {
            Ok(()) => {},
            Err(e) => {
                return Err(e);
            },
        }
        let mut data: Vec<u8> = Vec::new();
        let mut j: usize = 0;
        while j < len
            invariant
                j <= len,
                len == self.augment,
                self.pos + len <= buf@.len() <= usize::MAX,
                data@ == buf@.subrange(self.pos as int, self.pos + j),
            decreases len - j,
        {
            data.push(buf[self.pos + j]);
            j = j + 1;
            proof {
                assert(data@ =~= buf@.subrange(self.pos as int, self.pos + j));
            }
        }
        Ok(Text { data })
    }
}

impl Deserialize<Text, AllocDeserializer> for ArchivedString {
    open spec fn deserialize_pre(&self, buf: Seq<u8>) -> bool {
        &&& self.in_bounds(buf)
        &&& text_wf(self.content(buf))
    }

    open spec fn deserialize_post(
        &self,
        buf: Seq<u8>,
        d0: AllocDeserializer,
        d1: AllocDeserializer,
        r: Result<Text, AllocError>,
    ) -> bool {
        match r {
            Ok(t) => {
                &&& t@ == self.content(buf)
                &&& t.wf()
                &&& self.len_spec() <= d0.remaining
                &&& d1.remaining == d0.remaining - self.len_spec()
            },
            Err(e) => {
                &&& e == AllocError::OutOfMemory
                &&& self.len_spec() > d0.remaining
                &&& d1 == d0
            },
        }
    }

    /// Follows the pointer and rebuilds the owned text.
    fn deserialize(&self, buf: &Vec<u8>, deserializer: &mut AllocDeserializer) -> (r: Result<
        Text,
        AllocError,
    >) {
        let bl = buf.len();
        let tp = self.ptr.as_ptr();
        tp.deserialize_unsized(buf, deserializer)
    }
}

/// One past the last position an archive of text started at `start` reaches:
/// the payload, padding up to footprint alignment, and the footprint.
pub open spec fn text_end(start: int, len: int) -> int {
    align_up(start + len, 4) + 8
}

/// What the buffer holds once text has been archived with its footprint at
/// `pos`: the footprint encodes a pointer to a payload that lies fully before
/// the footprint and equals `content`.
pub open spec fn string_archived_at(b: Seq<u8>, pos: int, content: Seq<u8>) -> bool {
    &&& 0 <= pos
    &&& pos + 8 <= b.len()
    &&& content.len() <= u32::MAX
    &&& u32_at(b, pos + 4) == content.len()
    &&& {
        let t = stored_target::<StrTarget>(b, pos);
        &&& 0 <= t
        &&& t + content.len() <= pos
        &&& b.subrange(t, t + content.len()) == content
    }
}

/// Archives a text value: writes its payload, aligns the writer, and commits
/// the footprint at the returned position.
///
/// Success is owed exactly when the whole archive fits the capacity.  The
/// serializer's capacity must stay within the compact offset width, so that
/// any backward distance inside the buffer fits a stored offset.
pub fn archive_text(serializer: &mut BufSerializer, value: &Text) -> (r: Result<
    usize,
    SerializerError,
>)
    requires
        old(serializer).wf(),
        old(serializer).limit <= OFFSET_END,
        value@.len() <= u32::MAX,
    ensures
        final(serializer).wf(),
        final(serializer).limit == old(serializer).limit,
        match r {
            Ok(p) => {
                &&& p == align_up(old(serializer).buf@.len() + value@.len() as int, 4)
                &&& final(serializer).buf@.len() == p + 8
                &&& text_end(old(serializer).buf@.len() as int, value@.len() as int) <= old(
                    serializer,
                ).limit
                &&& final(serializer).buf@.subrange(0, old(serializer).buf@.len() as int) == old(
                    serializer,
                ).buf@
                &&& string_archived_at(final(serializer).buf@, p as int, value@)
                &&& stored_target::<StrTarget>(final(serializer).buf@, p as int) == old(
                    serializer,
                ).buf@.len()
            },
            Err(e) => {
                &&& e == SerializerError::Full
                &&& text_end(old(serializer).buf@.len() as int, value@.len() as int) > old(
                    serializer,
                ).limit
            },
        },
{
    let resolver = match value.serialize(serializer) {
        Ok(res) => res,
        Err(e) => {
            proof {
                crate::ser::lemma_align_up(
                    old(serializer).buf@.len() + value@.len() as int,
                    4,
                );
            }
            return Err(e);
        },
    };
    match serializer.align_for::<ArchivedString>() {
        Ok(()) => {},
        Err(e) => {
            return Err(e);
        },
    }
    let ghost mid = serializer.buf@;
    match serializer.resolve_aligned::<Text>(value, resolver) {
        Ok(p) => {
            proof {
                let b = serializer.buf@;
                let pos = p as int;
                let start = old(serializer).buf@.len() as int;
                let arch = value.resolve_spec(pos, StringResolver { bytes_pos: start as usize });
                assert(b =~= mid + arch.enc());
                assert(b.subrange(pos, pos + 4) =~= arch.ptr.enc().subrange(0, 4));
                assert(b.subrange(pos + 4, pos + 8) =~= arch.ptr.enc().subrange(4, 8));
                assert(b.subrange(pos, pos + 4) =~= crate::bytes::le_bytes(
                    crate::bytes::bits32(arch.ptr.offset as int),
                ));
                assert(b.subrange(pos + 4, pos + 8) =~= crate::bytes::le_bytes(arch.ptr.augment));
                lemma_u32_at_of_le_bytes(b, pos, crate::bytes::bits32(arch.ptr.offset as int));
                lemma_u32_at_of_le_bytes(b, pos + 4, arch.ptr.augment);
                lemma_signed_roundtrip(arch.ptr.offset as int);
                assert(stored_target::<StrTarget>(b, pos) == start);
                assert(b.subrange(start, start + value@.len()) =~= value@);
                assert(b.subrange(0, start) =~= old(serializer).buf@);
                assert(string_archived_at(b, pos, value@));
            }
            Ok(p)
        },
        Err(e) => Err(e),
    }
}

/// Round-trip for text: any footprint view read back from a buffer in which
/// text was archived at `pos` refers to a well-formed payload equal to the
/// text that was written.
pub proof fn lemma_string_round_trip(b: Seq<u8>, pos: int, content: Seq<u8>, v: ArchivedString)
    requires
        string_archived_at(b, pos, content),
        text_wf(content),
        v.placed_at(pos),
        v.enc() == b.subrange(pos, pos + 8),
    ensures
        v.in_bounds(b),
        v.len_spec() == content.len(),
        v.content(b) == content,
        text_wf(v.content(b)),
{
    lemma_footprint_fields::<StrTarget>(v.ptr, b, pos);
    assert(<crate::rel_ptr::StrTarget as crate::ArchivePtr>::augment_enc(v.ptr.augment) == b.subrange(pos + 4, pos + 8));
    lemma_u32_at_of_le_bytes(b, pos + 4, v.ptr.augment);
    assert(v.len_spec() == content.len());
    assert(v.target() == stored_target::<StrTarget>(b, pos));
}

/// Full round-trip for text: when a buffer holds an archived text, reading
/// the footprint back and deserializing it is owed to succeed within the
/// payload's budget and restores exactly the text that was written.
pub proof fn lemma_text_restored(
    b: Seq<u8>,
    pos: int,
    content: Seq<u8>,
    v: ArchivedString,
    d0: AllocDeserializer,
    d1: AllocDeserializer,
    r: Result<Text, AllocError>,
)
    requires
        string_archived_at(b, pos, content),
        text_wf(content),
        v.placed_at(pos),
        v.enc() == b.subrange(pos, pos + 8),
        content.len() <= d0.remaining,
        v.deserialize_post(b, d0, d1, r),
    ensures
        match r {
            Ok(t) => t@ == content,
            Err(e) => false,
        },
{
    lemma_string_round_trip(b, pos, content, v);
}

} // verus!
