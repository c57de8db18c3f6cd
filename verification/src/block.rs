//! A composite value: a text head paired with a sequence tail.
//!
//! The archived form holds both footprints inline, head first.  Resolving
//! must add each field's byte offset within the footprint to the position
//! handed down — the head's pointer lives at the footprint start, the tail's
//! eight bytes further — which is the delicate obligation of the whole
//! model: an offset missed here yields a corrupt pointer, not a type error.

use vstd::prelude::*;

use crate::bytes::lemma_prefix_chain;
use crate::de::AllocDeserializer;
use crate::de::AllocError;
use crate::rel_ptr::stored_target;
use crate::rel_ptr::SliceTarget;
use crate::rel_ptr::StrTarget;
use crate::ser::align_up;
use crate::ser::BufSerializer;
use crate::ser::SerializerError;
use crate::strings::string_archived_at;
use crate::strings::text_wf;
use crate::strings::ArchivedString;
use crate::strings::StringResolver;
use crate::strings::Text;
use crate::vectors::lemma_u32s_at_stable;
use crate::vectors::u32s_at;
use crate::vectors::vec_archived_at;
use crate::vectors::ArchivedVec;
use crate::vectors::VecResolver;
use crate::Archive;
use crate::Deserialize;
use crate::Footprint;
use crate::Serialize;

verus! {

/// A head value paired with a tail sequence.
#[derive(Debug, PartialEq, Eq)]
pub struct Block {
    /// The text head.
    pub head: Text,
    /// The sequence tail.
    pub tail: Vec<u32>,
}

/// The resolvers of both fields, captured while their payloads were written.
pub struct BlockResolver {
    /// Where the head's payload landed.
    pub head: StringResolver,
    /// Where the tail's payload landed.
    pub tail: VecResolver,
}

/// The archived form of a block: the head's footprint followed by the
/// tail's, sixteen bytes in all.
pub struct ArchivedBlock {
    /// The archived head, at offset zero of the footprint.
    pub head: ArchivedString,
    /// The archived tail, at offset eight of the footprint.
    pub tail: ArchivedVec,
}

impl Footprint for ArchivedBlock {
    open spec fn spec_size() -> int {
        16
    }

    open spec fn spec_align() -> int {
        4
    }

    open spec fn enc(self) -> Seq<u8> {
        self.head.enc() + self.tail.enc()
    }

    open spec fn placed_at(self, pos: int) -> bool {
        self.head.placed_at(pos) && self.tail.placed_at(pos + 8)
    }

    proof fn lemma_layout_wf() {
    }

    proof fn lemma_enc_len(self) {
        self.head.lemma_enc_len();
        self.tail.lemma_enc_len();
    }

    proof fn lemma_enc_injective(self, other: Self, pos: int) {
        self.head.lemma_enc_len();
        self.tail.lemma_enc_len();
        other.head.lemma_enc_len();
        other.tail.lemma_enc_len();
        assert(self.head.enc() =~= self.enc().subrange(0, 8));
        assert(other.head.enc() =~= other.enc().subrange(0, 8));
        assert(self.tail.enc() =~= self.enc().subrange(8, 16));
        assert(other.tail.enc() =~= other.enc().subrange(8, 16));
        self.head.lemma_enc_injective(other.head, pos);
        self.tail.lemma_enc_injective(other.tail, pos + 8);
    }

    fn exec_size() -> (r: usize) {
        16
    }

    fn exec_align() -> (r: usize) {
        4
    }

    fn write_footprint(&self, buf: &mut Vec<u8>) {
        proof {
            self.head.lemma_enc_len();
            self.tail.lemma_enc_len();
        }
        self.head.write_footprint(buf);
        self.tail.write_footprint(buf);
        proof {
            assert(buf@ =~= old(buf)@ + self.enc());
        }
    }

    fn read_footprint(buf: &Vec<u8>, pos: usize) -> (r: Self) {
        let bl = buf.len();
        proof {
            assert(pos + 16 <= bl);
        }
        let head = <ArchivedString as Footprint>::read_footprint(buf, pos);
        let tail = <ArchivedVec as Footprint>::read_footprint(buf, pos + 8);
        let r = ArchivedBlock { head, tail };
        proof {
            r.head.lemma_enc_len();
            r.tail.lemma_enc_len();
            assert(r.enc() =~= buf@.subrange(pos as int, pos as int + 16));
        }
        r
    }
}

impl Archive for Block {
    type Archived = ArchivedBlock;

    type Resolver = BlockResolver;

    open spec fn resolve_pre(&self, pos: int, resolver: BlockResolver) -> bool {
        &&& 0 <= pos
        &&& pos + 16 <= usize::MAX
        &&& self.head.resolve_pre(pos, resolver.head)
        &&& self.tail.resolve_pre(pos + 8, resolver.tail)
    }

    open spec fn resolve_spec(&self, pos: int, resolver: BlockResolver) -> ArchivedBlock {
        ArchivedBlock {
            head: self.head.resolve_spec(pos, resolver.head),
            tail: self.tail.resolve_spec(pos + 8, resolver.tail),
        }
    }

    proof fn lemma_resolve_placed(&self, pos: int, resolver: BlockResolver) {
        self.head.lemma_resolve_placed(pos, resolver.head);
        self.tail.lemma_resolve_placed(pos + 8, resolver.tail);
    }

    fn resolve(&self, pos: usize, resolver: BlockResolver) -> (r: ArchivedBlock) {
        ArchivedBlock {
            head: self.head.resolve(pos, resolver.head),
            tail: self.tail.resolve(pos + 8, resolver.tail),
        }
    }
}

impl Serialize<BufSerializer> for Block {
    open spec fn serialize_pre(&self, s0: BufSerializer) -> bool {
        s0.wf()
    }

    open spec fn serialize_post(
        &self,
        s0: BufSerializer,
        s1: BufSerializer,
        r: Result<BlockResolver, SerializerError>,
    ) -> bool {
        &&& s1.limit == s0.limit
        &&& s1.wf()
        &&& match r {
            Ok(res) => {
                &&& res.head.bytes_pos == s0.buf@.len()
                &&& res.tail.payload_pos == align_up(s0.buf@.len() + self.head@.len() as int, 4)
                &&& s1.buf@.len() == res.tail.payload_pos + 4 * self.tail@.len()
                &&& s1.buf@.len() as int % 4 == 0
                &&& s1.buf@.len() <= s0.limit
                &&& s1.buf@.subrange(0, s0.buf@.len() as int) == s0.buf@
                &&& s1.buf@.subrange(
                    s0.buf@.len() as int,
                    s0.buf@.len() + self.head@.len() as int,
                ) == self.head@
                &&& u32s_at(s1.buf@, res.tail.payload_pos as int, self.tail@.len() as int)
                    == self.tail@
            },
            Err(e) => {
                &&& e == SerializerError::Full
                &&& align_up(s0.buf@.len() + self.head@.len() as int, 4) + 4 * self.tail@.len()
                    > s0.limit
            },
        }
    }

    /// Writes both fields' payloads depth-first — the head's bytes, then the
    /// tail's elements — before any footprint is committed.
    fn serialize(&self, serializer: &mut BufSerializer) -> (r: Result<
        BlockResolver,
        SerializerError,
    >) {
        let head_resolver = match self.head.serialize(serializer) {
            Ok(res) => res,
            Err(e) => {
                proof {
                    crate::ser::lemma_align_up(
                        old(serializer).buf@.len() + self.head@.len() as int,
                        4,
                    );
                }
                return Err(e);
            },
        };
        let ghost buf1 = serializer.buf@;
        match self.tail.serialize(serializer) {
            Ok(tail_resolver) => {
                proof {
                    let b = serializer.buf@;
                    let hb = old(serializer).buf@.len() as int;
                    let hl = self.head@.len() as int;
                    assert(buf1.subrange(0, hb) =~= old(serializer).buf@);
                    lemma_prefix_chain(old(serializer).buf@, buf1, b);
                    assert forall|k: int| 0 <= k < hl implies b[hb + k] == self.head@[k] by {
                        assert(b.subrange(0, buf1.len() as int)[hb + k] == b[hb + k]);
                    }
                    assert(b.subrange(hb, hb + hl) =~= self.head@);
                }
                Ok(BlockResolver { head: head_resolver, tail: tail_resolver })
            },
            Err(e) => Err(e),
        }
    }
}

impl Deserialize<Block, AllocDeserializer> for ArchivedBlock {
    open spec fn deserialize_pre(&self, buf: Seq<u8>) -> bool {
        &&& self.head.in_bounds(buf)
        &&& text_wf(self.head.content(buf))
        &&& self.tail.in_bounds(buf)
    }

    open spec fn deserialize_post(
        &self,
        buf: Seq<u8>,
        d0: AllocDeserializer,
        d1: AllocDeserializer,
        r: Result<Block, AllocError>,
    ) -> bool {
        match r {
            Ok(v) => {
                &&& v.head@ == self.head.content(buf)
                &&& v.tail@ == self.tail.elements(buf)
                &&& self.head.len_spec() + 4 * self.tail.len_spec() <= d0.remaining
                &&& d1.remaining == d0.remaining - self.head.len_spec() - 4
                    * self.tail.len_spec()
            },
            Err(e) => {
                &&& e == AllocError::OutOfMemory
                &&& self.head.len_spec() + 4 * self.tail.len_spec() > d0.remaining
                &&& d1.remaining >= d0.remaining - self.head.len_spec()
            },
        }
    }

    /// Rebuilds both fields from their payloads.
    fn deserialize(&self, buf: &Vec<u8>, deserializer: &mut AllocDeserializer) -> (r: Result<
        Block,
        AllocError,
    >) {
        let head = match self.head.deserialize(buf, deserializer) {
            Ok(h) => h,
            Err(e) => {
                return Err(e);
            },
        };
        match self.tail.deserialize(buf, deserializer) {
            Ok(tail) => Ok(Block { head, tail }),
            Err(e) => Err(e),
        }
    }
}

/// One past the last position an archive of a block started at `start`
/// reaches: head payload, aligned tail payload, and the footprint.
pub open spec fn block_end(start: int, head_len: int, tail_len: int) -> int {
    align_up(start + head_len, 4) + 4 * tail_len + 16
}

/// What the buffer holds once a block has been archived with its footprint
/// at `pos`: a text archive whose footprint sits at `pos` and a sequence
/// archive whose footprint sits eight bytes further.
pub open spec fn block_archived_at(b: Seq<u8>, pos: int, head: Seq<u8>, tail: Seq<u32>) -> bool {
    &&& pos + 16 <= b.len()
    &&& string_archived_at(b, pos, head)
    &&& vec_archived_at(b, pos + 8, tail)
    &&& stored_target::<StrTarget>(b, pos) + head.len() <= stored_target::<SliceTarget>(
        b,
        pos + 8,
    )
    &&& stored_target::<SliceTarget>(b, pos + 8) + 4 * tail.len() <= pos
}

/// Archives a block: writes the head's payload, then the tail's aligned
/// payload, then commits the two footprints at the returned position.
///
/// Success is owed exactly when the whole archive fits the capacity.  The
/// serializer's capacity must stay within the compact offset width — with
/// eight bytes of headroom for the tail pointer's place inside the
/// footprint — so that any backward distance fits a stored offset.
pub fn archive_block(serializer: &mut BufSerializer, value: &Block) -> (r: Result<
    usize,
    SerializerError,
>)
    requires
        old(serializer).wf(),
        old(serializer).limit + 8 <= crate::rel_ptr::OFFSET_END,
        value.head@.len() <= u32::MAX,
        value.tail@.len() <= u32::MAX,
    ensures
        final(serializer).wf(),
        final(serializer).limit == old(serializer).limit,
        match r {
            Ok(p) => {
                &&& p == align_up(
                    old(serializer).buf@.len() + value.head@.len() as int,
                    4,
                ) + 4 * value.tail@.len()
                &&& final(serializer).buf@.len() == p + 16
                &&& block_end(
                    old(serializer).buf@.len() as int,
                    value.head@.len() as int,
                    value.tail@.len() as int,
                ) <= old(serializer).limit
                &&& final(serializer).buf@.subrange(0, old(serializer).buf@.len() as int) == old(
                    serializer,
                ).buf@
                &&& block_archived_at(final(serializer).buf@, p as int, value.head@, value.tail@)
                &&& stored_target::<StrTarget>(final(serializer).buf@, p as int) == old(
                    serializer,
                ).buf@.len()
                &&& stored_target::<SliceTarget>(final(serializer).buf@, p as int + 8)
                    == align_up(old(serializer).buf@.len() + value.head@.len() as int, 4)
            },
            Err(e) => {
                &&& e == SerializerError::Full
                &&& block_end(
                    old(serializer).buf@.len() as int,
                    value.head@.len() as int,
                    value.tail@.len() as int,
                ) > old(serializer).limit
            },
        },
{
    let resolver = match value.serialize(serializer) {
        Ok(res) => res,
        Err(e) => {
            return Err(e);
        },
    };
    let ghost hb = old(serializer).buf@.len() as int;
    let ghost hl = value.head@.len() as int;
    let ghost tp = resolver.tail.payload_pos as int;
    let ghost tl = value.tail@.len() as int;
    match serializer.align_for::<ArchivedBlock>() {
        Ok(()) => {},
        Err(e) => {
            proof {
                // the writer is already aligned after the tail payload, so
                // aligning for the footprint pads nothing and cannot fail
                assert(false);
            }
            return Err(e);
        },
    }
    let ghost mid = serializer.buf@;
    match serializer.resolve_aligned::<Block>(value, resolver) {
        Ok(p) => {
            proof {
                let b = serializer.buf@;
                let pos = p as int;
                let arch = value.resolve_spec(
                    pos,
                    BlockResolver {
                        head: StringResolver { bytes_pos: resolver.head.bytes_pos },
                        tail: VecResolver { payload_pos: resolver.tail.payload_pos },
                    },
                );
                arch.head.lemma_enc_len();
                arch.tail.lemma_enc_len();
                assert(b =~= mid + arch.enc());
                assert(b.subrange(pos, pos + 4) =~= crate::bytes::le_bytes(
                    crate::bytes::bits32(arch.head.ptr.offset as int),
                ));
                assert(b.subrange(pos + 4, pos + 8) =~= crate::bytes::le_bytes(
                    arch.head.ptr.augment,
                ));
                assert(b.subrange(pos + 8, pos + 12) =~= crate::bytes::le_bytes(
                    crate::bytes::bits32(arch.tail.ptr.offset as int),
                ));
                assert(b.subrange(pos + 12, pos + 16) =~= crate::bytes::le_bytes(
                    arch.tail.ptr.augment,
                ));
                crate::bytes::lemma_u32_at_of_le_bytes(
                    b,
                    pos,
                    crate::bytes::bits32(arch.head.ptr.offset as int),
                );
                crate::bytes::lemma_u32_at_of_le_bytes(b, pos + 4, arch.head.ptr.augment);
                crate::bytes::lemma_u32_at_of_le_bytes(
                    b,
                    pos + 8,
                    crate::bytes::bits32(arch.tail.ptr.offset as int),
                );
                crate::bytes::lemma_u32_at_of_le_bytes(b, pos + 12, arch.tail.ptr.augment);
                crate::bytes::lemma_signed_roundtrip(arch.head.ptr.offset as int);
                crate::bytes::lemma_signed_roundtrip(arch.tail.ptr.offset as int);
                assert(stored_target::<StrTarget>(b, pos) == hb);
                assert(stored_target::<SliceTarget>(b, pos + 8) == tp);
                assert(b.subrange(0, mid.len() as int) =~= mid);
                assert forall|k: int| 0 <= k < hl implies b[hb + k] == value.head@[k] by {
                    assert(b.subrange(0, mid.len() as int)[hb + k] == b[hb + k]);
                    assert(mid.subrange(hb, hb + hl)[k] == mid[hb + k]);
                }
                assert(b.subrange(hb, hb + hl) =~= value.head@);
                lemma_u32s_at_stable(mid, b, tp, tl);
                assert(b.subrange(0, hb) =~= old(serializer).buf@);
                assert(string_archived_at(b, pos, value.head@));
                assert(vec_archived_at(b, pos + 8, value.tail@));
            }
            Ok(p)
        },
        Err(e) => Err(e),
    }
}

/// Round-trip for blocks: any footprint view read back from a buffer in
/// which a block was archived at `pos` refers to exactly the head text and
/// tail elements that were written.
pub proof fn lemma_block_round_trip(
    b: Seq<u8>,
    pos: int,
    head: Seq<u8>,
    tail: Seq<u32>,
    v: ArchivedBlock,
)
    requires
        block_archived_at(b, pos, head, tail),
        text_wf(head),
        v.placed_at(pos),
        v.enc() == b.subrange(pos, pos + 16),
    ensures
        v.head.in_bounds(b),
        v.head.content(b) == head,
        v.tail.in_bounds(b),
        v.tail.elements(b) == tail,
{
    v.head.lemma_enc_len();
    v.tail.lemma_enc_len();
    assert(v.head.enc() =~= b.subrange(pos, pos + 8)) by {
        assert forall|k: int| 0 <= k < 8 implies v.head.enc()[k] == b.subrange(pos, pos + 8)[k] by {
            assert(v.enc()[k] == b.subrange(pos, pos + 16)[k]);
        }
    }
    assert(v.tail.enc() =~= b.subrange(pos + 8, pos + 16)) by {
        assert forall|k: int| 0 <= k < 8 implies v.tail.enc()[k] == b.subrange(
            pos + 8,
            pos + 16,
        )[k] by {
            assert(v.head.enc().len() == 8);
            assert(v.tail.enc()[k] == v.enc()[8 + k]);
            assert(v.enc()[8 + k] == b.subrange(pos, pos + 16)[8 + k]);
            assert(b.subrange(pos + 8, pos + 16)[k] == b[pos + 8 + k]);
        }
    }
    crate::strings::lemma_string_round_trip(b, pos, head, v.head);
    crate::vectors::lemma_vec_round_trip(b, pos + 8, tail, v.tail);
}

/// Full round-trip for blocks: when a buffer holds an archived block,
/// reading the footprint back and deserializing it is owed to succeed
/// within the two payloads' budget and restores both fields exactly.
pub proof fn lemma_block_restored(
    b: Seq<u8>,
    pos: int,
    head: Seq<u8>,
    tail: Seq<u32>,
    v: ArchivedBlock,
    d0: AllocDeserializer,
    d1: AllocDeserializer,
    r: Result<Block, AllocError>,
)
    requires
        block_archived_at(b, pos, head, tail),
        text_wf(head),
        v.placed_at(pos),
        v.enc() == b.subrange(pos, pos + 16),
        head.len() + 4 * tail.len() <= d0.remaining,
        v.deserialize_post(b, d0, d1, r),
    ensures
        match r {
            Ok(out) => out.head@ == head && out.tail@ == tail,
            Err(e) => false,
        },
{
    lemma_block_round_trip(b, pos, head, tail, v);
}

} // verus!
