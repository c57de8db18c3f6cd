//! The trait family for the primitive 32-bit value.
//!
//! A `u32` archives as itself: its footprint is its four little-endian
//! bytes, it owns no dependencies, and resolving it at any position copies
//! it unchanged — which is exactly the promise [`crate::ArchiveCopy`] makes.

use vstd::prelude::*;

use crate::bytes::le_bytes;
use crate::bytes::lemma_le_bytes_at;
use crate::bytes::lemma_le_bytes_injective;
use crate::bytes::read_u32_le;
use crate::bytes::write_u32_le;
use crate::de::AllocDeserializer;
use crate::de::AllocError;
use crate::ser::BufSerializer;
use crate::ser::SerializerError;
use crate::Archive;
use crate::ArchiveCopy;
use crate::Deserialize;
use crate::Footprint;
use crate::Serialize;

verus! {

impl Footprint for u32 {
    open spec fn spec_size() -> int {
        4
    }

    open spec fn spec_align() -> int {
        4
    }

    open spec fn enc(self) -> Seq<u8> {
        le_bytes(self)
    }

    open spec fn placed_at(self, pos: int) -> bool {
        true
    }

    proof fn lemma_layout_wf() {
    }

    proof fn lemma_enc_len(self) {
    }

    proof fn lemma_enc_injective(self, other: Self, pos: int) {
        lemma_le_bytes_injective(self, other);
    }

    fn exec_size() -> (r: usize) {
        4
    }

    fn exec_align() -> (r: usize) {
        4
    }

    fn write_footprint(&self, buf: &mut Vec<u8>) {
        write_u32_le(buf, *self);
    }

    fn read_footprint(buf: &Vec<u8>, pos: usize) -> (r: Self) {
        let r = read_u32_le(buf, pos);
        proof {
            lemma_le_bytes_at(buf@, pos as int);
        }
        r
    }
}

impl Archive for u32 {
    type Archived = u32;

    type Resolver = ();

    open spec fn resolve_pre(&self, pos: int, resolver: ()) -> bool {
        true
    }

    open spec fn resolve_spec(&self, pos: int, resolver: ()) -> u32 {
        *self
    }

    proof fn lemma_resolve_placed(&self, pos: int, resolver: ()) {
    }

    fn resolve(&self, pos: usize, resolver: ()) -> (r: u32) {
        *self
    }
}

impl Serialize<BufSerializer> for u32 {
    open spec fn serialize_pre(&self, s0: BufSerializer) -> bool {
        s0.wf()
    }

    open spec fn serialize_post(
        &self,
        s0: BufSerializer,
        s1: BufSerializer,
        r: Result<(), SerializerError>,
    ) -> bool {
        &&& s1 == s0
        &&& r == Result::<(), SerializerError>::Ok(())
    }

    fn serialize(&self, serializer: &mut BufSerializer) -> (r: Result<(), SerializerError>) {
        Ok(())
    }
}

impl Deserialize<u32, AllocDeserializer> for u32 {
    open spec fn deserialize_pre(&self, buf: Seq<u8>) -> bool {
        true
    }

    open spec fn deserialize_post(
        &self,
        buf: Seq<u8>,
        d0: AllocDeserializer,
        d1: AllocDeserializer,
        r: Result<u32, AllocError>,
    ) -> bool {
        &&& d1 == d0
        &&& r == Result::<u32, AllocError>::Ok(*self)
    }

    fn deserialize(&self, buf: &Vec<u8>, deserializer: &mut AllocDeserializer) -> (r: Result<
        u32,
        AllocError,
    >) {
        Ok(*self)
    }
}

impl ArchiveCopy for u32 {
    proof fn lemma_archive_copy_identity(&self, pos: int, resolver: ()) {
    }
}

} // verus!
