use rkyv::archived_unsized_value;
use rkyv::archived_value;
use rkyv::block::archive_block;
use rkyv::block::Block;
use rkyv::boxed::archive_box;
use rkyv::de::AllocDeserializer;
use rkyv::de::AllocError;
use rkyv::rel_ptr::RelPtr;
use rkyv::rel_ptr::StrTarget;
use rkyv::ser::BufSerializer;
use rkyv::ser::SerializerError;
use rkyv::strings::archive_text;
use rkyv::strings::StringResolver;
use rkyv::strings::Text;
use rkyv::vectors::archive_vec;
use rkyv::Aligned;
use rkyv::Archive;
use rkyv::Deserialize;
use rkyv::SerializeUnsized;

fn text(s: &[u8]) -> Text {
    Text::new(s.to_vec()).expect("text bytes must be in the seven-bit range")
}

#[test]
fn u32_round_trip() {
    let mut s = BufSerializer::new(1024);
    let pos = 42u32.serialize_unsized(&mut s).unwrap();
    assert_eq!(pos, 0);
    let buf = s.into_inner();
    assert_eq!(buf, vec![42, 0, 0, 0]);
    let archived = archived_value::<u32>(&buf, pos);
    assert_eq!(archived, 42);
    let mut d = AllocDeserializer::new(0);
    let restored = archived.deserialize(&buf, &mut d).unwrap();
    assert_eq!(restored, 42u32);
}

#[test]
fn text_round_trip() {
    let value = text(b"hello world");
    let mut s = BufSerializer::new(1024);
    let pos = archive_text(&mut s, &value).unwrap();
    assert_eq!(pos, 12);
    let buf = s.into_inner();
    assert_eq!(buf.len(), 20);
    assert_eq!(&buf[0..11], b"hello world");
    // stored offset -12 in two's complement, then the length 11
    assert_eq!(&buf[12..20], &[0xf4, 0xff, 0xff, 0xff, 0x0b, 0x00, 0x00, 0x00]);
    let archived = archived_value::<Text>(&buf, pos);
    assert_eq!(archived.read_content(&buf), b"hello world".to_vec());
    let mut d = AllocDeserializer::new(11);
    let restored = archived.deserialize(&buf, &mut d).unwrap();
    assert_eq!(restored, value);
    assert_eq!(d.remaining, 0);
}

#[test]
fn empty_text_round_trip() {
    let value = text(b"");
    let mut s = BufSerializer::new(64);
    let pos = archive_text(&mut s, &value).unwrap();
    assert_eq!(pos, 0);
    let buf = s.into_inner();
    let archived = archived_value::<Text>(&buf, pos);
    assert_eq!(archived.read_content(&buf), Vec::<u8>::new());
    let mut d = AllocDeserializer::new(0);
    assert_eq!(archived.deserialize(&buf, &mut d).unwrap(), value);
}

#[test]
fn vec_round_trip() {
    let value = vec![1u32, 2, 3, 4];
    let mut s = BufSerializer::new(1024);
    let pos = archive_vec(&mut s, &value).unwrap();
    assert_eq!(pos, 16);
    let buf = s.into_inner();
    assert_eq!(buf.len(), 24);
    // stored offset -16 in two's complement, then the element count 4
    assert_eq!(&buf[16..24], &[0xf0, 0xff, 0xff, 0xff, 0x04, 0x00, 0x00, 0x00]);
    let archived = archived_value::<Vec<u32>>(&buf, pos);
    assert_eq!(archived.read_elements(&buf), vec![1, 2, 3, 4]);
    let mut d = AllocDeserializer::new(16);
    let restored = archived.deserialize(&buf, &mut d).unwrap();
    assert_eq!(restored, value);
}

#[test]
fn box_round_trip() {
    let value = Box::new(99u32);
    let mut s = BufSerializer::new(64);
    let pos = archive_box(&mut s, &value).unwrap();
    assert_eq!(pos, 4);
    let buf = s.into_inner();
    assert_eq!(buf, vec![99, 0, 0, 0, 0xfc, 0xff, 0xff, 0xff]);
    let archived = archived_value::<Box<u32>>(&buf, pos);
    assert_eq!(archived.read_value(&buf), 99);
    let mut d = AllocDeserializer::new(4);
    let restored = archived.deserialize(&buf, &mut d).unwrap();
    assert_eq!(restored, value);
}

#[test]
fn block_nested_payload() {
    let value = Block { head: text(b"hello world"), tail: vec![1u32, 2, 3, 4] };
    let mut s = BufSerializer::new(1024);
    let pos = archive_block(&mut s, &value).unwrap();
    let buf = s.into_inner();
    // dependencies precede the footprint: the head's bytes land first, the
    // tail's aligned elements after them, the footprint last
    assert_eq!(&buf[0..11], b"hello world");
    assert_eq!(pos, 28);
    assert_eq!(buf.len(), 44);
    let archived = archived_value::<Block>(&buf, pos);
    assert_eq!(archived.head.read_content(&buf), b"hello world".to_vec());
    let elements = archived.tail.read_elements(&buf);
    assert_eq!(elements.len(), 4);
    assert_eq!(elements, vec![1, 2, 3, 4]);
    // the tail payload begins after the head payload and before the footprint
    assert_eq!(archived.tail.ptr.base(), 36);
    assert_eq!(archived.tail.ptr.offset(), -24);
    let mut d = AllocDeserializer::new(11 + 16);
    let restored = archived.deserialize(&buf, &mut d).unwrap();
    assert_eq!(restored, value);
}

#[test]
fn serializer_capacity_exceeded() {
    let mut s = BufSerializer::new(4);
    let r = archive_text(&mut s, &text(b"hello world"));
    assert!(matches!(r, Err(SerializerError::Full)));
}

#[test]
fn deserializer_budget_exceeded() {
    let value = text(b"hello world");
    let mut s = BufSerializer::new(1024);
    let pos = archive_text(&mut s, &value).unwrap();
    let buf = s.into_inner();
    let archived = archived_value::<Text>(&buf, pos);
    let mut d = AllocDeserializer::new(10);
    let r = archived.deserialize(&buf, &mut d);
    assert!(matches!(r, Err(AllocError::OutOfMemory)));
    assert_eq!(d.remaining, 10);
}

#[test]
fn resolve_is_position_invariant() {
    let value = text(b"abc");
    let a1 = value.resolve(12, StringResolver { bytes_pos: 0 });
    let a2 = value.resolve(12, StringResolver { bytes_pos: 0 });
    assert_eq!(a1.ptr.base(), a2.ptr.base());
    assert_eq!(a1.ptr.offset(), a2.ptr.offset());
    assert_eq!(a1.ptr.augment(), a2.ptr.augment());
    assert_eq!(a1.ptr.offset(), -12);
}

#[test]
fn rel_ptr_resolves_to_target() {
    let ptr = RelPtr::<StrTarget>::new(16, 4, 7u32);
    assert_eq!(ptr.base(), 16);
    assert_eq!(ptr.offset(), -12);
    assert_eq!(*ptr.augment(), 7);
    let target = ptr.as_ptr();
    assert_eq!(target.pos, 4);
    assert_eq!(target.augment, 7);
}

#[test]
fn archived_unsized_value_follows_pointer() {
    let value = text(b"hello world");
    let mut s = BufSerializer::new(1024);
    let pos = archive_text(&mut s, &value).unwrap();
    let buf = s.into_inner();
    let target = archived_unsized_value::<Text>(&buf, pos);
    assert_eq!(target.pos, 0);
    assert_eq!(target.augment, 11);
}

#[test]
fn text_rejects_out_of_range_bytes() {
    assert!(Text::new(vec![104, 105, 200]).is_none());
    assert!(Text::new(vec![104, 105]).is_some());
}

#[test]
fn aligned_wraps_buffer() {
    let aligned = Aligned(vec![1u8, 2, 3]);
    assert_eq!(aligned.as_ref(), &vec![1u8, 2, 3]);
    assert_eq!(aligned.0.len(), 3);
}
