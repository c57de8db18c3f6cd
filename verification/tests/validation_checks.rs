use rkyv::archived_value;
use rkyv::boxed::archive_box;
use rkyv::ser::BufSerializer;
use rkyv::strings::archive_text;
use rkyv::strings::Text;
use rkyv::validation::check_archived_box;
use rkyv::validation::check_archived_string;
use rkyv::validation::check_archived_vec;
use rkyv::validation::ArchiveContextError;
use rkyv::validation::OwnedPointerError;
use rkyv::validation::PointerCheckError;
use rkyv::validation::ValidationContext;
use rkyv::validation::ValueCheckError;
use rkyv::vectors::archive_vec;
use rkyv::strings::ArchivedString;
use rkyv::block::archive_block;
use rkyv::block::Block;
use rkyv::validation::check_archived_block;

fn text(s: &[u8]) -> Text {
    Text::new(s.to_vec()).expect("text bytes must be in the seven-bit range")
}

fn archived_text_buffer(s: &[u8]) -> (Vec<u8>, usize) {
    let mut ser = BufSerializer::new(1024);
    let pos = archive_text(&mut ser, &text(s)).unwrap();
    (ser.into_inner(), pos)
}

#[test]
fn validation_accepts_written_string() {
    let (buf, pos) = archived_text_buffer(b"hello world");
    let checked = check_archived_string(&buf, pos).unwrap();
    let trusted = archived_value::<Text>(&buf, pos);
    // the validated view is bit-identical to the trusted-path cast
    assert_eq!(checked.ptr.base(), trusted.ptr.base());
    assert_eq!(checked.ptr.offset(), trusted.ptr.offset());
    assert_eq!(checked.ptr.augment(), trusted.ptr.augment());
    assert_eq!(checked.read_content(&buf), b"hello world".to_vec());
}

#[test]
fn validation_rejects_flipped_offset_byte() {
    let (mut buf, pos) = archived_text_buffer(b"hello world");
    // flip the stored offset's low byte; the target leaves the buffer
    buf[pos] ^= 0xff;
    let r = check_archived_string(&buf, pos);
    assert!(matches!(
        r,
        Err(OwnedPointerError::ContextError(ArchiveContextError::OutOfBounds))
    ));
}

#[test]
fn validation_rejects_forward_out_of_bounds() {
    let (mut buf, pos) = archived_text_buffer(b"hello world");
    // point the offset far past the end of the buffer
    buf[pos] = 100;
    buf[pos + 1] = 0;
    buf[pos + 2] = 0;
    buf[pos + 3] = 0;
    let r = check_archived_string(&buf, pos);
    assert!(matches!(
        r,
        Err(OwnedPointerError::ContextError(ArchiveContextError::OutOfBounds))
    ));
}

#[test]
fn validation_rejects_overlapping_claims() {
    // a footprint at 8 whose target range [4, 12) overlaps the footprint's
    // own claimed range [8, 16)
    let mut buf = vec![b'a'; 8];
    buf.extend_from_slice(&[0xfc, 0xff, 0xff, 0xff, 0x08, 0x00, 0x00, 0x00]);
    let r = check_archived_string(&buf, 8);
    assert!(matches!(
        r,
        Err(OwnedPointerError::ContextError(ArchiveContextError::ClaimOverlap))
    ));
}

#[test]
fn validation_rejects_bad_payload_byte() {
    let (mut buf, pos) = archived_text_buffer(b"abc");
    buf[1] = 200;
    let r = check_archived_string(&buf, pos);
    assert!(matches!(
        r,
        Err(OwnedPointerError::ValueCheckBytesError(ValueCheckError::NotText))
    ));
}

#[test]
fn validation_rejects_truncated_footprint() {
    let buf = vec![0u8; 4];
    let mut context = ValidationContext::new(4);
    let r = ArchivedString::check_bytes(&buf, 0, &mut context);
    assert!(matches!(
        r,
        Err(OwnedPointerError::PointerCheckBytesError(PointerCheckError::Truncated))
    ));
}

#[test]
fn validation_accepts_written_vec() {
    let mut ser = BufSerializer::new(1024);
    let pos = archive_vec(&mut ser, &vec![1u32, 2, 3]).unwrap();
    let buf = ser.into_inner();
    let checked = check_archived_vec(&buf, pos).unwrap();
    assert_eq!(checked.read_elements(&buf), vec![1, 2, 3]);
}

#[test]
fn validation_rejects_oversized_count() {
    let mut ser = BufSerializer::new(1024);
    let pos = archive_vec(&mut ser, &vec![1u32, 2, 3]).unwrap();
    let mut buf = ser.into_inner();
    // claim far more elements than the buffer holds
    buf[pos + 4] = 0xff;
    buf[pos + 5] = 0xff;
    buf[pos + 6] = 0x00;
    buf[pos + 7] = 0x00;
    let r = check_archived_vec(&buf, pos);
    assert!(matches!(
        r,
        Err(OwnedPointerError::ContextError(ArchiveContextError::OutOfBounds))
    ));
}

#[test]
fn validation_accepts_written_box() {
    let mut ser = BufSerializer::new(64);
    let pos = archive_box(&mut ser, &Box::new(7u32)).unwrap();
    let buf = ser.into_inner();
    let checked = check_archived_box(&buf, pos).unwrap();
    assert_eq!(checked.read_value(&buf), 7);
}

#[test]
fn validation_accepts_written_block() {
    let value = Block { head: text(b"hello world"), tail: vec![1u32, 2, 3, 4] };
    let mut ser = BufSerializer::new(1024);
    let pos = archive_block(&mut ser, &value).unwrap();
    let buf = ser.into_inner();
    let checked = check_archived_block(&buf, pos).unwrap();
    assert_eq!(checked.head.read_content(&buf), b"hello world".to_vec());
    assert_eq!(checked.tail.read_elements(&buf), vec![1, 2, 3, 4]);
}

#[test]
fn validation_rejects_two_pointers_to_overlapping_ranges() {
    // a block whose head claims [0, 8) and whose tail resolves to [4, 12):
    // the second claim aliases the first and must be rejected
    let mut buf = vec![b'a'; 16];
    // head footprint at 16: offset -16, length 8
    buf.extend_from_slice(&[0xf0, 0xff, 0xff, 0xff, 0x08, 0x00, 0x00, 0x00]);
    // tail footprint at 24: offset -20 (target 4), two elements
    buf.extend_from_slice(&[0xec, 0xff, 0xff, 0xff, 0x02, 0x00, 0x00, 0x00]);
    let r = check_archived_block(&buf, 16);
    assert!(matches!(
        r,
        Err(OwnedPointerError::ContextError(ArchiveContextError::ClaimOverlap))
    ));
}

#[test]
fn context_tracks_claims() {
    let mut context = ValidationContext::new(10);
    assert!(context.claim_bytes(0, 5).is_ok());
    assert!(matches!(context.claim_bytes(4, 2), Err(ArchiveContextError::ClaimOverlap)));
    assert!(matches!(context.claim_bytes(8, 3), Err(ArchiveContextError::OutOfBounds)));
    assert!(context.claim_bytes(5, 5).is_ok());
}

#[test]
fn context_checks_rel_ptr_bounds() {
    let context = ValidationContext::new(10);
    assert_eq!(context.check_rel_ptr(4, -4), Ok(0));
    assert_eq!(context.check_rel_ptr(4, 6), Ok(10));
    assert!(matches!(context.check_rel_ptr(4, 7), Err(ArchiveContextError::OutOfBounds)));
    assert!(matches!(context.check_rel_ptr(4, -5), Err(ArchiveContextError::OutOfBounds)));
}
