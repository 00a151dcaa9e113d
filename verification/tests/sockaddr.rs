use sallyport::arena::Arena;
use sallyport::error::Error;
use sallyport::sockaddr::{decode_len, encode_len, SockaddrOutput, LEN_SLOT_SIZE};

#[test]
fn address_length_is_stored_least_significant_byte_first() {
    assert_eq!(LEN_SLOT_SIZE, 4);
    assert_eq!(encode_len(0), [0, 0, 0, 0]);
    assert_eq!(encode_len(8), [8, 0, 0, 0]);
    assert_eq!(encode_len(0x0102_0304), [4, 3, 2, 1]);
    assert_eq!(encode_len(u32::MAX), [255, 255, 255, 255]);
    assert_eq!(decode_len(&[9, 4, 3, 2, 1, 9], 1), 0x0102_0304);
    assert_eq!(decode_len(&[255, 255, 255, 255], 0), u32::MAX);
    for v in [0u32, 1, 255, 256, 65535, 65536, 16777215, 16777216, 0xDEAD_BEEF] {
        assert_eq!(decode_len(&encode_len(v), 0), v);
    }
}

#[test]
fn sockaddr_stage_reserves_both_ranges_and_stores_the_capacity() {
    let mut arena = Arena::new(64);
    arena.allocate(1, 1).unwrap();
    let mut addr = [0u8; 6];
    let mut addrlen = 77u32;
    let staged = SockaddrOutput { addr: &mut addr, addrlen: &mut addrlen }
        .stage(&mut arena)
        .unwrap();
    assert_eq!(staged.addr.offset(), 1);
    assert_eq!(staged.addr.len(), 6);
    // the slot is aligned to its size
    assert_eq!(staged.addrlen.offset(), 8);
    assert_eq!(arena.used(), 12);
    assert_eq!(&arena.bytes()[8..12], &[6, 0, 0, 0][..]);
    // the checkpoint of the transaction is gone
    assert_eq!(arena.checkpoint().index, 0);
}

#[test]
fn sockaddr_stage_is_all_or_nothing() {
    let mut arena = Arena::new(10);
    let mut addr = [0u8; 8];
    let mut addrlen = 0u32;
    let r = SockaddrOutput { addr: &mut addr, addrlen: &mut addrlen }.stage(&mut arena);
    assert!(matches!(r, Err(Error::AllocationExhausted)));
    assert_eq!(arena.used(), 0);
    assert_eq!(arena.bytes(), &[0u8; 10][..]);
    assert_eq!(arena.checkpoint().index, 0);
}

#[test]
fn sockaddr_collect_hands_over_the_reported_prefix() {
    let mut arena = Arena::new(64);
    let mut addr = [0xEEu8; 16];
    let mut addrlen = 0u32;
    let staged = SockaddrOutput { addr: &mut addr, addrlen: &mut addrlen }
        .stage(&mut arena)
        .unwrap();
    let (addr_offset, slot_offset) = (staged.addr.offset(), staged.addrlen.offset());
    let committed = staged.commit();
    assert!(arena.write(addr_offset, &[1, 2, 3, 4, 5, 6, 7, 8, 9, 10, 11, 12, 13, 14, 15, 16]));
    assert!(arena.write(slot_offset, &encode_len(5)));
    committed.collect(&arena);
    assert_eq!(addrlen, 5);
    assert_eq!(&addr[..5], &[1, 2, 3, 4, 5][..]);
    assert_eq!(&addr[5..], &[0xEEu8; 11][..]);
}

#[test]
fn sockaddr_collect_clamps_an_implausible_length() {
    let mut arena = Arena::new(64);
    let mut addr = [0xEEu8; 8];
    let mut addrlen = 0u32;
    let staged = SockaddrOutput { addr: &mut addr, addrlen: &mut addrlen }
        .stage(&mut arena)
        .unwrap();
    let (addr_offset, slot_offset) = (staged.addr.offset(), staged.addrlen.offset());
    let committed = staged.commit();
    assert!(arena.write(addr_offset, &[1, 2, 3, 4, 5, 6, 7, 8]));
    assert!(arena.write(slot_offset, &encode_len(200)));
    // bytes behind the slot that an unchecked copy would pick up
    assert!(arena.write(slot_offset + 4, &[0x55; 32]));
    committed.collect(&arena);
    assert_eq!(addrlen, 8);
    assert_eq!(addr, [1, 2, 3, 4, 5, 6, 7, 8]);
}

#[test]
fn sockaddr_collect_without_an_answer_reports_the_capacity() {
    let mut arena = Arena::new(64);
    let mut addr = [0xEEu8; 8];
    let mut addrlen = 0u32;
    let staged = SockaddrOutput { addr: &mut addr, addrlen: &mut addrlen }
        .stage(&mut arena)
        .unwrap();
    staged.commit().collect(&arena);
    assert_eq!(addrlen, 8);
    assert_eq!(addr, [0u8; 8]);
}

#[test]
fn empty_address_buffer_takes_the_slot_only() {
    let mut arena = Arena::new(64);
    let mut addr = [0u8; 0];
    let mut addrlen = 9u32;
    let staged = SockaddrOutput { addr: &mut addr, addrlen: &mut addrlen }
        .stage(&mut arena)
        .unwrap();
    assert_eq!((staged.addr.offset(), staged.addr.len()), (0, 0));
    let slot_offset = staged.addrlen.offset();
    assert_eq!(slot_offset, 0);
    assert_eq!(arena.used(), 4);
    assert!(arena.write(slot_offset, &encode_len(16)));
    staged.commit().collect(&arena);
    assert_eq!(addrlen, 0);
}
