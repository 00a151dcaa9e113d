use sallyport::arena::Arena;
use sallyport::argv::NULL;
use sallyport::error::{decode_result, Error};
use sallyport::recvfrom::Recvfrom;
use sallyport::sockaddr::{encode_len, SockaddrOutput};
use sallyport::syscall::Syscall;

#[test]
fn call_number_is_that_of_the_platform() {
    assert_eq!(Recvfrom::num(), libc::SYS_recvfrom);
    assert!(Recvfrom::num() > 0);
}

#[test]
fn stage_builds_the_six_word_argument_vector() {
    let mut arena = Arena::new(64);
    let mut buf = [0u8; 16];
    let mut addr = [0u8; 8];
    let mut addrlen = 0u32;
    let call = Recvfrom {
        sockfd: 3,
        buf: &mut buf,
        flags: 0x40,
        src_addr: Some(SockaddrOutput { addr: &mut addr, addrlen: &mut addrlen }),
    };
    let (argv, (out, src_addr)) = call.stage(&mut arena).unwrap();
    // address range at 0, length slot at 8, message range at 12
    assert_eq!(argv.0, [3, 12, 16, 0x40, 0, 8]);
    assert_eq!(argv.arity(), 6);
    assert_eq!(argv.words(), [3, 12, 16, 0x40, 0, 8]);
    assert_eq!((out.offset(), out.len()), (12, 16));
    let src_addr = src_addr.unwrap();
    assert_eq!((src_addr.addr.offset(), src_addr.addr.len()), (0, 8));
    assert_eq!(src_addr.addrlen.offset(), 8);
    assert_eq!(arena.used(), 28);
    assert_eq!(&arena.bytes()[8..12], &[8, 0, 0, 0][..]);
    assert_eq!(arena.checkpoint().index, 0);
}

#[test]
fn stage_without_peer_address_names_no_address_range() {
    let mut arena = Arena::new(64);
    arena.allocate(5, 1).unwrap();
    let mut buf = [0u8; 16];
    let call = Recvfrom { sockfd: -1, buf: &mut buf, flags: -2, src_addr: None };
    let (argv, (out, src_addr)) = call.stage(&mut arena).unwrap();
    assert_eq!(NULL, usize::MAX);
    assert_eq!(argv.0, [-1i32 as usize, 5, 16, -2i32 as usize, NULL, NULL]);
    assert_eq!((out.offset(), out.len()), (5, 16));
    assert!(src_addr.is_none());
    assert_eq!(arena.used(), 21);
}

#[test]
fn stage_failure_rolls_the_arena_back() {
    let mut arena = Arena::new(24);
    arena.allocate(2, 1).unwrap();
    assert!(arena.write(0, &[0xAB, 0xCD]));
    let before = arena.bytes().to_vec();
    let mut buf = [0x11u8; 16];
    let mut addr = [0x22u8; 8];
    let mut addrlen = 33u32;
    // the address range and the slot fit, the message range does not
    let call = Recvfrom {
        sockfd: 3,
        buf: &mut buf,
        flags: 0,
        src_addr: Some(SockaddrOutput { addr: &mut addr, addrlen: &mut addrlen }),
    };
    assert!(matches!(call.stage(&mut arena), Err(Error::AllocationExhausted)));
    assert_eq!(arena.used(), 2);
    assert_eq!(arena.bytes(), &before[..]);
    assert_eq!(arena.checkpoint().index, 0);
    assert_eq!(buf, [0x11u8; 16]);
    assert_eq!(addr, [0x22u8; 8]);
    assert_eq!(addrlen, 33);
}

#[test]
fn stage_failure_in_the_peer_address_rolls_the_arena_back() {
    let mut arena = Arena::new(10);
    let mut buf = [0u8; 2];
    let mut addr = [0u8; 8];
    let mut addrlen = 0u32;
    let call = Recvfrom {
        sockfd: 3,
        buf: &mut buf,
        flags: 0,
        src_addr: Some(SockaddrOutput { addr: &mut addr, addrlen: &mut addrlen }),
    };
    assert!(matches!(call.stage(&mut arena), Err(Error::AllocationExhausted)));
    assert_eq!(arena.used(), 0);
    assert_eq!(arena.checkpoint().index, 0);
}

#[test]
fn scenario_oversized_claim_is_discarded() {
    let mut arena = Arena::new(128);
    let mut buf = [0xEEu8; 16];
    let call = Recvfrom { sockfd: 3, buf: &mut buf, flags: 0, src_addr: None };
    let (argv, staged) = call.stage(&mut arena).unwrap();
    let committed = Recvfrom::commit(staged);
    // the host writes 40 bytes at the staged offset and claims all of them
    assert!(arena.write(argv.0[1], &[0x55u8; 40]));
    let collected = Recvfrom::collect(committed, decode_result(40), &arena);
    assert_eq!(collected, None);
    assert_eq!(buf, [0xEEu8; 16]);
}

#[test]
fn scenario_plausible_answer_is_copied() {
    let mut arena = Arena::new(128);
    let mut buf = [0xEEu8; 16];
    let mut addr = [0u8; 8];
    let mut addrlen = 0u32;
    let call = Recvfrom {
        sockfd: 3,
        buf: &mut buf,
        flags: 0,
        src_addr: Some(SockaddrOutput { addr: &mut addr, addrlen: &mut addrlen }),
    };
    let (argv, staged) = call.stage(&mut arena).unwrap();
    let committed = Recvfrom::commit(staged);
    let message = [10u8, 11, 12, 13, 14, 15, 16, 17, 18, 19];
    let peer = [2u8, 0, 0x1F, 0x90, 127, 0, 0, 1];
    assert!(arena.write(argv.0[1], &message));
    assert!(arena.write(argv.0[4], &peer));
    assert!(arena.write(argv.0[5], &encode_len(8)));
    let collected = Recvfrom::collect(committed, decode_result(10), &arena);
    assert_eq!(collected, Some(Ok(10)));
    assert_eq!(&buf[..10], &message[..]);
    assert_eq!(&buf[10..], &[0xEEu8; 6][..]);
    assert_eq!(addrlen, 8);
    assert_eq!(addr, peer);
}

#[test]
fn scenario_exhaustion_and_reuse_after_reset() {
    let mut arena = Arena::new(64);
    let mark = arena.checkpoint();
    let mut first = [0u8; 40];
    let mut second = [0u8; 40];
    let call = Recvfrom { sockfd: 3, buf: &mut first, flags: 0, src_addr: None };
    let (argv, staged) = call.stage(&mut arena).unwrap();
    assert_eq!(argv.0[1], 0);
    let call = Recvfrom { sockfd: 3, buf: &mut second, flags: 0, src_addr: None };
    assert!(matches!(call.stage(&mut arena), Err(Error::AllocationExhausted)));
    assert_eq!(arena.used(), 40);
    // collect the first call, then reset the arena to the checkpoint
    assert!(arena.write(argv.0[1], &[7u8; 40]));
    let collected = Recvfrom::collect(Recvfrom::commit(staged), decode_result(40), &arena);
    assert_eq!(collected, Some(Ok(40)));
    assert_eq!(first, [7u8; 40]);
    assert!(arena.rollback(mark));
    assert_eq!(arena.used(), 0);
    let call = Recvfrom { sockfd: 3, buf: &mut second, flags: 0, src_addr: None };
    let (argv, staged) = call.stage(&mut arena).unwrap();
    assert_eq!((argv.0[1], argv.0[2]), (0, 40));
    assert_eq!(Recvfrom::collect(Recvfrom::commit(staged), Ok(0), &arena), Some(Ok(0)));
    assert_eq!(second, [0u8; 40]);
}

#[test]
fn claim_of_exactly_the_reserved_length_is_accepted() {
    let mut arena = Arena::new(64);
    let mut buf = [0xEEu8; 4];
    let call = Recvfrom { sockfd: 3, buf: &mut buf, flags: 0, src_addr: None };
    let (argv, staged) = call.stage(&mut arena).unwrap();
    assert!(arena.write(argv.0[1], &[1, 2, 3, 4, 5]));
    let collected = Recvfrom::collect(Recvfrom::commit(staged), Ok(4), &arena);
    assert_eq!(collected, Some(Ok(4)));
    assert_eq!(buf, [1, 2, 3, 4]);
}

#[test]
fn claim_of_one_byte_too_many_is_discarded() {
    let mut arena = Arena::new(64);
    let mut buf = [0xEEu8; 4];
    let mut addr = [0xEEu8; 8];
    let mut addrlen = 99u32;
    let call = Recvfrom {
        sockfd: 3,
        buf: &mut buf,
        flags: 0,
        src_addr: Some(SockaddrOutput { addr: &mut addr, addrlen: &mut addrlen }),
    };
    let (argv, staged) = call.stage(&mut arena).unwrap();
    assert!(arena.write(argv.0[1], &[1, 2, 3, 4, 5]));
    assert!(arena.write(argv.0[4], &[1, 2, 3, 4, 5, 6, 7, 8]));
    let collected = Recvfrom::collect(Recvfrom::commit(staged), Ok(5), &arena);
    assert_eq!(collected, None);
    assert_eq!(buf, [0xEEu8; 4]);
    // the peer address is not collected either
    assert_eq!(addr, [0xEEu8; 8]);
    assert_eq!(addrlen, 99);
}

#[test]
fn host_error_is_passed_on_unchanged() {
    let mut arena = Arena::new(64);
    let mut buf = [0xEEu8; 16];
    let mut addr = [0xEEu8; 8];
    let mut addrlen = 99u32;
    let call = Recvfrom {
        sockfd: 3,
        buf: &mut buf,
        flags: 0,
        src_addr: Some(SockaddrOutput { addr: &mut addr, addrlen: &mut addrlen }),
    };
    let (argv, staged) = call.stage(&mut arena).unwrap();
    assert!(arena.write(argv.0[1], &[0x55u8; 16]));
    let collected = Recvfrom::collect(Recvfrom::commit(staged), decode_result(-11), &arena);
    assert_eq!(collected, Some(Err(Error::HostReported(-11))));
    assert_eq!(buf, [0xEEu8; 16]);
    assert_eq!(addr, [0xEEu8; 8]);
    assert_eq!(addrlen, 99);
}

#[test]
fn round_trip_hands_back_what_the_host_wrote() {
    for n in 0..=16usize {
        let mut arena = Arena::new(96);
        arena.allocate(n, 1).unwrap();
        let mut buf = [0xEEu8; 16];
        let mut addr = [0xEEu8; 12];
        let mut addrlen = 0u32;
        let call = Recvfrom {
            sockfd: 5,
            buf: &mut buf,
            flags: 0,
            src_addr: Some(SockaddrOutput { addr: &mut addr, addrlen: &mut addrlen }),
        };
        let (argv, staged) = call.stage(&mut arena).unwrap();
        let message: Vec<u8> = (0..n).map(|i| (i * 7 + 1) as u8).collect();
        let peer: Vec<u8> = (0..n.min(12)).map(|i| (200 + i) as u8).collect();
        assert!(arena.write(argv.0[1], &message));
        assert!(arena.write(argv.0[4], &peer));
        assert!(arena.write(argv.0[5], &encode_len(peer.len() as u32)));
        let collected = Recvfrom::collect(Recvfrom::commit(staged), Ok(n), &arena);
        assert_eq!(collected, Some(Ok(n)));
        assert_eq!(&buf[..n], &message[..]);
        assert!(buf[n..].iter().all(|b| *b == 0xEE));
        assert_eq!(addrlen as usize, peer.len());
        assert_eq!(&addr[..peer.len()], &peer[..]);
        assert!(addr[peer.len()..].iter().all(|b| *b == 0xEE));
    }
}
