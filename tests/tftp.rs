use r_tftpd::bucket::{Bucket, BucketGuard};
use r_tftpd::datagram::Datagram;
use r_tftpd::errors::{Error, RequestError};
use r_tftpd::fetcher::Fetcher;
use r_tftpd::mode::Mode;
use r_tftpd::oack::Oack;
use r_tftpd::request::{try_ranged_from, Dir, Request};
use r_tftpd::sequence_id::SequenceId;
use r_tftpd::session::{
    record_window,
    check_oack_reply, dispatch, error_reply, negotiate_rrq, Dispatch, Params, RrqState, RrqStep, WrqState,
    WrqStep, RETRY_CNT,
};
use r_tftpd::stats::{Direction, Stats};
use r_tftpd::xfer::{Block, Xfer};

fn delta(a: u16, b: u16) -> u16 {
    SequenceId::new(a).delta(SequenceId::new(b))
}

#[test]
fn test_seqid() {
    assert_eq!(delta(1, 0), 1);
    assert_eq!(delta(0, 0), 0);
    assert_eq!(delta(0, 1), 65535);
    assert_eq!(delta(1, 65535), 2);
    assert_eq!(delta(65535, 1), 65534);

    assert_eq!(SequenceId::new(0) + 1, SequenceId::new(1));
    assert_eq!(SequenceId::new(65535) + 1, SequenceId::new(0));
    assert_eq!(SequenceId::new(65535) + 65535, SequenceId::new(65534));

    assert_eq!(SequenceId::new(0x01fe).as_u8_lo(), 0xfe);
    assert_eq!(SequenceId::new(0x0102).as_u8_hi(), 0x01);

    assert_eq!(SequenceId::new(0xfd03).as_u8_lo(), 0x03);
    assert_eq!(SequenceId::new(0xfd03).as_u8_hi(), 0xfd);
}

#[test]
fn test_cmp() {
    assert!(SequenceId::new(0) == SequenceId::new(0));
    assert!(SequenceId::new(0).partial_cmp(&SequenceId::new(0)) == Some(std::cmp::Ordering::Equal));

    assert!(SequenceId::new(0) < SequenceId::new(1));
    assert!(SequenceId::new(0) < SequenceId::new(u16::MAX / 2 - 1));
    assert!(SequenceId::new(0) < SequenceId::new(u16::MAX / 2));
    assert!(SequenceId::new(0) > SequenceId::new(u16::MAX / 2 + 1));
    assert!(SequenceId::new(u16::MAX) < SequenceId::new(0));
}

#[test]
fn seqid_step_forward_and_back() {
    let a = SequenceId::new(65000);
    let b = a + 32767;
    assert_eq!(b.delta(a), 32767);
    assert!(a < b);
    assert_eq!(a.as_slice(), [0xfd, 0xe8]);
}

#[test]
fn test_bucket() {
    let mut bucket = Bucket::new(4);

    assert_eq!(bucket.level(), 4);

    let g0 = bucket.acquire();
    assert_eq!(bucket.level(), 3);
    assert!(g0.is_some());

    let g1 = bucket.acquire();
    assert_eq!(bucket.level(), 2);
    assert!(g1.is_some());

    let g2 = bucket.acquire();
    assert_eq!(bucket.level(), 1);
    assert!(g2.is_some());

    let g3 = bucket.acquire();
    assert_eq!(bucket.level(), 0);
    assert!(g3.is_some());

    let g4 = bucket.acquire();
    assert_eq!(bucket.level(), 0);
    assert!(!g4.is_some());
    BucketGuard::release(&mut bucket, g4);

    assert_eq!(bucket.level(), 0);

    BucketGuard::release(&mut bucket, g3);

    assert_eq!(bucket.level(), 1);

    let g5 = bucket.acquire();
    assert_eq!(bucket.level(), 0);
    assert!(g5.is_some());

    BucketGuard::release(&mut bucket, g2);
    BucketGuard::release(&mut bucket, g5);

    assert_eq!(bucket.level(), 2);

    BucketGuard::release(&mut bucket, g1);
    BucketGuard::release(&mut bucket, g0);
    assert_eq!(bucket.level(), 4);
}

#[test]
fn bucket_admits_no_more_than_capacity() {
    let mut bucket = Bucket::new(2);
    let a = bucket.acquire();
    let b = bucket.acquire();
    let c = bucket.acquire();
    assert!(a.is_some() && b.is_some());
    assert!(c.is_none());
    assert_eq!(bucket.level(), 0);
}

#[test]
fn test_range() {
    assert_eq!(try_ranged_from(b"000", 0, 10), Ok(0));
    assert_eq!(try_ranged_from(b"001", 0, 10), Ok(1));
    assert_eq!(try_ranged_from(b"10", 0, 10), Ok(10));
    assert_eq!(try_ranged_from(b"010", 0, 10), Ok(10));
    assert_eq!(try_ranged_from(b"011", 0, 10), Err(RequestError::NumberOutOfRange));
    assert_eq!(try_ranged_from(b"0", 1, 10), Err(RequestError::NumberOutOfRange));
    let as_u8 = |r: Result<u64, RequestError>| r.and_then(|v| u8::try_from(v).map_err(|_| RequestError::NumberOutOfRange));
    assert_eq!(as_u8(try_ranged_from(b"200", 1, 1000)), Ok(200));
    assert_eq!(as_u8(try_ranged_from(b"300", 1, 1000)), Err(RequestError::NumberOutOfRange));
    assert_eq!(
        try_ranged_from(b"18446744073709551615", 1, 18446744073709551615),
        Ok(18446744073709551615)
    );
    assert_eq!(
        try_ranged_from(b"18446744073709551616", 1, 18446744073709551615),
        Err(RequestError::NumberOutOfRange)
    );
    assert_eq!(
        try_ranged_from(b"184467440737095516150", 1, 18446744073709551615),
        Err(RequestError::NumberOutOfRange)
    );
}

#[test]
fn range_refuses_non_digits() {
    assert_eq!(try_ranged_from(b"1x", 0, 10), Err(RequestError::BadDigit(b'x')));
}

fn parse(v: &[u8]) -> Result<Datagram, Error> {
    Datagram::try_from(v)
}

fn request_err(v: &[u8]) -> RequestError {
    match parse(v) {
        Err(Error::RequestError(e)) => e,
        r => panic!("unexpected {:?}", r),
    }
}

#[test]
fn test_datagram() {
    // RRQ
    assert!(matches!(parse(b"\x00\x01file\x00octet\x00"), Ok(Datagram::Read(_))));
    assert!(matches!(parse(b"\x00\x01file\x00netascii\x00"), Ok(Datagram::Read(_))));
    assert!(matches!(parse(b"\x00\x01file\x00binary\x00"), Ok(Datagram::Read(_))));
    assert!(matches!(parse(b"\x00\x01file\x00mail\x00"), Ok(Datagram::Read(_))));
    assert!(matches!(parse(b"\x00\x01file\x00mail\x00"), Ok(Datagram::Read(_))));

    assert_eq!(request_err(b"\x00\x01file\x00XXX\x00"), RequestError::BadMode);
    assert_eq!(request_err(b"\x00\x01file\x00octet"), RequestError::MissingZero);
    assert_eq!(request_err(b"\x00\x01file\x00"), RequestError::MissingMode);
    assert_eq!(request_err(b"\x00\x01file"), RequestError::MissingZero);
    assert_eq!(request_err(b"\x00\x01"), RequestError::TooShort);

    match parse(
        b"\x00\x01file\x00octet\x00\
          blksize\x002000\x00\
          unsupported\x001234\x00\
          timeout\x005\x00\
          tsize\x000\x00\
          windowsize\x0064\x00",
    ) {
        Ok(Datagram::Read(rrq)) => {
            assert_eq!(rrq.filename, b"file".to_vec());
            assert_eq!(rrq.mode, Mode::Octet);
            assert_eq!(rrq.block_size, Some(2000));
            assert_eq!(rrq.timeout, Some(5));
            assert_eq!(rrq.tsize, Some(0));
            assert_eq!(rrq.window_size, Some(64));
        },
        r => panic!("bad result {:?}", r),
    }

    assert_eq!(request_err(b"\x00\x01file\x00octet\x00tsize\x0042\x00"), RequestError::NumberOutOfRange);
    assert_eq!(request_err(b"\x00\x01file\x00octet\x00tsize\x0042\x00"), RequestError::NumberOutOfRange);
    assert_eq!(request_err(b"\x00\x01file\x00octet\x00windowsize\x000\x00"), RequestError::NumberOutOfRange);
    assert_eq!(request_err(b"\x00\x01file\x00octet\x00blksize\x007\x00"), RequestError::NumberOutOfRange);

    // WRQ
    assert!(matches!(parse(b"\x00\x02file\x00octet\x00"), Ok(Datagram::Write(_))));
    match parse(b"\x00\x02file\x00octet\x00tsize\x0042\x00") {
        Ok(Datagram::Write(wrq)) => {
            assert_eq!(wrq.filename, b"file".to_vec());
            assert_eq!(wrq.mode, Mode::Octet);
            assert_eq!(wrq.tsize, Some(42));
        },
        r => panic!("bad result {:?}", r),
    }

    // DATA
    match parse(b"\x00\x03\x01\x02data") {
        Ok(Datagram::Data(seq, data)) => {
            assert_eq!(seq.as_u16(), 0x0102);
            assert_eq!(data, b"data".to_vec());
        },
        r => panic!("bad result {:?}", r),
    }

    // ACK
    match parse(b"\x00\x04\x01\x02") {
        Ok(Datagram::Ack(seq)) => assert_eq!(seq.as_u16(), 0x0102),
        r => panic!("bad result {:?}", r),
    }
    assert_eq!(request_err(b"\x00\x04\x01\x02X"), RequestError::MalformedAck);

    // ERROR
    match parse(b"\x00\x05\x01\x02error\x00") {
        Ok(Datagram::Error(code, msg)) => {
            assert_eq!(code, 0x0102);
            assert_eq!(msg, b"error".to_vec());
        },
        r => panic!("bad result {:?}", r),
    }
    match parse(b"\x00\x05\x01\x02\x00") {
        Ok(Datagram::Error(code, msg)) => {
            assert_eq!(code, 0x0102);
            assert_eq!(msg, b"".to_vec());
        },
        r => panic!("bad result {:?}", r),
    }
    assert_eq!(request_err(b"\x00\x05\x01\x02error"), RequestError::MissingZero);

    // OACK
    assert!(matches!(parse(b"\x00\x06..."), Ok(Datagram::OAck)));

    // misc errors
    assert_eq!(request_err(b"\x00\x07"), RequestError::BadOpCode(7));
    assert_eq!(request_err(b"\x00"), RequestError::TooShort);
    assert_eq!(request_err(b""), RequestError::TooShort);
}

#[test]
fn request_options_are_case_insensitive() {
    match Request::from_slice(b"f\x00OCTET\x00BlkSize\x00512\x00", Dir::Read) {
        Ok(q) => {
            assert_eq!(q.mode, Mode::Octet);
            assert_eq!(q.block_size, Some(512));
            assert!(q.has_options());
        },
        r => panic!("bad result {:?}", r),
    }
    assert_eq!(
        Request::from_slice(b"f\x00octet\x00blksize\x00", Dir::Read).err(),
        Some(RequestError::MissingArgument)
    );
    assert_eq!(Request::from_slice(b"\x00octet\x00", Dir::Read).err(), Some(RequestError::MissingFilename));
}

fn verify_data(xfer: &Xfer, start_idx: SequenceId, cnt: u16) {
    let items = xfer.iter();
    for (idx, d) in items.iter().enumerate() {
        match d {
            Datagram::Data(id, data) => {
                assert_eq!(*id, start_idx + idx as u16);

                let expected: &[u8] = match id.as_u16() {
                    23 => &[0, 1],
                    24 => &[2, 3],
                    25 => &[4, 5],
                    26 => &[6, 7],
                    27 => &[8, 9],
                    28 => &[10, 11],
                    29 => &[12, 13],
                    30 => &[14, 15],
                    31 => &[],

                    50 => &[0, 1],
                    51 => &[2],
                    _ => unreachable!(),
                };
                assert_eq!(data.as_slice(), expected);
            },

            _ => unreachable!(),
        }
    }

    assert_eq!(xfer.iter().len(), cnt as usize);
}

#[test]
fn test_0() {
    let mut f = Fetcher::new_memory(&[0, 1, 2, 3, 4, 5, 6, 7, 8, 9, 10, 11, 12, 13, 14, 15]);

    let mut xfer = Xfer::new(&f, 2, 3);

    assert!(!xfer.is_eof());

    let mut seq = SequenceId::new(23);

    xfer.fill_window(seq, &mut f).expect("fill_window(0) failed");
    verify_data(&xfer, seq, 3);
    assert!(!xfer.is_eof());

    // last buffer of previous transfer was lost
    seq = seq + 2; // 25
    xfer.fill_window(seq, &mut f).expect("fill_window(+2) failed");
    verify_data(&xfer, seq, 3);
    assert!(!xfer.is_eof());

    seq = seq + 65535; // 24
    xfer.fill_window(seq, &mut f).expect_err("out-of-window blkid succeeded");
    seq = seq + 1; // 25
    verify_data(&xfer, seq, 3);
    assert!(!xfer.is_eof());

    seq = seq + 4; // 29
    xfer.fill_window(seq, &mut f).expect_err("out-of-window blkid succeeded");
    seq = seq + 65532; // 25
    verify_data(&xfer, seq, 3);
    assert!(!xfer.is_eof());

    seq = seq + 3; // 28
    xfer.fill_window(seq, &mut f).expect("fill_window(+3) failed");
    verify_data(&xfer, seq, 3);
    assert!(!xfer.is_eof());

    seq = seq + 2; // 30
    xfer.fill_window(seq, &mut f).expect("fill_window(+3) failed");
    verify_data(&xfer, seq, 2);
    assert!(!xfer.is_eof());

    seq = seq + 2; // 32
    xfer.fill_window(seq, &mut f).expect("fill_window(+3) failed");
    verify_data(&xfer, seq, 0);
    assert!(xfer.is_eof());
}

#[test]
fn test_1() {
    let mut f = Fetcher::new_memory(&[0, 1, 2]);

    let mut xfer = Xfer::new(&f, 2, 3);

    assert!(!xfer.is_eof());

    let mut seq = SequenceId::new(50);
    xfer.fill_window(seq, &mut f).expect("fill_window(0) failed");
    verify_data(&xfer, seq, 2);
    assert!(!xfer.is_eof());

    seq = seq + 1; // 51
    xfer.fill_window(seq, &mut f).expect("fill_window(0) failed");
    verify_data(&xfer, seq, 1);
    assert!(!xfer.is_eof());

    seq = seq + 1; // 52
    xfer.fill_window(seq, &mut f).expect("fill_window(0) failed");
    verify_data(&xfer, seq, 0);
    assert!(xfer.is_eof());
}

#[test]
fn plain_rrq_of_513_bytes_sends_512_and_1() {
    let data: Vec<u8> = (0..513u32).map(|i| (i * 7 % 251) as u8).collect();
    let mut f = Fetcher::new_file(data.clone());
    assert_eq!(f.get_size(), Some(513));
    let mut xfer = Xfer::new(&f, 512, 1);
    let mut state = RrqState::new();
    let mut stats = Stats::new(Direction::Rrq);
    let mut sent: Vec<Vec<u8>> = Vec::new();
    loop {
        let wasted = xfer.fill_window(state.seq, &mut f).unwrap();
        assert_eq!(wasted, 0);
        if xfer.is_eof() {
            break;
        }
        let mut last = state.seq;
        for d in xfer.iter() {
            stats.xmitsz += d.get_data_len() as u64;
            if let Datagram::Data(id, payload) = d {
                last = id;
                sent.push(payload);
            }
        }
        let step = state.on_reply(&Ok(Datagram::Ack(last)), &mut stats);
        assert_eq!(step, RrqStep::Continue);
    }
    assert_eq!(sent.len(), 2);
    assert_eq!(sent[0].len(), 512);
    assert_eq!(sent[1].len(), 1);
    assert_eq!(stats.xmitsz, 513);
    assert_eq!(sent.concat(), data);
}

#[test]
fn exact_multiple_ends_with_empty_block() {
    let mut f = Fetcher::new_memory(&[1, 2, 3, 4]);
    let mut xfer = Xfer::new(&f, 2, 4);
    xfer.fill_window(SequenceId::new(1), &mut f).unwrap();
    let d = xfer.iter();
    assert_eq!(d.len(), 3);
    assert_eq!(d[2].get_data_len(), 0);
}

#[test]
fn short_window_ack_resends_rest_of_window() {
    let data: Vec<u8> = (0..100u8).collect();
    let mut f = Fetcher::new_memory(&data);
    let mut xfer = Xfer::new(&f, 4, 4);
    xfer.fill_window(SequenceId::new(10), &mut f).unwrap();
    let first: Vec<u16> = xfer
        .iter()
        .iter()
        .map(|d| match d {
            Datagram::Data(id, _) => id.as_u16(),
            _ => 0,
        })
        .collect();
    assert_eq!(first, vec![10, 11, 12, 13]);
    // the client acknowledges only block 11
    let wasted = xfer.fill_window(SequenceId::new(12), &mut f).unwrap();
    assert_eq!(wasted, 8);
    let next: Vec<(u16, Vec<u8>)> = xfer
        .iter()
        .into_iter()
        .map(|d| match d {
            Datagram::Data(id, p) => (id.as_u16(), p),
            _ => (0, vec![]),
        })
        .collect();
    assert_eq!(next.len(), 4);
    assert_eq!(next[0], (12, vec![8, 9, 10, 11]));
    assert_eq!(next[1], (13, vec![12, 13, 14, 15]));
    assert_eq!(next[2], (14, vec![16, 17, 18, 19]));
    assert_eq!(next[3], (15, vec![20, 21, 22, 23]));
    let mut stats = Stats::new(Direction::Rrq);
    r_tftpd::session::record_fill(&mut stats, wasted);
    assert_eq!(stats.wastedsz, 8);
    assert_eq!(stats.retries, 1);
}

#[test]
fn option_negotiation_narrows_and_fills_tsize() {
    let req = match Datagram::try_from(
        b"\x00\x01file\x00octet\x00blksize\x001400\x00windowsize\x008\x00tsize\x000\x00timeout\x005\x00",
    ) {
        Ok(Datagram::Read(q)) => q,
        r => panic!("bad result {:?}", r),
    };
    let p = Params { block_size: 512, window_size: 1, timeout: 3 };
    let (oack, params) = negotiate_rrq(&req, 1500, 64, Some(12345), p);
    assert_eq!(params, Params { block_size: 1400, window_size: 8, timeout: 5 });
    assert_eq!(oack, Oack { block_size: Some(1400), timeout: Some(5), window_size: Some(8), tsize: Some(12345) });
    let mut msg = Vec::new();
    oack.fill_buf(&mut msg);
    assert_eq!(
        msg,
        b"\x00\x06blksize\x001400\x00windowsize\x008\x00tsize\x0012345\x00timeout\x005\x00".to_vec()
    );
    assert!(check_oack_reply(&Ok(Datagram::Ack(SequenceId::new(0)))).is_ok());
    assert_eq!(check_oack_reply(&Ok(Datagram::Ack(SequenceId::new(1)))), Err(Error::BadAck));
    assert_eq!(
        check_oack_reply(&Ok(Datagram::OAck)),
        Err(Error::Protocol("bad response to OACK"))
    );
}

#[test]
fn negotiation_caps_at_server_limits() {
    let req = Request::from_slice(b"f\x00octet\x00blksize\x0065464\x00windowsize\x00100\x00", Dir::Read).unwrap();
    let (oack, params) = negotiate_rrq(&req, 1500, 64, None, Params { block_size: 512, window_size: 1, timeout: 3 });
    assert_eq!(oack.block_size, Some(1500));
    assert_eq!(oack.window_size, Some(64));
    assert_eq!(params.timeout, 3);
}

#[test]
fn timeout_resends_window_then_fails() {
    let mut state = RrqState::new();
    let mut stats = Stats::new(Direction::Rrq);
    for i in 0..RETRY_CNT {
        assert_eq!(state.on_reply(&Err(Error::Timeout), &mut stats), RrqStep::Continue);
        assert_eq!(stats.num_timeouts, i + 1);
        assert_eq!(state.seq, SequenceId::new(1));
    }
    assert_eq!(state.on_reply(&Err(Error::Timeout), &mut stats), RrqStep::Fail(Error::Timeout));

    let mut state = RrqState::new();
    state.on_reply(&Err(Error::Timeout), &mut stats);
    assert_eq!(state.on_reply(&Ok(Datagram::Ack(SequenceId::new(4))), &mut stats), RrqStep::Continue);
    assert_eq!(state.seq, SequenceId::new(5));
    assert_eq!(state.retry, RETRY_CNT);
}

#[test]
fn peer_error_at_startup_is_a_probe() {
    let mut stats = Stats::new(Direction::Rrq);
    let mut state = RrqState::new();
    assert_eq!(
        state.on_reply(&Ok(Datagram::Error(1, vec![])), &mut stats),
        RrqStep::PeerError { probe: true }
    );
    assert_eq!(
        state.on_reply(&Ok(Datagram::OAck), &mut stats),
        RrqStep::Fail(Error::Protocol("bad response to DATA"))
    );
    assert!(state.first_window_truncated(SequenceId::new(2), 4));
    assert!(!state.first_window_truncated(SequenceId::new(4), 4));
}

#[test]
fn write_to_devnull_acks_until_short_block() {
    let mut stats = Stats::new(Direction::Wrq);
    let mut state = WrqState::new();
    let full = Datagram::Data(SequenceId::new(1), vec![0; 8]);
    assert_eq!(state.on_reply(&Ok(full), 8, &mut stats), WrqStep::Ack(SequenceId::new(1)));
    let wrong = Datagram::Data(SequenceId::new(5), vec![0; 8]);
    assert_eq!(state.on_reply(&Ok(wrong), 8, &mut stats), WrqStep::Ignore);
    assert_eq!(state.on_reply(&Err(Error::Timeout), 8, &mut stats), WrqStep::Ack(SequenceId::new(1)));
    let last = Datagram::Data(SequenceId::new(2), vec![0; 3]);
    assert_eq!(state.on_reply(&Ok(last), 8, &mut stats), WrqStep::AckLast(SequenceId::new(2)));
    assert_eq!(stats.xmitsz, 11);
    assert_eq!(stats.retries, 1);
}

#[test]
fn dispatch_refuses_other_modes_and_writes() {
    let rrq = Datagram::try_from(b"\x00\x01f\x00netascii\x00").unwrap();
    match dispatch(Ok(rrq), false) {
        Dispatch::Refuse { reply, .. } => assert_eq!(reply, Error::RequestError(RequestError::ModeUnsupported)),
        d => panic!("unexpected {:?}", d),
    }
    let wrq = Datagram::try_from(b"\x00\x02f\x00octet\x00").unwrap();
    match dispatch(Ok(wrq), false) {
        Dispatch::Refuse { reply, result } => {
            assert_eq!(reply, Error::RequestError(RequestError::WriteUnsupported));
            assert_eq!(result, Error::NotImplemented);
        },
        d => panic!("unexpected {:?}", d),
    }
    let wrq = Datagram::try_from(b"\x00\x02f\x00octet\x00").unwrap();
    assert!(matches!(dispatch(Ok(wrq), true), Dispatch::WriteDevnull(_)));
    let rrq = Datagram::try_from(b"\x00\x01f\x00octet\x00").unwrap();
    assert!(matches!(dispatch(Ok(rrq), false), Dispatch::Read(_)));
    match dispatch(Ok(Datagram::OAck), false) {
        Dispatch::Refuse { reply, .. } => assert_eq!(reply, Error::RequestError(RequestError::OperationUnsupported)),
        d => panic!("unexpected {:?}", d),
    }
}

#[test]
fn error_replies_carry_codes() {
    assert_eq!(error_reply(&Error::FileMissing), b"\x00\x05\x00\x01file is missing\x00".to_vec());
    assert_eq!(error_reply(&Error::TooMuchClients), b"\x00\x05\x00\x04too much clients\x00".to_vec());
    assert_eq!(
        error_reply(&Error::RequestError(RequestError::TooShort)),
        b"\x00\x05\x00\x04datagram too short\x00".to_vec()
    );
    assert_eq!(error_reply(&Error::Timeout), b"\x00\x05\x00\x00timeout\x00".to_vec());
    assert_eq!(error_reply(&Error::HttpStatus(500)), b"\x00\x05\x00\x00request failed\x00".to_vec());
}

#[test]
fn stats_report_errors() {
    let mut s = Stats::new(Direction::Rrq);
    assert!(!s.has_errors());
    s.filesize = 10;
    assert!(s.has_errors());
    s.xmitsz = 10;
    assert!(!s.has_errors());
    assert_eq!(Direction::Rrq.as_arrow(), "=>");
    assert_eq!(Direction::Wrq.as_arrow(), "<=");
}

#[test]
fn timeout_sends_the_same_window_again() {
    let data: Vec<u8> = (0..40u8).collect();
    let mut f = Fetcher::new_memory(&data);
    let mut xfer = Xfer::new(&f, 4, 3);
    let mut state = RrqState::new();
    let mut stats = Stats::new(Direction::Rrq);
    assert_eq!(xfer.fill_window(state.seq, &mut f).unwrap(), 0);
    assert_eq!(state.on_reply(&Ok(Datagram::Ack(SequenceId::new(3))), &mut stats), RrqStep::Continue);
    assert_eq!(xfer.fill_window(state.seq, &mut f).unwrap(), 0);
    let before: Vec<Vec<u8>> = xfer.iter().into_iter().map(|d| match d { Datagram::Data(_, p) => p, _ => vec![] }).collect();
    // the ACK of this window is lost
    assert_eq!(state.on_reply(&Err(Error::Timeout), &mut stats), RrqStep::Continue);
    assert_eq!(stats.num_timeouts, 1);
    assert_eq!(xfer.fill_window(state.seq, &mut f).unwrap(), 0);
    let again: Vec<Vec<u8>> = xfer.iter().into_iter().map(|d| match d { Datagram::Data(_, p) => p, _ => vec![] }).collect();
    assert_eq!(before, again);
    assert_eq!(again[0], vec![12, 13, 14, 15]);
    assert_eq!(state.on_reply(&Ok(Datagram::Ack(SequenceId::new(6))), &mut stats), RrqStep::Continue);
    xfer.fill_window(state.seq, &mut f).unwrap();
    match &xfer.iter()[0] {
        Datagram::Data(id, p) => {
            assert_eq!(id.as_u16(), 7);
            assert_eq!(p, &vec![24, 25, 26, 27]);
        },
        d => panic!("unexpected {:?}", d),
    }
}

#[test]
fn fetcher_reads_in_order() {
    let mut f = Fetcher::new_memory(&[1, 2, 3, 4, 5]);
    assert_eq!(f.read(2).unwrap(), vec![1, 2]);
    assert_eq!(f.read_mmap(2), vec![3, 4]);
    assert!(!f.is_eof());
    assert_eq!(f.read(9).unwrap(), vec![5]);
    assert!(f.is_eof());
    assert_eq!(f.read(9).unwrap(), Vec::<u8>::new());
}

#[test]
fn block_length_up_to_capacity() {
    let mut b = Block::new_owned(8);
    b.set_len(5);
    assert_eq!(b.get_data().len(), 5);
    assert_eq!(b.get_blksize(), 8);
    let mut f = Fetcher::new_memory(&[9, 8, 7]);
    assert_eq!(b.fill(&mut f).unwrap(), 3);
    b.set_len(2);
    assert_eq!(b.get_data(), vec![9, 8]);
}

#[test]
fn sent_bytes_are_counted_per_window() {
    let data: Vec<u8> = (0..10u8).collect();
    let mut f = Fetcher::new_memory(&data);
    let mut xfer = Xfer::new(&f, 4, 4);
    xfer.fill_window(SequenceId::new(1), &mut f).unwrap();
    let mut stats = Stats::new(Direction::Rrq);
    let window = xfer.iter();
    assert_eq!(record_window(&mut stats, &window), 3);
    assert_eq!(stats.xmitsz, 10);
    stats.xmitsz = u64::MAX - 1;
    record_window(&mut stats, &window);
    assert_eq!(stats.xmitsz, u64::MAX);
}
