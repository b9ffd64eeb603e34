use zserial::iobuf::{Reader, Writer, ZVec};
use zserial::link::LinkError;
use zserial::protocol::init::{Cookie, InitSyn};
use zserial::protocol::open::OpenSyn;
use zserial::protocol::transport::{TransportBody, TransportMessage};
use zserial::protocol::whatami::WhatAmI;
use zserial::protocol::{Varint, ZenohID};
use zserial::transport::TransportError;

fn zid_from_u128(v: u128) -> ZenohID {
    ZenohID::from_le_bytes(v.to_le_bytes())
}

fn encode_msg(msg: &TransportMessage) -> Vec<u8> {
    let mut buf = ZVec::new();
    msg.encode(&mut buf).unwrap();
    buf.as_slice().to_vec()
}

fn decode_msg(bytes: &[u8]) -> Result<TransportMessage, TransportError> {
    let mut buf = ZVec::new();
    buf.fill_from(bytes).unwrap();
    let mut s = buf.extract_slice(bytes.len()).unwrap();
    TransportMessage::decode(&mut s)
}

#[test]
fn varint_round_trips() {
    let cases: Vec<u64> = vec![
        0,
        1,
        0x7F,
        0x80,
        300,
        16383,
        16384,
        0xFFFFFFFF,
        0x123456789ABCDEF0,
        u64::MAX,
    ];
    for &v in &cases {
        let mut buf = ZVec::new();
        Varint::encode(&mut buf, v).unwrap();
        let mut s = buf.extract_slice(buf.len()).unwrap();
        assert_eq!(Varint::decode(&mut s).unwrap(), v);
    }
}

#[test]
fn varint_encoded_length() {
    let expect = |v: u64| -> usize {
        let bits = 64 - v.leading_zeros() as usize;
        if bits == 0 {
            1
        } else {
            (bits + 6) / 7
        }
    };
    for &v in &[0u64, 1, 0x7F, 0x80, 0x3FFF, 0x4000, u64::MAX] {
        let mut buf = ZVec::new();
        Varint::encode(&mut buf, v).unwrap();
        assert_eq!(buf.len(), expect(v));
    }
}

#[test]
fn varint_decode_rejects_overlong_run() {
    // eleven continuation bytes never finish a 64-bit value
    let mut buf = ZVec::new();
    buf.fill_from(&[0x80u8; 11]).unwrap();
    let mut s = buf.extract_slice(11).unwrap();
    assert!(Varint::decode(&mut s).is_err());
}

#[test]
fn zid_wire_size() {
    assert_eq!(zid_from_u128(0).size(), 1);
    assert_eq!(zid_from_u128(0x49).size(), 1);
    assert_eq!(zid_from_u128(0x1234).size(), 2);
    assert_eq!(zid_from_u128(u128::MAX).size(), 16);
    assert_eq!(zid_from_u128(1u128 << 120).size(), 16);
    assert_eq!(zid_from_u128((1u128 << 56) - 1).size(), 7);
}

#[test]
fn whatami_strings_and_bits() {
    assert_eq!(WhatAmI::Router.to_str(), "router");
    assert_eq!(WhatAmI::Peer.to_str(), "peer");
    assert_eq!(WhatAmI::Client.to_str(), "client");
    assert_eq!(WhatAmI::from_bits(0b00), Some(WhatAmI::Router));
    assert_eq!(WhatAmI::from_bits(0b01), Some(WhatAmI::Peer));
    assert_eq!(WhatAmI::from_bits(0b10), Some(WhatAmI::Client));
    assert_eq!(WhatAmI::from_bits(0b11), None);
    assert_eq!(WhatAmI::from_bits(0b111), None);
}

#[test]
fn init_syn_round_trip() {
    let msg = InitSyn::new(WhatAmI::Client, zid_from_u128(0xCAFE));
    let bytes = encode_msg(&msg);
    // defaults differ from the multicast defaults, so the S flag is set
    assert_eq!(bytes[0], 0x41);
    assert_eq!(bytes[1], 0x09);
    let decoded = decode_msg(&bytes).unwrap();
    match decoded.body {
        TransportBody::InitSyn(b) => {
            assert_eq!(b.version, 0x09);
            assert_eq!(b.whatami, WhatAmI::Client);
            assert_eq!(b.zid.to_le_bytes(), 0xCAFEu128.to_le_bytes());
            assert_eq!(b.seq_num_res, 2);
            assert_eq!(b.req_id_res, 2);
            assert_eq!(b.batch_size, 2048);
            assert!(b.cookie.is_none());
        },
        _ => panic!("expected an INIT-SYN"),
    }
}

#[test]
fn init_ack_round_trip_with_cookie() {
    let cookie = Cookie::from_slice(&[0xCA, 0xFE, 0xF0, 0x0D]).unwrap();
    let ack = InitSyn {
        version: 0x09,
        whatami: WhatAmI::Router,
        zid: zid_from_u128(0x49),
        seq_num_res: 1,
        req_id_res: 1,
        batch_size: 1024,
        cookie: Some(cookie),
    };
    let msg = TransportMessage { body: TransportBody::InitAck(ack) };
    let bytes = encode_msg(&msg);
    assert_eq!(bytes[0], 0x61);
    let decoded = decode_msg(&bytes).unwrap();
    match decoded.body {
        TransportBody::InitAck(b) => {
            assert_eq!(b.version, 0x09);
            assert_eq!(b.whatami, WhatAmI::Router);
            assert_eq!(b.zid.to_le_bytes(), 0x49u128.to_le_bytes());
            assert_eq!(b.seq_num_res, 1);
            assert_eq!(b.req_id_res, 1);
            assert_eq!(b.batch_size, 1024);
            assert_eq!(b.cookie.unwrap().as_slice(), &[0xCA, 0xFE, 0xF0, 0x0D]);
        },
        _ => panic!("expected an INIT-ACK"),
    }
}

#[test]
fn init_ack_literal_wire_image() {
    // header INIT|ACK, version 9, client flags byte, one identifier byte,
    // then a four-byte cookie
    let bytes = vec![0x21u8, 0x09, 0x02, 0x49, 0x04, 0xCA, 0xFE, 0xF0, 0x0D];
    let decoded = decode_msg(&bytes).unwrap();
    match decoded.body {
        TransportBody::InitAck(b) => {
            assert_eq!(b.version, 0x09);
            assert_eq!(b.whatami, WhatAmI::Client);
            assert_eq!(b.zid.to_le_bytes(), 0x49u128.to_le_bytes());
            // no S flag: the default size parameters
            assert_eq!(b.seq_num_res, 2);
            assert_eq!(b.req_id_res, 2);
            assert_eq!(b.batch_size, 8192);
            assert_eq!(b.cookie.unwrap().as_slice(), &[0xCA, 0xFE, 0xF0, 0x0D]);
        },
        _ => panic!("expected an INIT-ACK"),
    }
}

#[test]
fn reserved_whatami_is_refused() {
    // flags byte 0x03: the reserved role
    let bytes = vec![0x21u8, 0x09, 0x03, 0x49, 0x00];
    assert!(matches!(
        decode_msg(&bytes),
        Err(TransportError::LinkError(LinkError::InvalidParameter))
    ));
}

#[test]
fn wrong_protocol_version_is_refused() {
    // version 0x08 where 0x09 is required
    let bytes = vec![0x21u8, 0x08, 0x02, 0x49, 0x00];
    assert!(matches!(
        decode_msg(&bytes),
        Err(TransportError::LinkError(LinkError::InvalidParameter))
    ));
}

#[test]
fn extension_flag_is_refused_by_each_decoder() {
    // the per-message decoders refuse a header with the extension bit, too
    let mut buf = ZVec::new();
    buf.fill_from(&[0x0Au8, 0x05]).unwrap();
    let mut s = buf.extract_slice(2).unwrap();
    assert!(matches!(OpenSyn::decode(&mut s, 0x82), Err(TransportError::UnexpectMsg)));
    let mut buf2 = ZVec::new();
    buf2.fill_from(&[0x09u8, 0x02, 0x49]).unwrap();
    let mut s2 = buf2.extract_slice(3).unwrap();
    assert!(matches!(InitSyn::decode(&mut s2, 0x81), Err(TransportError::UnexpectMsg)));
}

#[test]
fn oversized_cookie_is_refused() {
    let mut bytes = vec![0x21u8, 0x09, 0x02, 0x49];
    // varint 1025: 0x81 0x08
    bytes.push(0x81);
    bytes.push(0x08);
    bytes.extend(std::iter::repeat(0x55u8).take(1025));
    assert!(matches!(decode_msg(&bytes), Err(TransportError::MoreCookieAllocated)));
}

#[test]
fn open_syn_round_trip() {
    let msg = TransportMessage {
        body: TransportBody::OpenSyn(OpenSyn::new(10000, 0x12345, Some(vec![9, 8, 7]))),
    };
    let bytes = encode_msg(&msg);
    // 10000 ms is whole seconds: the T flag rides along
    assert_eq!(bytes[0], 0x42);
    // the lease on the wire is 10 seconds
    assert_eq!(bytes[1], 10);
    let decoded = decode_msg(&bytes).unwrap();
    match decoded.body {
        TransportBody::OpenSyn(b) => {
            assert_eq!(b.lease, 10000);
            assert_eq!(b.initial_sn, 0x12345);
            assert_eq!(b.cookie.unwrap(), vec![9, 8, 7]);
        },
        _ => panic!("expected an OPEN-SYN"),
    }
}

#[test]
fn open_syn_millisecond_lease() {
    let msg = TransportMessage {
        body: TransportBody::OpenSyn(OpenSyn::new(1500, 7, Some(vec![1]))),
    };
    let bytes = encode_msg(&msg);
    assert_eq!(bytes[0], 0x02);
    let decoded = decode_msg(&bytes).unwrap();
    match decoded.body {
        TransportBody::OpenSyn(b) => {
            assert_eq!(b.lease, 1500);
            assert_eq!(b.initial_sn, 7);
        },
        _ => panic!("expected an OPEN-SYN"),
    }
}

#[test]
fn open_ack_round_trip() {
    let msg = TransportMessage { body: TransportBody::OpenAck(OpenSyn::new(7000, 42, None)) };
    let bytes = encode_msg(&msg);
    assert_eq!(bytes[0], 0x62);
    let decoded = decode_msg(&bytes).unwrap();
    match decoded.body {
        TransportBody::OpenAck(b) => {
            assert_eq!(b.lease, 7000);
            assert_eq!(b.initial_sn, 42);
            assert!(b.cookie.is_none());
        },
        _ => panic!("expected an OPEN-ACK"),
    }
}

#[test]
fn unknown_message_kind_is_refused() {
    assert!(matches!(decode_msg(&[0x05, 1, 2, 3]), Err(TransportError::UnexpectMsg)));
}

#[test]
fn extension_flag_is_refused() {
    assert!(matches!(decode_msg(&[0x81, 0x09, 0x02, 0x49]), Err(TransportError::UnexpectMsg)));
}

#[test]
fn full_buffer_refuses_encode() {
    let mut buf = ZVec::new();
    buf.fill_from(&vec![0u8; 2045]).unwrap();
    let msg = InitSyn::new(WhatAmI::Client, zid_from_u128(7));
    assert!(matches!(msg.encode(&mut buf), Err(TransportError::EncodeError(_))));
    // nothing was appended by the refused encode
    assert_eq!(buf.len(), 2045);
}

#[test]
fn truncated_message_is_refused() {
    // an INIT header with its body cut off
    assert!(matches!(decode_msg(&[0x21, 0x09]), Err(TransportError::DecodeError(_))));
    assert!(matches!(decode_msg(&[]), Err(TransportError::DecodeError(_))));
}

#[test]
fn cookie_cap_is_enforced() {
    assert!(Cookie::from_slice(&vec![0u8; 1024]).is_ok());
    assert!(Cookie::from_slice(&vec![0u8; 1025]).is_err());
}

#[test]
fn zvec_capacity_is_enforced() {
    let mut buf = ZVec::new();
    assert!(buf.write(&vec![1u8; 2048]).is_ok());
    assert!(buf.write_u8(0).is_err());
    assert_eq!(buf.len(), 2048);
    buf.clear();
    assert_eq!(buf.len(), 0);
}

#[test]
fn zvec_slice_reads_in_order() {
    let mut buf = ZVec::new();
    buf.fill_from(&[1, 2, 3, 4, 5]).unwrap();
    let mut s = buf.extract_slice(5).unwrap();
    assert_eq!(s.read_u8().unwrap(), 1);
    assert_eq!(s.read_exact(3).unwrap(), vec![2, 3, 4]);
    assert_eq!(s.read(10).unwrap(), vec![5]);
    assert!(s.read_u8().is_err());
}
