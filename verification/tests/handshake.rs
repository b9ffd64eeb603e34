use zserial::iobuf::ZVec;
use zserial::link::serial::{encode_frame, BufRx, BufTx, RecordingDelay, SerialIntf};
use zserial::link::{Link, LinkCapabilities, LinkError, LinkIntf, TransportCap, TransportFlow};
use zserial::protocol::init::{Cookie, InitSyn};
use zserial::protocol::open::OpenSyn;
use zserial::protocol::transport::{TransportBody, TransportMessage};
use zserial::protocol::whatami::WhatAmI;
use zserial::protocol::ZenohID;
use zserial::transport::unicast::{initial_sn_tx, negotiate, Unicast, _z_sn_modulo_mask};
use zserial::transport::TransportError;
use zserial::{Config, SessionError};

fn zid_from_u128(v: u128) -> ZenohID {
    ZenohID::from_le_bytes(v.to_le_bytes())
}

fn encode_msg(msg: &TransportMessage) -> Vec<u8> {
    let mut buf = ZVec::new();
    msg.encode(&mut buf).unwrap();
    buf.as_slice().to_vec()
}

#[test]
fn capability_byte_accessors() {
    let cap = LinkCapabilities::new(TransportCap::Unicast, TransportFlow::DATAGRAM, false);
    assert_eq!(cap.transport(), TransportCap::Unicast);
    assert_eq!(cap.flow(), TransportFlow::DATAGRAM);
    assert!(!cap.reliable());
    let mut cap = LinkCapabilities::new(TransportCap::Raweth, TransportFlow::STREAM, true);
    assert_eq!(cap.transport(), TransportCap::Raweth);
    assert_eq!(cap.flow(), TransportFlow::STREAM);
    assert!(cap.reliable());
    cap.set_reliable(false);
    assert!(!cap.reliable());
    assert_eq!(cap.transport(), TransportCap::Raweth);
    cap.set_transport(TransportCap::Multicast);
    assert_eq!(cap.transport(), TransportCap::Multicast);
    cap.set_flow(TransportFlow::DATAGRAM);
    assert_eq!(cap.flow(), TransportFlow::DATAGRAM);
}

#[test]
fn sn_modulo_mask_values() {
    assert_eq!(_z_sn_modulo_mask(0), 0x7F);
    assert_eq!(_z_sn_modulo_mask(1), 0x3FFF);
    assert_eq!(_z_sn_modulo_mask(2), 0x0FFFFFFF);
    assert_eq!(_z_sn_modulo_mask(3), 0xFFFFFFFF);
}

#[test]
fn initial_sn_clears_the_window() {
    for &r in &[0u8, 1, 2, 3] {
        for &v in &[0u32, 1, 0x7F, 0x3FFF, 0xDEADBEEF, u32::MAX] {
            assert_eq!(initial_sn_tx(v, r) & _z_sn_modulo_mask(r), 0);
        }
    }
}

#[test]
fn negotiation_accepts_downgrade() {
    let r = negotiate(2, 2, 2048, 1, 2, 2048).unwrap();
    assert_eq!(r, (1, 2, 2048));
}

#[test]
fn negotiation_rejects_upgrade() {
    assert!(matches!(
        negotiate(1, 1, 1024, 2, 1, 1024),
        Err(TransportError::OpenSnResolution)
    ));
    assert!(matches!(
        negotiate(2, 2, 2048, 2, 2, 4096),
        Err(TransportError::OpenSnResolution)
    ));
}

/// A link that replays scripted frames and records what was sent.
struct MockLink {
    responses: Vec<Vec<u8>>,
    sent: Vec<Vec<u8>>,
}

impl LinkIntf for MockLink {
    fn open(&mut self) -> Result<(), LinkError> {
        Ok(())
    }

    fn send(&mut self, msg: &[u8]) -> Result<(), LinkError> {
        self.sent.push(msg.to_vec());
        Ok(())
    }

    fn recv(&mut self, buf: &mut ZVec) -> Result<usize, LinkError> {
        if self.responses.is_empty() {
            return Err(LinkError::IoError);
        }
        let bytes = self.responses.remove(0);
        buf.fill_from(&bytes).map_err(|_| LinkError::IoError)?;
        Ok(bytes.len())
    }
}

fn mock_unicast(responses: Vec<Vec<u8>>) -> Unicast<MockLink> {
    Unicast::new(Link::new(
        MockLink { responses, sent: Vec::new() },
        1500,
        LinkCapabilities::new(TransportCap::Unicast, TransportFlow::DATAGRAM, false),
    ))
}

#[test]
fn handshake_echoes_the_cookie() {
    // INIT-ACK: version 9, client, one-byte identifier 0x49, no size
    // parameters, a four-byte cookie
    let init_ack = vec![0x21u8, 0x09, 0x02, 0x49, 0x04, 0xCA, 0xFE, 0xF0, 0x0D];
    let open_ack = encode_msg(&TransportMessage {
        body: TransportBody::OpenAck(OpenSyn::new(7000, 42, None)),
    });
    let mut u = mock_unicast(vec![init_ack, open_ack]);
    let params = u.handshake(WhatAmI::Client, zid_from_u128(0xCAFE)).unwrap();
    assert_eq!(u.intf.intf.sent.len(), 2);
    let open_syn = &u.intf.intf.sent[1];
    // lease 10000 ms rides as 10 whole seconds
    assert_eq!(open_syn[0], 0x42);
    assert_eq!(open_syn[1], 10);
    // the echoed cookie ends the message: its varint length, then its bytes
    assert_eq!(&open_syn[open_syn.len() - 5..], &[0x04, 0xCA, 0xFE, 0xF0, 0x0D]);
    // an ACK without size parameters accepts what the SYN offered
    assert_eq!(params.batch_size, 2048);
    assert_eq!(params.seq_num_res, 2);
    assert_eq!(params.req_id_res, 32);
    assert_eq!(params.key_id_res, 8);
    assert_eq!(params.lease, 7000);
    assert_eq!(params.initial_sn_rx, 42);
    assert_eq!(params.zid.to_le_bytes(), 0x49u128.to_le_bytes());
}

#[test]
fn handshake_accepts_resolution_downgrade() {
    let ack = InitSyn {
        version: 0x09,
        whatami: WhatAmI::Router,
        zid: zid_from_u128(0x77),
        seq_num_res: 1,
        req_id_res: 1,
        batch_size: 1024,
        cookie: Some(Cookie::from_slice(&[1, 2, 3]).unwrap()),
    };
    let init_ack = encode_msg(&TransportMessage { body: TransportBody::InitAck(ack) });
    let open_ack = encode_msg(&TransportMessage {
        body: TransportBody::OpenAck(OpenSyn::new(9500, 5, None)),
    });
    let mut u = mock_unicast(vec![init_ack, open_ack]);
    let params = u.handshake(WhatAmI::Client, zid_from_u128(1)).unwrap();
    assert_eq!(params.seq_num_res, 1);
    assert_eq!(params.req_id_res, 16);
    assert_eq!(params.batch_size, 1024);
    // the initial transmit sequence number fits the downgraded window
    assert_eq!(params.initial_sn_tx & _z_sn_modulo_mask(1), 0);
    assert_eq!(params.lease, 9500);
    assert_eq!(params.initial_sn_rx, 5);
}

#[test]
fn handshake_rejects_resolution_upgrade() {
    let ack = InitSyn {
        version: 0x09,
        whatami: WhatAmI::Router,
        zid: zid_from_u128(0x77),
        seq_num_res: 3,
        req_id_res: 2,
        batch_size: 2048,
        cookie: Some(Cookie::from_slice(&[1]).unwrap()),
    };
    let init_ack = encode_msg(&TransportMessage { body: TransportBody::InitAck(ack) });
    let mut u = mock_unicast(vec![init_ack]);
    let r = u.handshake(WhatAmI::Client, zid_from_u128(1));
    assert!(matches!(r, Err(TransportError::OpenSnResolution)));
}

#[test]
fn handshake_rejects_wrong_kind() {
    // an OPEN-ACK where an INIT-ACK belongs
    let open_ack = encode_msg(&TransportMessage {
        body: TransportBody::OpenAck(OpenSyn::new(7000, 42, None)),
    });
    let mut u = mock_unicast(vec![open_ack]);
    let r = u.handshake(WhatAmI::Client, zid_from_u128(1));
    assert!(matches!(r, Err(TransportError::UnexpectMsg)));
}

fn serial_with(stream: Vec<u8>) -> SerialIntf<BufRx, BufTx, RecordingDelay> {
    SerialIntf::new(BufRx::new(stream), BufTx::new(), RecordingDelay::new())
}

#[test]
fn serial_send_and_recv() {
    let wire = encode_frame(0x00, &[10, 20, 30]).unwrap();
    let mut intf = serial_with(wire);
    let mut buf = ZVec::new();
    let n = intf.recv(&mut buf).unwrap();
    assert_eq!(n, 3);
    assert_eq!(buf.as_slice(), &[10, 20, 30]);
    intf.send(&[5, 6]).unwrap();
    let expected = encode_frame(0x00, &[5, 6]).unwrap();
    assert_eq!(intf.tx.data, expected);
}

#[test]
fn serial_connect_handles_reset_then_ack() {
    let mut stream = encode_frame(0x04, &[]).unwrap();
    stream.extend(encode_frame(0x03, &[]).unwrap());
    let mut intf = serial_with(stream);
    intf.connect().unwrap();
    // the RESET throttled once for the documented interval
    assert_eq!(intf.delay.calls, vec![250]);
    // two INIT probes went out
    let probe = encode_frame(0x01, &[]).unwrap();
    let mut expected = probe.clone();
    expected.extend(probe);
    assert_eq!(intf.tx.data, expected);
}

#[test]
fn serial_connect_refuses_foreign_header() {
    let stream = encode_frame(0x08, &[]).unwrap();
    let mut intf = serial_with(stream);
    assert!(matches!(intf.connect(), Err(LinkError::IoError)));
}

#[test]
fn full_session_open_over_mock_serial() {
    let init_ack = vec![0x21u8, 0x09, 0x02, 0x49, 0x04, 0xCA, 0xFE, 0xF0, 0x0D];
    let open_ack = encode_msg(&TransportMessage {
        body: TransportBody::OpenAck(OpenSyn::new(8000, 99, None)),
    });
    let mut stream = encode_frame(0x03, &[]).unwrap();
    stream.extend(encode_frame(0x00, &init_ack).unwrap());
    stream.extend(encode_frame(0x00, &open_ack).unwrap());
    let intf = serial_with(stream);
    let cfg = Config::new(zid_from_u128(0xABCD), WhatAmI::Client);
    let session = zserial::open(intf, &cfg).unwrap();
    assert_eq!(session.params.lease, 8000);
    assert_eq!(session.params.initial_sn_rx, 99);
    assert_eq!(session.params.batch_size, 2048);
    assert_eq!(session.params.zid.to_le_bytes(), 0x49u128.to_le_bytes());
}

#[test]
fn open_surfaces_transport_errors() {
    // the connect reply never comes: the stream is empty
    let intf = serial_with(Vec::new());
    let cfg = Config::new(zid_from_u128(1), WhatAmI::Client);
    match zserial::open(intf, &cfg) {
        Err(SessionError::TransportError(TransportError::LinkError(LinkError::IoError))) => {},
        _ => panic!("expected the connect failure to surface"),
    }
}
