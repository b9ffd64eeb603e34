//! Unicast session core: the four-message INIT-SYN / INIT-ACK / OPEN-SYN /
//! OPEN-ACK exchange that produces the agreed session parameters.

use vstd::prelude::*;
use rand::rngs::SmallRng;
use rand::Rng;
use rand::SeedableRng;
use crate::iobuf::ZVec;
use crate::link::{Link, LinkEvent, LinkIntf};
use crate::protocol::init::{InitSyn, InitView};
use crate::protocol::open::{OpenSyn, OpenView};
use crate::protocol::transport::{spec_encode_msg, spec_parse_msg, MsgView, TransportBody, TransportMessage};
use crate::protocol::whatami::WhatAmI;
use crate::protocol::ZenohID;
use crate::transport::TransportError;
use crate::{Z_BATCH_UNICAST_SIZE, Z_SN_RESOLUTION, Z_TRANSPORT_LEASE};

verus! {

/// A unicast transport: the link and the scratch buffers the handshake
/// serializes through, and the agreed parameters once established.
pub struct Unicast<L> {
    pub intf: Link<L>,
    pub cache: ZVec,
    pub open_cache: ZVec,
    pub params: Option<UnicastParams>,
}

/// What the handshake agrees on.
#[derive(Debug, Clone, Copy)]
pub struct UnicastParams {
    pub zid: ZenohID,
    pub batch_size: u16,
    pub initial_sn_rx: u32,
    pub initial_sn_tx: u32,
    pub lease: u32,
    pub whatami: WhatAmI,
    pub key_id_res: u8,
    pub req_id_res: u8,
    pub seq_num_res: u8,
    pub is_qos: bool,
}

impl Default for UnicastParams {
    fn default() -> (r: UnicastParams)
        ensures
            r.zid@ == Seq::new(16, |i: int| 0u8),
            r.batch_size == 0,
            r.initial_sn_rx == 0,
            r.initial_sn_tx == 0,
            r.lease == Z_TRANSPORT_LEASE,
            r.whatami == WhatAmI::Client,
            r.key_id_res == 0,
            r.req_id_res == 0,
            r.seq_num_res == 0,
            r.is_qos == false,
    {
        let zid = ZenohID::from_le_bytes([0u8; 16]);
        proof {
            assert(zid@ =~= Seq::new(16, |i: int| 0u8));
        }
        UnicastParams {
            zid,
            batch_size: 0,
            initial_sn_rx: 0,
            initial_sn_tx: 0,
            lease: Z_TRANSPORT_LEASE,
            whatami: WhatAmI::Client,
            key_id_res: 0,
            req_id_res: 0,
            seq_num_res: 0,
            is_qos: false,
        }
    }
}

/// The sequence-number modulus window for a two-bit resolution selector.
pub open spec fn spec_sn_modulo_mask(bits: u8) -> u32 {
    if bits == 0 {
        0x7F
    } else if bits == 1 {
        0x3FFF
    } else if bits == 2 {
        0x0FFFFFFF
    } else {
        0xFFFFFFFF
    }
}

pub fn _z_sn_modulo_mask(bits: u8) -> (r: u32)
    requires
        bits <= 3,
    ensures
        r == spec_sn_modulo_mask(bits),
{
    proof {
        assert((u8::MAX >> 1) as u32 == 0x7Fu32) by (bit_vector);
        assert((u16::MAX >> 2) as u32 == 0x3FFFu32) by (bit_vector);
        assert(u32::MAX >> 4 == 0x0FFFFFFFu32) by (bit_vector);
        assert((u64::MAX >> 1) as u32 == 0xFFFFFFFFu32) by (bit_vector);
    }
    if bits == 0 {
        (u8::MAX >> 1) as u32
    } else if bits == 1 {
        (u16::MAX >> 2) as u32
    } else if bits == 2 {
        u32::MAX >> 4
    } else {
        (u64::MAX >> 1) as u32
    }
}

/// What an established session's parameters look like: the negotiated
/// values never exceed what the SYN offered, the expanded resolutions are
/// real widths, and the initial transmit sequence number clears the window.
pub open spec fn params_negotiated(p: UnicastParams) -> bool {
    &&& p.seq_num_res <= Z_SN_RESOLUTION
    &&& p.batch_size <= Z_BATCH_UNICAST_SIZE
    &&& p.key_id_res == 8
    &&& (p.req_id_res == 8 || p.req_id_res == 16 || p.req_id_res == 32)
    &&& p.initial_sn_tx & spec_sn_modulo_mask(p.seq_num_res) == 0
    &&& p.whatami == WhatAmI::Client
    &&& p.is_qos == false
}

/// The INIT-SYN this side proposes: protocol version, identity and the
/// library's default size parameters.
pub open spec fn syn_view(whatami: WhatAmI, zid: ZenohID) -> InitView {
    InitView {
        version: crate::Z_PROTO_VERSION,
        whatami,
        zid: zid@,
        seq_num_res: Z_SN_RESOLUTION,
        req_id_res: crate::Z_REQ_RESOLUTION,
        batch_size: Z_BATCH_UNICAST_SIZE,
        cookie: None,
    }
}

/// The size parameters an INIT-ACK stands for: the default triple (an ACK
/// without size parameters) accepts this side's offer; anything else is the
/// ACK's own values.
pub open spec fn effective_ack(am: InitView) -> (u8, u8, u16) {
    if am.seq_num_res == crate::protocol::transport::Z_DEFAULT_RESOLUTION_SIZE && am.req_id_res
        == crate::protocol::transport::Z_DEFAULT_RESOLUTION_SIZE && am.batch_size
        == crate::protocol::transport::Z_DEFAULT_MULTICAST_BATCH_SIZE {
        (Z_SN_RESOLUTION, crate::Z_REQ_RESOLUTION, Z_BATCH_UNICAST_SIZE)
    } else {
        (am.seq_num_res, am.req_id_res, am.batch_size)
    }
}

/// The ACK stays within this side's offer.
pub open spec fn ack_within_offer(am: InitView) -> bool {
    &&& effective_ack(am).0 <= Z_SN_RESOLUTION
    &&& effective_ack(am).1 <= crate::Z_REQ_RESOLUTION
    &&& effective_ack(am).2 <= Z_BATCH_UNICAST_SIZE
}

/// The negotiation rule of the INIT exchange: every parameter in the ACK
/// must stay within what the SYN proposed; then the ACK's values stand.
/// A peer that proposes more is refused with `OpenSnResolution`.
pub fn negotiate(
    syn_seq: u8,
    syn_req: u8,
    syn_batch: u16,
    ack_seq: u8,
    ack_req: u8,
    ack_batch: u16,
) -> (r: Result<(u8, u8, u16), TransportError>)
    ensures
        r is Ok <==> (ack_seq <= syn_seq && ack_req <= syn_req && ack_batch <= syn_batch),
        r matches Ok(t) ==> t.0 == ack_seq && t.1 == ack_req && t.2 == ack_batch,
        r matches Err(e) ==> e == TransportError::OpenSnResolution,
{
    if ack_seq > syn_seq {
        return Err(TransportError::OpenSnResolution);
    }
    if ack_req > syn_req {
        return Err(TransportError::OpenSnResolution);
    }
    if ack_batch > syn_batch {
        return Err(TransportError::OpenSnResolution);
    }
    Ok((ack_seq, ack_req, ack_batch))
}

/// Relies on rand's `SmallRng`: a small seedable PRNG. Nothing is promised
/// of the drawn value; every caller masks it itself.
#[verifier::external_body]
fn draw_initial_sn(seed: u64) -> u32 {
    SmallRng::seed_from_u64(seed).random()
}

/// Masks a drawn value so the initial transmit sequence number fits the
/// negotiated window: whatever was drawn, the window bits come out clear.
pub fn initial_sn_tx(drawn: u32, seq_num_res: u8) -> (r: u32)
    requires
        seq_num_res <= 3,
    ensures
        r == drawn & !spec_sn_modulo_mask(seq_num_res),
        r & spec_sn_modulo_mask(seq_num_res) == 0,
{
    let m = _z_sn_modulo_mask(seq_num_res);
    let r = drawn & !m;
    proof {
        assert((drawn & !m) & m == 0) by (bit_vector);
    }
    r
}

/// Applies the negotiated values to the parameter record: the sequence
/// selector is kept, the key and request selectors expand to widths, the
/// peer's identity is adopted, and the drawn value is masked to the agreed
/// window.
pub fn settle_negotiation(
    params: UnicastParams,
    nseq: u8,
    nreq: u8,
    nbatch: u16,
    zid: ZenohID,
    drawn: u32,
) -> (r: UnicastParams)
    requires
        nseq <= 3,
        nreq <= 3,
        params.key_id_res <= 3,
    ensures
        r.seq_num_res == nseq,
        r.req_id_res == (8u8 << nreq),
        r.key_id_res == (8u8 << params.key_id_res),
        r.batch_size == nbatch,
        r.zid == zid,
        r.initial_sn_tx == drawn & !spec_sn_modulo_mask(nseq),
        r.initial_sn_tx & spec_sn_modulo_mask(nseq) == 0,
        r.lease == params.lease,
        r.initial_sn_rx == params.initial_sn_rx,
        r.whatami == params.whatami,
        r.is_qos == params.is_qos,
{
    let mut r = params;
    r.seq_num_res = nseq;
    r.req_id_res = 8u8 << nreq;
    r.key_id_res = 8u8 << params.key_id_res;
    r.batch_size = nbatch;
    r.zid = zid;
    r.initial_sn_tx = initial_sn_tx(drawn, nseq);
    r
}

/// Applies the OPEN-ACK: its lease overrides the local choice and its
/// initial sequence number becomes the receive-side start.
pub fn settle_open_ack(params: UnicastParams, lease: u32, initial_sn: u32) -> (r: UnicastParams)
    ensures
        r.lease == lease,
        r.initial_sn_rx == initial_sn,
        r.seq_num_res == params.seq_num_res,
        r.req_id_res == params.req_id_res,
        r.key_id_res == params.key_id_res,
        r.batch_size == params.batch_size,
        r.zid == params.zid,
        r.initial_sn_tx == params.initial_sn_tx,
        r.whatami == params.whatami,
        r.is_qos == params.is_qos,
{
    let mut r = params;
    r.lease = lease;
    r.initial_sn_rx = initial_sn;
    r
}

impl<L: LinkIntf> Unicast<L> {
    pub fn new(intf: Link<L>) -> (r: Unicast<L>)
        ensures
            r.intf == intf,
            r.params is None,
            r.cache@ == Seq::<u8>::empty(),
            r.open_cache@ == Seq::<u8>::empty(),
    {
        Unicast { intf, cache: ZVec::new(), open_cache: ZVec::new(), params: None }
    }

    /// Runs the client half of the session handshake over the link, a
    /// strictly sequential four-message exchange: INIT-SYN out, INIT-ACK in,
    /// negotiation, OPEN-SYN out with the echoed cookie, OPEN-ACK in. The
    /// link's exchange log pins what was sent and received, in order; a
    /// reply of the wrong kind aborts with `UnexpectMsg` and nothing more is
    /// sent.
    #[verifier::rlimit(100)]
    pub fn handshake(&mut self, whatami: WhatAmI, zid: ZenohID) -> (r: Result<
        UnicastParams,
        TransportError,
    >)
        requires
            old(self).intf.cap.flow_sel() == 0,
            old(self).cache@ == Seq::<u8>::empty(),
            old(self).open_cache@ == Seq::<u8>::empty(),
        ensures
            final(self).intf.cap == old(self).intf.cap,
            final(self).intf.mtu == old(self).intf.mtu,
            final(self).params == old(self).params,
            final(self).intf.log@.take(old(self).intf.log@.len() as int) == old(self).intf.log@,
            final(self).intf.log@.len() <= old(self).intf.log@.len() + 4,
            r matches Ok(p) ==> params_negotiated(p),
            r matches Ok(p) ==> ({
                let l0 = old(self).intf.log@;
                let l1 = final(self).intf.log@;
                &&& l1.len() == l0.len() + 4
                &&& l1[l0.len() as int] == LinkEvent::Sent(
                    spec_encode_msg(MsgView::InitSyn(syn_view(whatami, zid))),
                )
                &&& (l1[l0.len() as int + 1] matches LinkEvent::Recvd(b1) && (spec_parse_msg(b1)
                    matches Ok(pr1) && (pr1.0 matches MsgView::InitAck(am) && ({
                    let t = effective_ack(am);
                    &&& ack_within_offer(am)
                    &&& p.seq_num_res == t.0
                    &&& p.req_id_res == (8u8 << t.1)
                    &&& p.key_id_res == 8
                    &&& p.batch_size == t.2
                    &&& p.zid@ == am.zid
                    &&& (am.cookie matches Some(c) && l1[l0.len() as int + 2] == LinkEvent::Sent(
                        spec_encode_msg(
                            MsgView::OpenSyn(
                                OpenView {
                                    lease: Z_TRANSPORT_LEASE,
                                    initial_sn: p.initial_sn_tx,
                                    cookie: Some(c),
                                },
                            ),
                        ),
                    ))
                }))))
                &&& (l1[l0.len() as int + 3] matches LinkEvent::Recvd(b2) && (spec_parse_msg(b2)
                    matches Ok(pr2) && (pr2.0 matches MsgView::OpenAck(om) && p.lease == om.lease
                    && p.initial_sn_rx == om.initial_sn)))
            }),
            ({
                let l0 = old(self).intf.log@;
                let l1 = final(self).intf.log@;
                l1.len() > l0.len() + 1 && (l1[l0.len() as int + 1] matches LinkEvent::Recvd(b)
                    && (spec_parse_msg(b) matches Ok(pr) && !(pr.0 is InitAck)))
            }) ==> (r == Err::<UnicastParams, TransportError>(TransportError::UnexpectMsg)
                && final(self).intf.log@.len() == old(self).intf.log@.len() + 2),
            ({
                let l0 = old(self).intf.log@;
                let l1 = final(self).intf.log@;
                l1.len() == l0.len() + 4 && (l1[l0.len() as int + 3] matches LinkEvent::Recvd(b)
                    && (spec_parse_msg(b) matches Ok(pr) && !(pr.0 is OpenAck)))
            }) ==> r == Err::<UnicastParams, TransportError>(TransportError::UnexpectMsg),
    {
        let ghost l0 = self.intf.log@;
        proof {
            assert(l0.take(l0.len() as int) =~= l0);
        }
        let ism = InitSyn::new(whatami, zid);
        let mut params = UnicastParams::default();
        let (syn_seq, syn_req, syn_batch): (u8, u8, u16) = match ism.body {
            TransportBody::InitSyn(ref b) => (b.seq_num_res, b.req_id_res, b.batch_size),
            _ => {
                proof {
                    assert(false);
                }
                return Err(TransportError::UnexpectMsg);
            },
        };
        match ism.encode(&mut self.cache) {
            Ok(()) => {},
            Err(e) => {
                return Err(e);
            },
        }
        let ghost b_syn = self.cache@;
        proof {
            assert(b_syn =~= spec_encode_msg(MsgView::InitSyn(syn_view(whatami, zid))));
        }
        match self.intf.send_msg(self.cache.as_slice()) {
            Ok(()) => {},
            Err(e) => {
                return Err(e);
            },
        }
        let ghost l1a = self.intf.log@;
        proof {
            assert(l1a =~= l0.push(LinkEvent::Sent(b_syn)));
            assert(l1a.take(l0.len() as int) =~= l0);
        }
        self.cache.clear();
        let n = match self.intf.recv_msg(&mut self.cache) {
            Ok(n) => n,
            Err(e) => {
                return Err(e);
            },
        };
        let ghost b1 = self.cache@;
        let ghost l2 = self.intf.log@;
        proof {
            assert(l2 =~= l1a.push(LinkEvent::Recvd(b1)));
            assert(l2.take(l0.len() as int) =~= l0);
            assert(l2[l0.len() as int + 1] == LinkEvent::Recvd(b1));
        }
        let mut s = match self.cache.extract_slice(n) {
            Ok(s) => s,
            Err(_) => {
                proof {
                    assert(false);
                }
                return Err(TransportError::UnexpectMsg);
            },
        };
        proof {
            assert(b1.take(n as int) =~= b1);
        }
        let iam = match TransportMessage::decode(&mut s) {
            Ok(m) => m,
            Err(e) => {
                return Err(e);
            },
        };
        self.cache.clear();
        let ack = match iam.body {
            TransportBody::InitAck(b) => b,
            _ => {
                return Err(TransportError::UnexpectMsg);
            },
        };
        let ghost am = ack@;
        // An ACK without size parameters decodes to the default triple and
        // accepts what the SYN offered. Otherwise any parameter above the
        // offer makes the ACK invalid and the peer is abandoned.
        let defaults = ack.seq_num_res == crate::protocol::transport::Z_DEFAULT_RESOLUTION_SIZE
            && ack.req_id_res == crate::protocol::transport::Z_DEFAULT_RESOLUTION_SIZE
            && ack.batch_size == crate::protocol::transport::Z_DEFAULT_MULTICAST_BATCH_SIZE;
        let (ack_seq, ack_req, ack_batch): (u8, u8, u16) = if defaults {
            (syn_seq, syn_req, syn_batch)
        } else {
            (ack.seq_num_res, ack.req_id_res, ack.batch_size)
        };
        proof {
            assert((ack_seq, ack_req, ack_batch) == effective_ack(am));
        }
        let (nseq, nreq, nbatch) = match negotiate(
            syn_seq,
            syn_req,
            syn_batch,
            ack_seq,
            ack_req,
            ack_batch,
        ) {
            Ok(t) => t,
            Err(e) => {
                return Err(e);
            },
        };
        let drawn = draw_initial_sn(0);
        proof {
            assert(8u8 << 0u8 == 8) by (bit_vector);
            assert(nreq <= 2 ==> (8u8 << nreq == 8 || 8u8 << nreq == 16 || 8u8 << nreq == 32))
                by (bit_vector);
        }
        params = settle_negotiation(params, nseq, nreq, nbatch, ack.zid, drawn);
        let cookie = match ack.cookie {
            Some(c) => c,
            None => {
                return Err(TransportError::UnexpectMsg);
            },
        };
        let osm = TransportMessage {
            body: TransportBody::OpenSyn(
                OpenSyn::new(Z_TRANSPORT_LEASE, params.initial_sn_tx, Some(cookie.bytes)),
            ),
        };
        match osm.encode(&mut self.open_cache) {
            Ok(()) => {},
            Err(e) => {
                return Err(e);
            },
        }
        let ghost b_osyn = self.open_cache@;
        proof {
            assert(b_osyn =~= spec_encode_msg(
                MsgView::OpenSyn(
                    OpenView {
                        lease: Z_TRANSPORT_LEASE,
                        initial_sn: params.initial_sn_tx,
                        cookie: Some(am.cookie.unwrap()),
                    },
                ),
            ));
        }
        match self.intf.send_msg(self.open_cache.as_slice()) {
            Ok(()) => {},
            Err(e) => {
                return Err(e);
            },
        }
        let ghost l3 = self.intf.log@;
        proof {
            assert(l3 =~= l2.push(LinkEvent::Sent(b_osyn)));
            assert(l3.take(l0.len() as int) =~= l0);
            assert(l3[l0.len() as int + 1] == LinkEvent::Recvd(b1));
        }
        self.open_cache.clear();
        let n2 = match self.intf.recv_msg(&mut self.open_cache) {
            Ok(n) => n,
            Err(e) => {
                return Err(e);
            },
        };
        let ghost b2 = self.open_cache@;
        let ghost l4 = self.intf.log@;
        proof {
            assert(l4 =~= l3.push(LinkEvent::Recvd(b2)));
            assert(l4.take(l0.len() as int) =~= l0);
            assert(l4[l0.len() as int] == LinkEvent::Sent(b_syn));
            assert(l4[l0.len() as int + 1] == LinkEvent::Recvd(b1));
            assert(l4[l0.len() as int + 2] == LinkEvent::Sent(b_osyn));
            assert(l4[l0.len() as int + 3] == LinkEvent::Recvd(b2));
        }
        let mut s2 = match self.open_cache.extract_slice(n2) {
            Ok(s) => s,
            Err(_) => {
                proof {
                    assert(false);
                }
                return Err(TransportError::UnexpectMsg);
            },
        };
        proof {
            assert(b2.take(n2 as int) =~= b2);
        }
        let oam = match TransportMessage::decode(&mut s2) {
            Ok(m) => m,
            Err(e) => {
                return Err(e);
            },
        };
        self.open_cache.clear();
        let oack = match oam.body {
            TransportBody::OpenAck(b) => b,
            _ => {
                return Err(TransportError::UnexpectMsg);
            },
        };
        params = settle_open_ack(params, oack.lease, oack.initial_sn);
        Ok(params)
    }

    /// Records the agreed parameters on the transport.
    pub fn update(&mut self, params: &UnicastParams) -> (r: Result<(), TransportError>)
        ensures
            r is Ok,
            final(self).params == Some(*params),
            final(self).intf == old(self).intf,
    {
        self.params = Some(*params);
        Ok(())
    }
}

} // verus!
