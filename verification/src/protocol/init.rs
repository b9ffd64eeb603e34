//! INIT message (wire ID 0x01): opens the negotiation of a session.
//!
//! ```text
//!  7 6 5 4 3 2 1 0
//! +-+-+-+-+-+-+-+-+
//! |Z|S|A|   INIT  |
//! +-+-+-+---------+
//! |    version    |
//! +---------------+
//! |zid_len|x|x|wai|
//! +-------+-+-+---+
//! ~      [u8]     ~  1 + zid_len identifier bytes
//! +---------------+
//! |x|x|kid|rid|fsn| \
//! +---------------+  | when S == 1
//! |  batch (u16)  | /
//! +---------------+
//! ~    cookie     ~  varint length, then bytes; only when A == 1
//! +---------------+
//! ```

use vstd::prelude::*;
use crate::iobuf::{DidntRead, DidntWrite, Reader, Writer, ZVec};
use crate::link::serial::{le16_bytes, le16_val, lemma_le16_round};
use crate::protocol::whatami::{whatami_bits, WhatAmI};
use crate::protocol::{
    lemma_trailing_zero_bytes,
    lemma_varint_parse_len,
    lemma_varint_round_trip,
    lemma_varint_len_le10,
    spec_varint,
    spec_varint_parse,
    zid_from_wire,
    zid_wire_len,
    Varint,
    ZenohID,
};
use crate::transport::TransportError;
use crate::Z_MAX_MTU;

verus! {

pub const Z_MID_T_INIT: u8 = 0x01;

/// Largest cookie a pool slot can hold.
pub const COOKIE_MAX: usize = 1024;

/// An opaque byte string issued by the peer in INIT-ACK and echoed in
/// OPEN-SYN. At most 1024 bytes, the size of its pool slot.
pub struct Cookie {
    pub bytes: Vec<u8>,
}

impl View for Cookie {
    type V = Seq<u8>;

    open spec fn view(&self) -> Seq<u8> {
        self.bytes@
    }
}

impl Cookie {
    pub open spec fn wf(&self) -> bool {
        self.bytes@.len() <= COOKIE_MAX
    }

    pub fn as_slice(&self) -> (r: &[u8])
        ensures
            r@ == self@,
    {
        self.bytes.as_slice()
    }

    /// Copies a received cookie into an owned slot, refusing one that
    /// exceeds the slot size.
    pub fn from_slice(slice: &[u8]) -> (r: Result<Cookie, DidntRead>)
        ensures
            slice@.len() <= COOKIE_MAX ==> (r matches Ok(c) && c@ == slice@ && c.wf()),
            slice@.len() > COOKIE_MAX ==> r is Err,
    {
        if slice.len() > COOKIE_MAX {
            return Err(DidntRead);
        }
        Ok(Cookie { bytes: vstd::slice::slice_to_vec(slice) })
    }
}

/// INIT-SYN / INIT-ACK payload.
pub struct InitSyn {
    pub version: u8,
    pub whatami: WhatAmI,
    pub zid: ZenohID,
    pub seq_num_res: u8,
    pub req_id_res: u8,
    pub batch_size: u16,
    pub cookie: Option<Cookie>,
}

/// The mathematical image of an INIT message.
pub struct InitView {
    pub version: u8,
    pub whatami: WhatAmI,
    pub zid: Seq<u8>,
    pub seq_num_res: u8,
    pub req_id_res: u8,
    pub batch_size: u16,
    pub cookie: Option<Seq<u8>>,
}

impl View for InitSyn {
    type V = InitView;

    open spec fn view(&self) -> InitView {
        InitView {
            version: self.version,
            whatami: self.whatami,
            zid: self.zid@,
            seq_num_res: self.seq_num_res,
            req_id_res: self.req_id_res,
            batch_size: self.batch_size,
            cookie: match self.cookie {
                Some(ref c) => Some(c@),
                None => None,
            },
        }
    }
}

/// Size parameters ride only when they differ from the defaults.
pub open spec fn init_s_flag(m: InitView) -> bool {
    m.batch_size != super::transport::Z_DEFAULT_MULTICAST_BATCH_SIZE || m.seq_num_res
        != super::transport::Z_DEFAULT_RESOLUTION_SIZE || m.req_id_res
        != super::transport::Z_DEFAULT_RESOLUTION_SIZE
}

pub open spec fn init_header(m: InitView, ack: bool) -> u8 {
    (Z_MID_T_INIT + (if init_s_flag(m) {
        0x40u8
    } else {
        0u8
    }) + (if ack {
        0x20u8
    } else {
        0u8
    })) as u8
}

/// The bytes after the header byte.
pub open spec fn init_body(m: InitView, ack: bool) -> Seq<u8> {
    let zl = zid_wire_len(m.zid);
    seq![m.version] + seq![(((zl - 1) * 16) + whatami_bits(m.whatami)) as u8] + m.zid.take(zl) + (
    if init_s_flag(m) {
        seq![((m.seq_num_res % 4) + (m.req_id_res % 4) * 4) as u8] + le16_bytes(
            m.batch_size as int,
        )
    } else {
        Seq::<u8>::empty()
    }) + (if ack {
        match m.cookie {
            Some(c) => spec_varint(c.len()) + c,
            None => Seq::<u8>::empty(),
        }
    } else {
        Seq::<u8>::empty()
    })
}

/// An encodable INIT: a full identifier, two-bit selectors, and a cookie
/// exactly on the ACK.
pub open spec fn init_valid(m: InitView, ack: bool) -> bool {
    &&& m.version == crate::Z_PROTO_VERSION
    &&& m.zid.len() == 16
    &&& m.seq_num_res <= 3
    &&& m.req_id_res <= 3
    &&& (ack ==> (m.cookie matches Some(c) && c.len() <= COOKIE_MAX))
    &&& (!ack ==> m.cookie is None)
}

/// Parses an INIT body (after the header byte): the message and how many
/// bytes it took, or the exact error.
pub open spec fn spec_parse_init(s: Seq<u8>, header: u8) -> Result<(InitView, int), TransportError> {
    let s_flag = (header / 0x40) % 2 == 1;
    let a_flag = (header / 0x20) % 2 == 1;
    if header / 0x80 == 1 {
        // the extension flag is recognized but refused
        Err(TransportError::UnexpectMsg)
    } else if s.len() < 2 {
        Err(TransportError::DecodeError(DidntRead))
    } else {
        let version = s[0];
        let cb = s[1];
        if version != crate::Z_PROTO_VERSION {
            Err(TransportError::LinkError(crate::link::LinkError::InvalidParameter))
        } else if cb % 4 == 3 {
            Err(TransportError::LinkError(crate::link::LinkError::InvalidParameter))
        } else {
            let wai = if cb % 4 == 0 {
                WhatAmI::Router
            } else if cb % 4 == 1 {
                WhatAmI::Peer
            } else {
                WhatAmI::Client
            };
            let zl = cb as int / 16 + 1;
            if s.len() < 2 + zl {
                Err(TransportError::DecodeError(DidntRead))
            } else {
                let zid = s.subrange(2, 2 + zl) + Seq::new((16 - zl) as nat, |i: int| 0u8);
                let p0 = 2 + zl;
                if s_flag && s.len() < p0 + 3 {
                    Err(TransportError::DecodeError(DidntRead))
                } else {
                    let seq_num_res: u8 = if s_flag {
                        (s[p0] % 4) as u8
                    } else {
                        super::transport::Z_DEFAULT_RESOLUTION_SIZE
                    };
                    let req_id_res: u8 = if s_flag {
                        ((s[p0] / 4) % 4) as u8
                    } else {
                        super::transport::Z_DEFAULT_RESOLUTION_SIZE
                    };
                    let batch_size: u16 = if s_flag {
                        le16_val(s[p0 + 1], s[p0 + 2]) as u16
                    } else {
                        super::transport::Z_DEFAULT_MULTICAST_BATCH_SIZE
                    };
                    let p1 = if s_flag {
                        p0 + 3
                    } else {
                        p0
                    };
                    if a_flag {
                        match spec_varint_parse(s.skip(p1)) {
                            Option::None => Err(TransportError::DecodeError(DidntRead)),
                            Option::Some(pr) => {
                                if pr.1 > 10 || pr.0 > 0xFFFFFFFFFFFFFFFF {
                                    Err(TransportError::DecodeError(DidntRead))
                                } else if pr.0 > s.len() - p1 - pr.1 || pr.0 > usize::MAX {
                                    Err(TransportError::DecodeError(DidntRead))
                                } else if pr.0 > COOKIE_MAX {
                                    Err(TransportError::MoreCookieAllocated)
                                } else {
                                    Ok(
                                        (
                                            InitView {
                                                version,
                                                whatami: wai,
                                                zid,
                                                seq_num_res,
                                                req_id_res,
                                                batch_size,
                                                cookie: Some(
                                                    s.subrange(p1 + pr.1, p1 + pr.1 + pr.0),
                                                ),
                                            },
                                            p1 + pr.1 + pr.0,
                                        ),
                                    )
                                }
                            },
                        }
                    } else {
                        Ok(
                            (
                                InitView {
                                    version,
                                    whatami: wai,
                                    zid,
                                    seq_num_res,
                                    req_id_res,
                                    batch_size,
                                    cookie: None,
                                },
                                p1,
                            ),
                        )
                    }
                }
            }
        }
    }
}

/// A successful parse consumes between zero and all of the bytes.
pub proof fn lemma_parse_init_len(s: Seq<u8>, header: u8)
    ensures
        spec_parse_init(s, header) matches Ok(pr) ==> 0 <= pr.1 <= s.len(),
{
    if s.len() >= 2 {
        let cb = s[1];
        let zl = cb as int / 16 + 1;
        if s.len() >= 2 + zl {
            let p0 = 2 + zl;
            let s_flag = (header / 0x40) % 2 == 1;
            let p1 = if s_flag {
                p0 + 3
            } else {
                p0
            };
            if 0 <= p1 <= s.len() {
                lemma_varint_parse_len(s.skip(p1));
            }
        }
    }
}

impl InitSyn {
    /// A fresh INIT-SYN carrying this node's identity and the library's
    /// defaults.
    pub fn new(whatami: WhatAmI, zid: ZenohID) -> (r: super::transport::TransportMessage)
        ensures
            r@ == super::transport::MsgView::InitSyn(
                InitView {
                    version: crate::Z_PROTO_VERSION,
                    whatami,
                    zid: zid@,
                    seq_num_res: crate::Z_SN_RESOLUTION,
                    req_id_res: crate::Z_REQ_RESOLUTION,
                    batch_size: crate::Z_BATCH_UNICAST_SIZE,
                    cookie: None,
                },
            ),
    {
        super::transport::TransportMessage {
            body: super::transport::TransportBody::InitSyn(
                InitSyn {
                    version: crate::Z_PROTO_VERSION,
                    whatami,
                    zid,
                    seq_num_res: crate::Z_SN_RESOLUTION,
                    req_id_res: crate::Z_REQ_RESOLUTION,
                    batch_size: crate::Z_BATCH_UNICAST_SIZE,
                    cookie: None,
                },
            ),
        }
    }

    /// The SYN header byte: the message ID with the S flag when any size
    /// parameter differs from its default.
    pub fn header(&self) -> (r: u8)
        ensures
            r == init_header(self@, false),
    {
        let mut header = Z_MID_T_INIT;
        if self.batch_size != super::transport::Z_DEFAULT_MULTICAST_BATCH_SIZE || self.seq_num_res
            != super::transport::Z_DEFAULT_RESOLUTION_SIZE || self.req_id_res
            != super::transport::Z_DEFAULT_RESOLUTION_SIZE {
            header = header + 0x40;
        }
        header
    }

    /// Writes the header byte and body, whole or not at all.
    #[verifier::rlimit(100)]
    pub fn encode<W: Writer>(&self, writer: &mut W, ack: bool) -> (r: Result<(), TransportError>)
        ensures
            r is Ok ==> final(writer).written() == old(writer).written() + seq![
                init_header(self@, ack),
            ] + init_body(self@, ack) && final(writer).room() == old(writer).room() - (1
                + init_body(self@, ack).len()),
            r is Err ==> final(writer).written() == old(writer).written() && final(writer).room()
                == old(writer).room(),
            (1 + init_body(self@, ack).len() <= old(writer).room() && 1 + init_body(
                self@,
                ack,
            ).len() <= Z_MAX_MTU) ==> r is Ok,
    {
        let mut buf = ZVec::new();
        let mut header = Z_MID_T_INIT;
        if self.batch_size != super::transport::Z_DEFAULT_MULTICAST_BATCH_SIZE || self.seq_num_res
            != super::transport::Z_DEFAULT_RESOLUTION_SIZE || self.req_id_res
            != super::transport::Z_DEFAULT_RESOLUTION_SIZE {
            header = header + 0x40;
        }
        if ack {
            header = header + 0x20;
        }
        let r1 = buf.write_u8(header);
        let r2 = buf.write_u8(self.version);
        let size = self.zid.size();
        let flags = ((size - 1) as u8) * 16 + self.whatami.to_bits();
        let r3 = buf.write_u8(flags);
        let zid_bytes = self.zid.to_le_bytes();
        let r4 = buf.write_exact(vstd::slice::slice_subrange(zid_bytes.as_slice(), 0, size));
        let mut failed = r1.is_err() || r2.is_err() || r3.is_err() || r4.is_err();
        if header >= 0x40 {
            let cbyte = (self.seq_num_res % 4) + (self.req_id_res % 4) * 4;
            let r5 = buf.write_u8(cbyte);
            let r6 = buf.write_u8((self.batch_size % 256) as u8);
            let r7 = buf.write_u8((self.batch_size / 256) as u8);
            failed = failed || r5.is_err() || r6.is_err() || r7.is_err();
        }
        if ack {
            match self.cookie {
                Some(ref c) => {
                    let cs = c.as_slice();
                    let r8 = Varint::encode(&mut buf, cs.len() as u64);
                    let r9 = buf.write(cs);
                    failed = failed || r8.is_err() || r9.is_err();
                },
                None => {},
            }
        }
        if failed {
            return Err(TransportError::EncodeError(DidntWrite));
        }
        proof {
            assert(zid_bytes@.subrange(0, zid_wire_len(self@.zid)) =~= self@.zid.take(
                zid_wire_len(self@.zid),
            ));
            assert(buf@ =~= seq![init_header(self@, ack)] + init_body(self@, ack));
        }
        match writer.write_exact(buf.as_slice()) {
            Ok(()) => Ok(()),
            Err(e) => Err(TransportError::EncodeError(e)),
        }
    }

    /// Reads an INIT body (the header byte already consumed) and classifies
    /// it as SYN or ACK by the A flag.
    pub fn decode<R: Reader>(reader: &mut R, header: u8) -> (r: Result<
        super::transport::TransportMessage,
        TransportError,
    >)
        ensures
            r matches Ok(msg) ==> ({
                let s = old(reader).remaining();
                spec_parse_init(s, header) matches Ok(pr) && final(reader).remaining() == s.skip(
                    pr.1,
                ) && (if (header / 0x20) % 2 == 1 {
                    msg@ == super::transport::MsgView::InitAck(pr.0)
                } else {
                    msg@ == super::transport::MsgView::InitSyn(pr.0)
                })
            }),
            r matches Err(e) ==> spec_parse_init(old(reader).remaining(), header) == Err::<
                (InitView, int),
                TransportError,
            >(e),
    {
        let ghost s = old(reader).remaining();
        if header >= 0x80 {
            proof {
                assert(header / 0x80 == 1);
            }
            return Err(TransportError::UnexpectMsg);
        }
        proof {
            assert(header / 0x80 == 0);
        }
        let s_flag = (header / 0x40) % 2 == 1;
        let a_flag = (header / 0x20) % 2 == 1;
        let version = match reader.read_u8() {
            Ok(b) => b,
            Err(_) => {
                return Err(TransportError::DecodeError(DidntRead));
            },
        };
        let cb = match reader.read_u8() {
            Ok(b) => b,
            Err(_) => {
                return Err(TransportError::DecodeError(DidntRead));
            },
        };
        proof {
            assert(s.skip(1)[0] == s[1]);
            assert(s.skip(1).skip(1) =~= s.skip(2));
        }
        if version != crate::Z_PROTO_VERSION {
            return Err(TransportError::LinkError(crate::link::LinkError::InvalidParameter));
        }
        let low = cb % 4;
        let whatami = if low == 0 {
            WhatAmI::Router
        } else if low == 1 {
            WhatAmI::Peer
        } else if low == 2 {
            WhatAmI::Client
        } else {
            return Err(TransportError::LinkError(crate::link::LinkError::InvalidParameter));
        };
        let zl = (cb / 16) as usize + 1;
        let zid_bytes = match reader.read_exact(zl) {
            Ok(v) => v,
            Err(_) => {
                proof {
                    if s.len() >= 2 + zl {
                        assert(s.skip(2).len() == s.len() - 2);
                        assert(false);
                    }
                }
                return Err(TransportError::DecodeError(DidntRead));
            },
        };
        proof {
            assert(s.skip(2).take(zl as int) =~= s.subrange(2, 2 + zl));
            assert(s.skip(2).skip(zl as int) =~= s.skip(2 + zl));
        }
        let zid = zid_from_wire(zid_bytes.as_slice());
        let ghost p0 = 2 + zl as int;
        let mut seq_num_res: u8 = super::transport::Z_DEFAULT_RESOLUTION_SIZE;
        let mut req_id_res: u8 = super::transport::Z_DEFAULT_RESOLUTION_SIZE;
        let mut batch_size: u16 = super::transport::Z_DEFAULT_MULTICAST_BATCH_SIZE;
        if s_flag {
            let sizes = match reader.read_exact(3) {
                Ok(v) => v,
                Err(_) => {
                    proof {
                        if s.len() >= p0 + 3 {
                            assert(s.skip(p0).len() == s.len() - p0);
                            assert(false);
                        }
                    }
                    return Err(TransportError::DecodeError(DidntRead));
                },
            };
            proof {
                assert(s.skip(p0).take(3)[0] == s[p0]);
                assert(s.skip(p0).take(3)[1] == s[p0 + 1]);
                assert(s.skip(p0).take(3)[2] == s[p0 + 2]);
                assert(s.skip(p0).skip(3) =~= s.skip(p0 + 3));
            }
            let rb = sizes[0];
            seq_num_res = rb % 4;
            req_id_res = (rb / 4) % 4;
            batch_size = sizes[1] as u16 + 256 * (sizes[2] as u16);
        }
        let ghost p1 = if s_flag {
            p0 + 3
        } else {
            p0
        };
        let cookie: Option<Cookie> = if a_flag {
            let cookie_len = match Varint::decode(reader) {
                Ok(v) => v,
                Err(_) => {
                    return Err(TransportError::DecodeError(DidntRead));
                },
            };
            let ghost pr = spec_varint_parse(s.skip(p1)).unwrap();
            proof {
                lemma_varint_parse_len(s.skip(p1));
                assert(s.skip(p1).skip(pr.1) =~= s.skip(p1 + pr.1));
            }
            let cookie_bytes: Vec<u8> = if cookie_len == 0 {
                proof {
                    assert(s.skip(p1 + pr.1).take(0) =~= s.subrange(p1 + pr.1, p1 + pr.1));
                    assert(s.skip(p1 + pr.1).skip(0) =~= s.skip(p1 + pr.1));
                }
                Vec::new()
            } else if cookie_len > usize::MAX as u64 {
                return Err(TransportError::DecodeError(DidntRead));
            } else {
                match reader.read_exact(cookie_len as usize) {
                    Ok(v) => v,
                    Err(_) => {
                        return Err(TransportError::DecodeError(DidntRead));
                    },
                }
            };
            proof {
                assert(cookie_bytes@ =~= s.subrange(p1 + pr.1, p1 + pr.1 + pr.0));
            }
            let c = match Cookie::from_slice(cookie_bytes.as_slice()) {
                Ok(c) => c,
                Err(_) => {
                    return Err(TransportError::MoreCookieAllocated);
                },
            };
            Some(c)
        } else {
            None
        };
        let msg = InitSyn { version, whatami, zid, seq_num_res, req_id_res, batch_size, cookie };
        if a_flag {
            Ok(
                super::transport::TransportMessage {
                    body: super::transport::TransportBody::InitAck(msg),
                },
            )
        } else {
            Ok(
                super::transport::TransportMessage {
                    body: super::transport::TransportBody::InitSyn(msg),
                },
            )
        }
    }
}

/// Parsing an encoded INIT restores it, wherever it stands in the stream.
/// The identifier comes back zero-extended to the full sixteen bytes, which
/// is the identifier it encodes.
pub proof fn lemma_init_round_trip(m: InitView, ack: bool, rest: Seq<u8>)
    requires
        init_valid(m, ack),
    ensures
        spec_parse_init(init_body(m, ack) + rest, init_header(m, ack)) == Ok::<
            (InitView, int),
            TransportError,
        >((m, init_body(m, ack).len() as int)),
{
    let sf = init_s_flag(m);
    let header = init_header(m, ack);
    if sf {
        if ack {
            assert(header == 0x61);
        } else {
            assert(header == 0x41);
        }
    } else {
        if ack {
            assert(header == 0x21);
        } else {
            assert(header == 0x01);
        }
    }
    assert(header / 0x80 == 0);
    assert(((header / 0x40) % 2 == 1) == sf);
    assert(((header / 0x20) % 2 == 1) == ack);
    let body = init_body(m, ack);
    let s = body + rest;
    let zl = zid_wire_len(m.zid);
    crate::protocol::lemma_trailing_zero_bytes(m.zid);
    assert(1 <= zl <= 16);
    let cb = (((zl - 1) * 16) + whatami_bits(m.whatami)) as u8;
    assert(s[0] == m.version);
    assert(s[1] == cb);
    // unpack the packed flags byte
    assert(whatami_bits(m.whatami) < 4);
    vstd::arithmetic::div_mod::lemma_fundamental_div_mod_converse(
        cb as int,
        16,
        zl - 1,
        whatami_bits(m.whatami) as int,
    );
    vstd::arithmetic::div_mod::lemma_fundamental_div_mod_converse(
        cb as int,
        4,
        (zl - 1) * 4,
        whatami_bits(m.whatami) as int,
    );
    assert(cb as int / 16 == zl - 1);
    assert(cb % 4 == whatami_bits(m.whatami));
    assert(cb % 4 != 3);
    let sizes_part: Seq<u8> = if sf {
        seq![((m.seq_num_res % 4) + (m.req_id_res % 4) * 4) as u8] + le16_bytes(m.batch_size as int)
    } else {
        Seq::<u8>::empty()
    };
    let cookie_part: Seq<u8> = if ack {
        spec_varint(m.cookie.unwrap().len()) + m.cookie.unwrap()
    } else {
        Seq::<u8>::empty()
    };
    assert(body =~= seq![m.version] + seq![cb] + m.zid.take(zl) + sizes_part + cookie_part);
    assert(s.len() >= 2 + zl);
    assert(s.subrange(2, 2 + zl) =~= m.zid.take(zl));
    // the suppressed bytes are zero, so zero-extension restores the identifier
    assert(s.subrange(2, 2 + zl) + Seq::new((16 - zl) as nat, |i: int| 0u8) =~= m.zid);
    let p0 = 2 + zl;
    if sf {
        let rb = ((m.seq_num_res % 4) + (m.req_id_res % 4) * 4) as u8;
        assert(s[p0] == rb);
        assert(s[p0 + 1] == le16_bytes(m.batch_size as int)[0]);
        assert(s[p0 + 2] == le16_bytes(m.batch_size as int)[1]);
        assert(m.seq_num_res % 4 == m.seq_num_res);
        assert(m.req_id_res % 4 == m.req_id_res);
        vstd::arithmetic::div_mod::lemma_fundamental_div_mod_converse(
            rb as int,
            4,
            m.req_id_res as int,
            m.seq_num_res as int,
        );
        assert(rb % 4 == m.seq_num_res);
        assert(rb as int / 4 == m.req_id_res);
        assert((rb as int / 4) % 4 == m.req_id_res);
        lemma_le16_round(m.batch_size as int);
        assert(le16_val(s[p0 + 1], s[p0 + 2]) == m.batch_size);
    }
    let p1 = if sf {
        p0 + 3
    } else {
        p0
    };
    if ack {
        let c = m.cookie.unwrap();
        let v = spec_varint(c.len());
        assert(s.skip(p1) =~= v + (c + rest));
        lemma_varint_round_trip(c.len(), c + rest);
        lemma_varint_len_le10(c.len());
        assert(s.subrange(p1 + v.len(), p1 + v.len() + c.len() as int) =~= c);
        assert(body.len() == p1 + v.len() + c.len());
        assert(c.len() as int <= s.len() - p1 - v.len());
        let parsed = InitView {
            version: m.version,
            whatami: m.whatami,
            zid: m.zid,
            seq_num_res: m.seq_num_res,
            req_id_res: m.req_id_res,
            batch_size: m.batch_size,
            cookie: Some(c),
        };
        assert(parsed == m);
        assert(spec_parse_init(s, header) == Ok::<(InitView, int), TransportError>(
            (parsed, body.len() as int),
        ));
    } else {
        assert(body.len() == p1);
        let parsed = InitView {
            version: m.version,
            whatami: m.whatami,
            zid: m.zid,
            seq_num_res: m.seq_num_res,
            req_id_res: m.req_id_res,
            batch_size: m.batch_size,
            cookie: None,
        };
        assert(parsed == m);
        assert(spec_parse_init(s, header) == Ok::<(InitView, int), TransportError>(
            (parsed, body.len() as int),
        ));
    }
}

} // verus!
