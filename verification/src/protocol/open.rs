//! OPEN message (wire ID 0x02): finalizes an initialized session.
//!
//! ```text
//!  7 6 5 4 3 2 1 0
//! +-+-+-+-+-+-+-+-+
//! |Z|T|A|   OPEN  |
//! +-+-+-+---------+
//! %     lease     %  varint; in seconds when T, else milliseconds
//! +---------------+
//! %  initial_sn   %  varint
//! +---------------+
//! ~    cookie     ~  varint length, then bytes; only when A == 0
//! +---------------+
//! ```

use vstd::prelude::*;
use crate::iobuf::{DidntWrite, Reader, Writer, ZVec};
use crate::protocol::{spec_varint, spec_varint_parse, lemma_varint_round_trip, lemma_varint_parse_len, Varint};
use crate::transport::TransportError;
use crate::Z_MAX_MTU;

verus! {

pub const Z_MID_T_OPEN: u8 = 0x02;

/// Largest lease wire value when expressed in seconds: `u32::MAX / 1000`.
pub const LEASE_SECONDS_MAX: u64 = 4294967;

/// OPEN-SYN / OPEN-ACK payload. The cookie is the byte string echoed from
/// INIT-ACK; an ACK carries none.
pub struct OpenSyn {
    pub lease: u32,
    pub initial_sn: u32,
    pub cookie: Option<Vec<u8>>,
}

/// The mathematical image of an OPEN message.
pub struct OpenView {
    pub lease: u32,
    pub initial_sn: u32,
    pub cookie: Option<Seq<u8>>,
}

impl View for OpenSyn {
    type V = OpenView;

    open spec fn view(&self) -> OpenView {
        OpenView {
            lease: self.lease,
            initial_sn: self.initial_sn,
            cookie: match self.cookie {
                Some(ref c) => Some(c@),
                None => None,
            },
        }
    }
}

/// The lease rides in seconds exactly when milliseconds divide evenly.
pub open spec fn open_t_flag(lease: u32) -> bool {
    lease % 1000 == 0
}

pub open spec fn open_header(m: OpenView, ack: bool) -> u8 {
    (Z_MID_T_OPEN + (if open_t_flag(m.lease) {
        0x40u8
    } else {
        0u8
    }) + (if ack {
        0x20u8
    } else {
        0u8
    })) as u8
}

/// The bytes after the header byte.
pub open spec fn open_body(m: OpenView, ack: bool) -> Seq<u8> {
    spec_varint(
        (if open_t_flag(m.lease) {
            m.lease as nat / 1000
        } else {
            m.lease as nat
        }),
    ) + spec_varint(m.initial_sn as nat) + (if !ack {
        match m.cookie {
            Some(c) => spec_varint(c.len()) + c,
            None => Seq::<u8>::empty(),
        }
    } else {
        Seq::<u8>::empty()
    })
}

/// An encodable OPEN: a SYN carries the cookie, an ACK never does.
pub open spec fn open_valid(m: OpenView, ack: bool) -> bool {
    &&& (ack ==> m.cookie is None)
    &&& (!ack ==> (m.cookie matches Some(c) && c.len() <= 0xFFFFFFFF))
}

/// A successful parse consumes between zero and all of the bytes.
pub proof fn lemma_parse_open_len(s: Seq<u8>, header: u8)
    ensures
        spec_parse_open(s, header) matches Ok(pr) ==> 0 <= pr.1 <= s.len(),
{
    lemma_varint_parse_len(s);
    match spec_varint_parse(s) {
        Option::None => {},
        Option::Some(pr1) => {
            lemma_varint_parse_len(s.skip(pr1.1));
            match spec_varint_parse(s.skip(pr1.1)) {
                Option::None => {},
                Option::Some(pr2) => {
                    let p = pr1.1 + pr2.1;
                    if 0 <= p <= s.len() {
                        lemma_varint_parse_len(s.skip(p));
                    }
                },
            }
        },
    }
}

/// Parses an OPEN body (after the header byte): the message and how many
/// bytes it took, or the exact error.
pub open spec fn spec_parse_open(s: Seq<u8>, header: u8) -> Result<(OpenView, int), TransportError> {
    let t_flag = (header / 0x40) % 2 == 1;
    let a_flag = (header / 0x20) % 2 == 1;
    if header / 0x80 == 1 {
        // the extension flag is recognized but refused
        Err(TransportError::UnexpectMsg)
    } else {
        match spec_varint_parse(s) {
        Option::None => Err(TransportError::DecodeError(crate::iobuf::DidntRead)),
        Option::Some(pr1) => {
            if pr1.1 > 10 || pr1.0 > 0xFFFFFFFFFFFFFFFF {
                Err(TransportError::DecodeError(crate::iobuf::DidntRead))
            } else if (if t_flag {
                pr1.0 > LEASE_SECONDS_MAX
            } else {
                pr1.0 > 0xFFFFFFFF
            }) {
                Err(TransportError::LinkError(crate::link::LinkError::InvalidParameter))
            } else {
                let lease = if t_flag {
                    pr1.0 * 1000
                } else {
                    pr1.0
                };
                match spec_varint_parse(s.skip(pr1.1)) {
                    Option::None => Err(TransportError::DecodeError(crate::iobuf::DidntRead)),
                    Option::Some(pr2) => {
                        if pr2.1 > 10 || pr2.0 > 0xFFFFFFFFFFFFFFFF {
                            Err(TransportError::DecodeError(crate::iobuf::DidntRead))
                        } else if pr2.0 > 0xFFFFFFFF {
                            Err(
                                TransportError::LinkError(
                                    crate::link::LinkError::InvalidParameter,
                                ),
                            )
                        } else {
                            let p = pr1.1 + pr2.1;
                            if a_flag {
                                Ok(
                                    (
                                        OpenView {
                                            lease: lease as u32,
                                            initial_sn: pr2.0 as u32,
                                            cookie: None,
                                        },
                                        p,
                                    ),
                                )
                            } else {
                                match spec_varint_parse(s.skip(p)) {
                                    Option::None => Err(
                                        TransportError::DecodeError(crate::iobuf::DidntRead),
                                    ),
                                    Option::Some(pr3) => {
                                        if pr3.1 > 10 || pr3.0 > 0xFFFFFFFFFFFFFFFF {
                                            Err(
                                                TransportError::DecodeError(
                                                    crate::iobuf::DidntRead,
                                                ),
                                            )
                                        } else if pr3.0 > s.len() - p - pr3.1 || pr3.0
                                            > usize::MAX {
                                            Err(
                                                TransportError::DecodeError(
                                                    crate::iobuf::DidntRead,
                                                ),
                                            )
                                        } else {
                                            Ok(
                                                (
                                                    OpenView {
                                                        lease: lease as u32,
                                                        initial_sn: pr2.0 as u32,
                                                        cookie: Some(
                                                            s.subrange(
                                                                p + pr3.1,
                                                                p + pr3.1 + pr3.0,
                                                            ),
                                                        ),
                                                    },
                                                    p + pr3.1 + pr3.0,
                                                ),
                                            )
                                        }
                                    },
                                }
                            }
                        }
                    },
                }
            }
        },
        }
    }
}

impl OpenSyn {
    pub fn new(lease: u32, initial_sn: u32, cookie: Option<Vec<u8>>) -> (r: OpenSyn)
        ensures
            r.lease == lease,
            r.initial_sn == initial_sn,
            r@.cookie == (match cookie {
                Some(ref c) => Some::<Seq<u8>>(c@),
                None => None::<Seq<u8>>,
            }),
    {
        OpenSyn { lease, initial_sn, cookie }
    }

    /// The SYN header byte: the message ID with the T flag when the lease is
    /// whole seconds.
    pub fn header(&self) -> (r: u8)
        ensures
            r == open_header(self@, false),
    {
        let mut header = Z_MID_T_OPEN;
        if self.lease % 1000 == 0 {
            header = header + 0x40;
        }
        header
    }

    /// Writes the header byte and body, whole or not at all.
    pub fn encode<W: Writer>(&self, writer: &mut W, ack: bool) -> (r: Result<(), TransportError>)
        ensures
            r is Ok ==> final(writer).written() == old(writer).written() + seq![
                open_header(self@, ack),
            ] + open_body(self@, ack) && final(writer).room() == old(writer).room() - (1
                + open_body(self@, ack).len()),
            r is Err ==> final(writer).written() == old(writer).written() && final(writer).room()
                == old(writer).room(),
            (1 + open_body(self@, ack).len() <= old(writer).room() && 1 + open_body(
                self@,
                ack,
            ).len() <= Z_MAX_MTU) ==> r is Ok,
    {
        let mut buf = ZVec::new();
        let mut header = Z_MID_T_OPEN;
        if self.lease % 1000 == 0 {
            header = header + 0x40;
        }
        if ack {
            header = header + 0x20;
        }
        let r1 = buf.write_u8(header);
        let wire_lease: u64 = if self.lease % 1000 == 0 {
            (self.lease / 1000) as u64
        } else {
            self.lease as u64
        };
        let r2 = Varint::encode(&mut buf, wire_lease);
        let r3 = Varint::encode(&mut buf, self.initial_sn as u64);
        let mut failed = r1.is_err() || r2.is_err() || r3.is_err();
        if !ack {
            match self.cookie {
                Some(ref c) => {
                    let r4 = Varint::encode(&mut buf, c.len() as u64);
                    let r5 = buf.write(c.as_slice());
                    failed = failed || r4.is_err() || r5.is_err();
                },
                None => {},
            }
        }
        if failed {
            return Err(TransportError::EncodeError(DidntWrite));
        }
        proof {
            assert(buf@ =~= seq![open_header(self@, ack)] + open_body(self@, ack));
        }
        match writer.write_exact(buf.as_slice()) {
            Ok(()) => Ok(()),
            Err(e) => Err(TransportError::EncodeError(e)),
        }
    }

    /// Reads an OPEN body (the header byte already consumed) and classifies
    /// it as SYN or ACK by the A flag.
    pub fn decode<R: Reader>(reader: &mut R, header: u8) -> (r: Result<
        super::transport::TransportMessage,
        TransportError,
    >)
        ensures
            r matches Ok(msg) ==> ({
                let s = old(reader).remaining();
                spec_parse_open(s, header) matches Ok(pr) && final(reader).remaining() == s.skip(
                    pr.1,
                ) && (if (header / 0x20) % 2 == 1 {
                    msg@ == super::transport::MsgView::OpenAck(pr.0)
                } else {
                    msg@ == super::transport::MsgView::OpenSyn(pr.0)
                })
            }),
            r matches Err(e) ==> spec_parse_open(old(reader).remaining(), header) == Err::<
                (OpenView, int),
                TransportError,
            >(e),
    {
        let ghost s = old(reader).remaining();
        if header >= 0x80 {
            proof {
                assert(header / 0x80 == 1);
            }
            return Err(TransportError::UnexpectMsg);
        }
        proof {
            assert(header / 0x80 == 0);
        }
        let t_flag = (header / 0x40) % 2 == 1;
        let a_flag = (header / 0x20) % 2 == 1;
        let wire_lease = match Varint::decode(reader) {
            Ok(v) => v,
            Err(e) => {
                return Err(TransportError::DecodeError(e));
            },
        };
        let ghost pr1 = spec_varint_parse(s).unwrap();
        let lease: u32 = if t_flag {
            if wire_lease > LEASE_SECONDS_MAX {
                return Err(TransportError::LinkError(crate::link::LinkError::InvalidParameter));
            }
            (wire_lease as u32) * 1000
        } else {
            if wire_lease > 0xFFFFFFFF {
                return Err(TransportError::LinkError(crate::link::LinkError::InvalidParameter));
            }
            wire_lease as u32
        };
        let initial_sn64 = match Varint::decode(reader) {
            Ok(v) => v,
            Err(e) => {
                return Err(TransportError::DecodeError(e));
            },
        };
        let ghost pr2 = spec_varint_parse(s.skip(pr1.1)).unwrap();
        if initial_sn64 > 0xFFFFFFFF {
            return Err(TransportError::LinkError(crate::link::LinkError::InvalidParameter));
        }
        let initial_sn = initial_sn64 as u32;
        proof {
            lemma_varint_parse_len(s);
            lemma_varint_parse_len(s.skip(pr1.1));
            assert(s.skip(pr1.1).skip(pr2.1) =~= s.skip(pr1.1 + pr2.1));
        }
        if a_flag {
            return Ok(
                super::transport::TransportMessage {
                    body: super::transport::TransportBody::OpenAck(
                        OpenSyn { lease, initial_sn, cookie: None },
                    ),
                },
            );
        }
        let ghost p = pr1.1 + pr2.1;
        let cookie_len = match Varint::decode(reader) {
            Ok(v) => v,
            Err(e) => {
                return Err(TransportError::DecodeError(e));
            },
        };
        let ghost pr3 = spec_varint_parse(s.skip(p)).unwrap();
        proof {
            lemma_varint_parse_len(s.skip(p));
            assert(s.skip(p).skip(pr3.1) =~= s.skip(p + pr3.1));
        }
        let cookie: Vec<u8> = if cookie_len == 0 {
            proof {
                assert(s.skip(p + pr3.1).take(0) =~= s.subrange(p + pr3.1, p + pr3.1));
                assert(s.skip(p + pr3.1).skip(0) =~= s.skip(p + pr3.1));
            }
            Vec::new()
        } else if cookie_len > usize::MAX as u64 {
            return Err(TransportError::DecodeError(crate::iobuf::DidntRead));
        } else {
            match reader.read_exact(cookie_len as usize) {
                Ok(v) => v,
                Err(e) => {
                    return Err(TransportError::DecodeError(e));
                },
            }
        };
        proof {
            assert(cookie@ =~= s.subrange(p + pr3.1, p + pr3.1 + pr3.0));
        }
        Ok(
            super::transport::TransportMessage {
                body: super::transport::TransportBody::OpenSyn(
                    OpenSyn { lease, initial_sn, cookie: Some(cookie) },
                ),
            },
        )
    }
}

/// Parsing an encoded OPEN restores it, wherever it stands in the stream.
#[verifier::rlimit(100)]
pub proof fn lemma_open_round_trip(m: OpenView, ack: bool, rest: Seq<u8>)
    requires
        open_valid(m, ack),
    ensures
        spec_parse_open(open_body(m, ack) + rest, open_header(m, ack)) == Ok::<
            (OpenView, int),
            TransportError,
        >((m, open_body(m, ack).len() as int)),
{
    let t = open_t_flag(m.lease);
    let header = open_header(m, ack);
    let wire_lease: nat = if t {
        m.lease as nat / 1000
    } else {
        m.lease as nat
    };
    let body = open_body(m, ack);
    let s = body + rest;
    let v1 = spec_varint(wire_lease);
    let v2 = spec_varint(m.initial_sn as nat);
    let tail: Seq<u8> = if !ack {
        match m.cookie {
            Some(c) => spec_varint(c.len()) + c,
            None => Seq::<u8>::empty(),
        }
    } else {
        Seq::<u8>::empty()
    };
    assert(s =~= v1 + (v2 + (tail + rest)));
    lemma_varint_round_trip(wire_lease, v2 + (tail + rest));
    crate::protocol::lemma_varint_len_le10(wire_lease);
    crate::protocol::lemma_varint_len_le10(m.initial_sn as nat);
    assert(wire_lease <= 0xFFFFFFFF);
    if t {
        assert(m.lease as nat / 1000 <= LEASE_SECONDS_MAX as nat) by {
            vstd::arithmetic::div_mod::lemma_div_is_ordered(
                m.lease as int,
                0xFFFFFFFF as int,
                1000,
            );
            assert(0xFFFFFFFFint / 1000 == 4294967);
        }
        assert(wire_lease * 1000 == m.lease) by {
            vstd::arithmetic::div_mod::lemma_fundamental_div_mod(m.lease as int, 1000);
        }
    }
    assert(s.skip(v1.len() as int) =~= v2 + (tail + rest));
    lemma_varint_round_trip(m.initial_sn as nat, tail + rest);
    let p = v1.len() + v2.len();
    assert(s.skip(p as int) =~= tail + rest);
    let lease_parsed: nat = if t {
        wire_lease * 1000
    } else {
        wire_lease
    };
    assert(lease_parsed == m.lease);
    if ack {
        if t {
            assert(header == 0x62);
        } else {
            assert(header == 0x22);
        }
        assert(header / 0x80 == 0);
        assert((header / 0x20) % 2 == 1);
        assert(spec_parse_open(s, header) == Ok::<(OpenView, int), TransportError>(
            (OpenView { lease: m.lease, initial_sn: m.initial_sn, cookie: None }, p as int),
        ));
        assert(body =~= v1 + v2);
        assert(m.cookie is None);
        assert((OpenView { lease: m.lease, initial_sn: m.initial_sn, cookie: None }) == m);
    } else {
        if t {
            assert(header == 0x42);
        } else {
            assert(header == 0x02);
        }
        assert(header / 0x80 == 0);
        assert((header / 0x20) % 2 == 0);
        let c = m.cookie.unwrap();
        let v3 = spec_varint(c.len());
        lemma_varint_round_trip(c.len(), c + rest);
        crate::protocol::lemma_varint_len_le10(c.len());
        assert(tail + rest =~= v3 + (c + rest));
        assert(s.subrange(p as int + v3.len(), p as int + v3.len() + c.len()) =~= c);
        assert(body.len() == p + v3.len() + c.len());
        assert(c.len() as int <= s.len() - p - v3.len());
        assert(spec_parse_open(s, header) == Ok::<(OpenView, int), TransportError>(
            (
                OpenView { lease: m.lease, initial_sn: m.initial_sn, cookie: Some(c) },
                body.len() as int,
            ),
        ));
        assert((OpenView { lease: m.lease, initial_sn: m.initial_sn, cookie: Some(c) }) == m);
    }
}

} // verus!
