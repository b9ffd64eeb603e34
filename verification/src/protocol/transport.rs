//! The tagged union of transport control messages. Only INIT and OPEN are
//! realized; the remaining kinds are named but refused on the wire.

use vstd::prelude::*;
use crate::iobuf::{DidntRead, Reader, Writer};
use crate::protocol::init::{self, InitSyn, InitView};
use crate::protocol::open::{self, OpenSyn, OpenView};
use crate::transport::TransportError;
use crate::Z_MAX_MTU;

verus! {

pub const Z_DEFAULT_MULTICAST_BATCH_SIZE: u16 = 8192;

pub const Z_DEFAULT_RESOLUTION_SIZE: u8 = 2;

pub enum TransportBody {
    Join,
    InitSyn(InitSyn),
    InitAck(InitSyn),
    OpenSyn(OpenSyn),
    OpenAck(OpenSyn),
    Close,
    KeepAlive,
    Frame,
    Fragment,
}

pub struct TransportMessage {
    pub body: TransportBody,
}

/// The mathematical image of a realized message; reserved kinds collapse to
/// `Other`.
pub enum MsgView {
    InitSyn(InitView),
    InitAck(InitView),
    OpenSyn(OpenView),
    OpenAck(OpenView),
    Other,
}

impl View for TransportMessage {
    type V = MsgView;

    open spec fn view(&self) -> MsgView {
        match self.body {
            TransportBody::InitSyn(ref b) => MsgView::InitSyn(b@),
            TransportBody::InitAck(ref b) => MsgView::InitAck(b@),
            TransportBody::OpenSyn(ref b) => MsgView::OpenSyn(b@),
            TransportBody::OpenAck(ref b) => MsgView::OpenAck(b@),
            _ => MsgView::Other,
        }
    }
}

/// An encodable message: realized, and well formed for its direction.
pub open spec fn msg_valid(v: MsgView) -> bool {
    match v {
        MsgView::InitSyn(m) => init::init_valid(m, false),
        MsgView::InitAck(m) => init::init_valid(m, true),
        MsgView::OpenSyn(m) => open::open_valid(m, false),
        MsgView::OpenAck(m) => open::open_valid(m, true),
        MsgView::Other => false,
    }
}

/// The full wire image of a message: header byte, then body.
pub open spec fn spec_encode_msg(v: MsgView) -> Seq<u8> {
    match v {
        MsgView::InitSyn(m) => seq![init::init_header(m, false)] + init::init_body(m, false),
        MsgView::InitAck(m) => seq![init::init_header(m, true)] + init::init_body(m, true),
        MsgView::OpenSyn(m) => seq![open::open_header(m, false)] + open::open_body(m, false),
        MsgView::OpenAck(m) => seq![open::open_header(m, true)] + open::open_body(m, true),
        MsgView::Other => Seq::<u8>::empty(),
    }
}

/// Parses one message off the front of `s`: its image and the bytes it
/// took, or the exact error. An extension flag or an unknown kind is
/// refused.
pub open spec fn spec_parse_msg(s: Seq<u8>) -> Result<(MsgView, int), TransportError> {
    if s.len() == 0 {
        Err(TransportError::DecodeError(DidntRead))
    } else {
        let h = s[0];
        if h % 0x20 == init::Z_MID_T_INIT {
            if h / 0x80 == 1 {
                Err(TransportError::UnexpectMsg)
            } else {
                match init::spec_parse_init(s.skip(1), h) {
                    Err(e) => Err(e),
                    Ok(pr) => Ok(
                        (
                            if (h / 0x20) % 2 == 1 {
                                MsgView::InitAck(pr.0)
                            } else {
                                MsgView::InitSyn(pr.0)
                            },
                            1 + pr.1,
                        ),
                    ),
                }
            }
        } else if h % 0x20 == open::Z_MID_T_OPEN {
            if h / 0x80 == 1 {
                Err(TransportError::UnexpectMsg)
            } else {
                match open::spec_parse_open(s.skip(1), h) {
                    Err(e) => Err(e),
                    Ok(pr) => Ok(
                        (
                            if (h / 0x20) % 2 == 1 {
                                MsgView::OpenAck(pr.0)
                            } else {
                                MsgView::OpenSyn(pr.0)
                            },
                            1 + pr.1,
                        ),
                    ),
                }
            }
        } else {
            Err(TransportError::UnexpectMsg)
        }
    }
}

impl TransportMessage {
    /// Writes the message, whole or not at all.
    pub fn encode<W: Writer>(&self, writer: &mut W) -> (r: Result<(), TransportError>)
        requires
            !(self@ is Other),
        ensures
            r is Ok ==> final(writer).written() == old(writer).written() + spec_encode_msg(self@)
                && final(writer).room() == old(writer).room() - spec_encode_msg(self@).len(),
            r is Err ==> final(writer).written() == old(writer).written() && final(writer).room()
                == old(writer).room(),
            (spec_encode_msg(self@).len() <= old(writer).room() && spec_encode_msg(self@).len()
                <= Z_MAX_MTU) ==> r is Ok,
    {
        match self.body {
            TransportBody::InitSyn(ref b) => b.encode(writer, false),
            TransportBody::InitAck(ref b) => b.encode(writer, true),
            TransportBody::OpenSyn(ref b) => b.encode(writer, false),
            TransportBody::OpenAck(ref b) => b.encode(writer, true),
            _ => {
                proof {
                    assert(false);
                }
                Err(TransportError::UnexpectMsg)
            },
        }
    }

    /// Reads one message, dispatching on the kind in the header byte.
    pub fn decode<R: Reader>(reader: &mut R) -> (r: Result<TransportMessage, TransportError>)
        ensures
            r matches Ok(msg) ==> ({
                let s = old(reader).remaining();
                spec_parse_msg(s) matches Ok(pr) && msg@ == pr.0 && final(reader).remaining()
                    == s.skip(pr.1)
            }),
            r matches Err(e) ==> spec_parse_msg(old(reader).remaining()) == Err::<
                (MsgView, int),
                TransportError,
            >(e),
    {
        let ghost s = old(reader).remaining();
        let header = match reader.read_u8() {
            Ok(b) => b,
            Err(_) => {
                return Err(TransportError::DecodeError(DidntRead));
            },
        };
        proof {
            assert(s[0] == header);
        }
        let mid = header % 0x20;
        if mid == init::Z_MID_T_INIT {
            if header >= 0x80 {
                return Err(TransportError::UnexpectMsg);
            }
            proof {
                assert(header / 0x80 == 0);
                init::lemma_parse_init_len(s.skip(1), header);
                match init::spec_parse_init(s.skip(1), header) {
                    Ok(pr) => {
                        assert(s.skip(1).skip(pr.1) =~= s.skip(1 + pr.1));
                    },
                    Err(_) => {},
                }
            }
            InitSyn::decode(reader, header)
        } else if mid == open::Z_MID_T_OPEN {
            if header >= 0x80 {
                return Err(TransportError::UnexpectMsg);
            }
            proof {
                assert(header / 0x80 == 0);
                open::lemma_parse_open_len(s.skip(1), header);
                match open::spec_parse_open(s.skip(1), header) {
                    Ok(pr) => {
                        assert(s.skip(1).skip(pr.1) =~= s.skip(1 + pr.1));
                    },
                    Err(_) => {},
                }
            }
            OpenSyn::decode(reader, header)
        } else {
            Err(TransportError::UnexpectMsg)
        }
    }
}

/// Round trip: parsing an encoded message restores it, wherever it stands
/// in the stream.
#[verifier::rlimit(100)]
pub proof fn lemma_msg_round_trip(v: MsgView, rest: Seq<u8>)
    requires
        msg_valid(v),
    ensures
        spec_parse_msg(spec_encode_msg(v) + rest) == Ok::<(MsgView, int), TransportError>(
            (v, spec_encode_msg(v).len() as int),
        ),
{
    let w = spec_encode_msg(v) + rest;
    match v {
        MsgView::InitSyn(m) => {
            let header = init::init_header(m, false);
            assert(header == 0x01 || header == 0x41);
            assert(w[0] == header);
            assert(w.skip(1) =~= init::init_body(m, false) + rest);
            init::lemma_init_round_trip(m, false, rest);
        },
        MsgView::InitAck(m) => {
            let header = init::init_header(m, true);
            assert(header == 0x21 || header == 0x61);
            assert(w[0] == header);
            assert(w.skip(1) =~= init::init_body(m, true) + rest);
            init::lemma_init_round_trip(m, true, rest);
        },
        MsgView::OpenSyn(m) => {
            let header = open::open_header(m, false);
            assert(header == 0x02 || header == 0x42);
            assert(w[0] == header);
            assert(w.skip(1) =~= open::open_body(m, false) + rest);
            open::lemma_open_round_trip(m, false, rest);
        },
        MsgView::OpenAck(m) => {
            let header = open::open_header(m, true);
            assert(header == 0x22 || header == 0x62);
            assert(w[0] == header);
            assert(w.skip(1) =~= open::open_body(m, true) + rest);
            open::lemma_open_round_trip(m, true, rest);
        },
        MsgView::Other => {},
    }
}

/// Decoding a stream that begins with the encoding of a valid message can
/// only yield that message, consuming exactly its bytes.
pub proof fn lemma_decode_of_encoded(v: MsgView, rest: Seq<u8>, got: MsgView, consumed: int)
    requires
        msg_valid(v),
        spec_parse_msg(spec_encode_msg(v) + rest) == Ok::<(MsgView, int), TransportError>(
            (got, consumed),
        ),
    ensures
        got == v,
        consumed == spec_encode_msg(v).len(),
{
    lemma_msg_round_trip(v, rest);
}

} // verus!

