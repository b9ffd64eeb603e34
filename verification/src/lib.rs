//! Embedded-class client for a publish/subscribe fabric over a serial link:
//! a byte-stuffed, length-and-CRC-protected framing codec, and the
//! four-message handshake that negotiates a unicast session with the peer.

use vstd::prelude::*;

pub mod iobuf;
pub mod link;
pub mod protocol;
pub mod transport;

verus! {

pub const Z_BATCH_UNICAST_SIZE: u16 = 2048;

pub const Z_MAX_MTU: usize = 2048;

pub const Z_PROTO_VERSION: u8 = 0x09;

pub const Z_SN_RESOLUTION: u8 = 0x02;

pub const Z_REQ_RESOLUTION: u8 = 0x02;

pub const Z_TRANSPORT_LEASE: u32 = 10000;

#[derive(Debug, Clone, Copy, PartialEq, Eq, Structural)]
pub enum SessionError {
    TransportError(crate::transport::TransportError),
}

/// What a caller brings to `open`: its identity and its role.
pub struct Config {
    pub id: protocol::ZenohID,
    pub mode: protocol::whatami::WhatAmI,
}

impl Config {
    pub fn new(id: protocol::ZenohID, mode: protocol::whatami::WhatAmI) -> (r: Config)
        ensures
            r.id == id,
            r.mode == mode,
    {
        Config { id, mode }
    }
}

/// An established session, carrying the parameters the handshake agreed.
pub struct Session {
    pub params: transport::unicast::UnicastParams,
}

/// Connects the link and runs the full handshake; on success the session
/// holds negotiated parameters within what this side offered.
pub fn open<L: link::LinkIntf, E: link::Endpoint<L = L>>(ep: E, cfg: &Config) -> (r: Result<
    Session,
    SessionError,
>)
    requires
        cfg.mode == protocol::whatami::WhatAmI::Client,
    ensures
        r matches Ok(s) ==> transport::unicast::params_negotiated(s.params),
{
    let t = match transport::Transport::new(ep, cfg) {
        Ok(t) => t,
        Err(e) => {
            return Err(SessionError::TransportError(e));
        },
    };
    match t {
        transport::Transport::Unicast(u) => {
            match u.params {
                Some(p) => Ok(Session { params: p }),
                None => {
                    proof {
                        assert(false);
                    }
                    Err(SessionError::TransportError(transport::TransportError::UnexpectMsg))
                },
            }
        },
        transport::Transport::Multicast => {
            proof {
                assert(false);
            }
            Err(SessionError::TransportError(transport::TransportError::UnexpectMsg))
        },
    }
}

} // verus!
