//! Transport layer: session-level errors and the client transport
//! constructor that runs the link connect and the unicast handshake.

use vstd::prelude::*;
use crate::link::{Endpoint, LinkIntf, TransportCap, TransportFlow};
use crate::protocol::whatami::WhatAmI;
use crate::Config;

pub mod unicast;

verus! {

pub enum Transport<L> {
    Unicast(unicast::Unicast<L>),
    Multicast,
}

#[derive(Debug, Clone, Copy, PartialEq, Eq, Structural)]
pub enum TransportError {
    /// The link failed or refused a frame.
    LinkError(crate::link::LinkError),
    /// A fixed buffer would overflow during message encode.
    EncodeError(crate::iobuf::DidntWrite),
    /// A fixed buffer was exhausted during message decode.
    DecodeError(crate::iobuf::DidntRead),
    /// The cookie slot is already taken.
    MoreCookieAllocated,
    /// A handshake step received a message of the wrong kind or direction.
    UnexpectMsg,
    /// The peer proposed a larger resolution or batch size than offered.
    OpenSnResolution,
}

/// Opens the link, runs the unicast handshake, and returns the transport
/// carrying the agreed parameters. On success the link's exchange log holds
/// exactly the four handshake messages, opening with this side's INIT-SYN;
/// `Unicast::handshake` states the full shape of the exchange.
fn new_client<L: LinkIntf, E: Endpoint<L = L>>(ep: E, cfg: &Config) -> (r: Result<
    Transport<L>,
    TransportError,
>)
    ensures
        r matches Ok(t) ==> (t matches Transport::Unicast(u) && u.params matches Some(p)
            && unicast::params_negotiated(p) && u.intf.log@.len() == 4 && u.intf.log@[0]
            == crate::link::LinkEvent::Sent(
            crate::protocol::transport::spec_encode_msg(
                crate::protocol::transport::MsgView::InitSyn(
                    unicast::syn_view(cfg.mode, cfg.id),
                ),
            ),
        )),
{
    let zl = match crate::link::open(ep) {
        Ok(l) => l,
        Err(e) => {
            return Err(TransportError::LinkError(e));
        },
    };
    match zl.cap.flow() {
        TransportFlow::DATAGRAM => {},
        TransportFlow::STREAM => {
            // stream flow is out of scope for this core
            return Err(TransportError::LinkError(crate::link::LinkError::InvalidParameter));
        },
    }
    match zl.cap.transport() {
        TransportCap::Unicast => {
            let mut unicast = unicast::Unicast::new(zl);
            let params = match unicast.handshake(cfg.mode, cfg.id) {
                Ok(p) => p,
                Err(e) => {
                    return Err(e);
                },
            };
            match unicast.update(&params) {
                Ok(()) => {},
                Err(e) => {
                    return Err(e);
                },
            }
            Ok(Transport::Unicast(unicast))
        },
        _ => {
            // only the unicast transport class is realized
            Err(TransportError::LinkError(crate::link::LinkError::InvalidParameter))
        },
    }
}

impl<L: LinkIntf> Transport<L> {
    /// Builds a transport for the configured role; only the client role is
    /// realized.
    pub fn new<E: Endpoint<L = L>>(ep: E, cfg: &Config) -> (r: Result<Transport<L>, TransportError>)
        requires
            cfg.mode == WhatAmI::Client,
        ensures
            r matches Ok(t) ==> (t matches Transport::Unicast(u) && u.params matches Some(p)
                && unicast::params_negotiated(p) && u.intf.log@.len() == 4 && u.intf.log@[0]
                == crate::link::LinkEvent::Sent(
                crate::protocol::transport::spec_encode_msg(
                    crate::protocol::transport::MsgView::InitSyn(
                        unicast::syn_view(cfg.mode, cfg.id),
                    ),
                ),
            )),
    {
        new_client(ep, cfg)
    }
}

} // verus!
