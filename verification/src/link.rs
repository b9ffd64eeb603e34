//! Link layer: a thin abstraction over the serial framing codec exposing
//! `open`, `send` and `recv`, with a one-byte capability descriptor.

use vstd::prelude::*;
use crate::iobuf::ZVec;

pub mod crc;
pub mod serial;
pub mod stuffing;

verus! {

#[derive(Debug, Clone, Copy, PartialEq, Eq, Structural)]
pub enum LinkError {
    /// A decoded length does not fit its buffer.
    InvalidFrame,
    /// The stuffing structure of a received frame is violated.
    DecodeError,
    /// The received checksum does not match the payload.
    CrcError,
    /// An application-layer constraint was violated.
    InvalidParameter,
    /// The byte adapters failed, or the connect exchange saw a foreign header.
    IoError,
}

/// A link usable by the transport: some framed byte pipe.
///
/// The library implements it for `SerialIntf`; boards with another medium
/// implement it themselves, which is why `send` promises nothing and `recv`
/// only bounds what lands in the buffer.
pub trait LinkIntf: Sized {
    fn open(&mut self) -> (r: Result<(), LinkError>);

    fn send(&mut self, msg: &[u8]) -> (r: Result<(), LinkError>);

    fn recv(&mut self, buf: &mut ZVec) -> (r: Result<usize, LinkError>)
        ensures
            r matches Ok(n) ==> final(buf)@.len() == n && final(buf).wf(),
    ;
}

/// Something a link can be created from. A created link starts with a
/// well-formed capability descriptor and an empty exchange log.
pub trait Endpoint: Sized {
    type L: LinkIntf;

    fn create_link_from_endpoint(ep: Self) -> (r: Link<Self::L>)
        ensures
            r.cap.transport_sel() <= 2,
            r.log@ == Seq::<LinkEvent>::empty(),
    ;
}

/// One step of the message exchange a link carried out: the bytes of a
/// message handed to `send_msg`, or the bytes a `recv_msg` delivered.
pub enum LinkEvent {
    Sent(Seq<u8>),
    Recvd(Seq<u8>),
}

pub struct Link<Intf> {
    pub intf: Intf,
    pub mtu: usize,
    pub cap: LinkCapabilities,
    /// The exchange so far, in order.
    pub log: Ghost<Seq<LinkEvent>>,
}

impl<I: LinkIntf> Link<I> {
    pub fn new(intf: I, mtu: usize, cap: LinkCapabilities) -> (r: Link<I>)
        ensures
            r.intf == intf,
            r.mtu == mtu,
            r.cap == cap,
            r.log@ == Seq::<LinkEvent>::empty(),
    {
        Link { intf, mtu, cap, log: Ghost(Seq::empty()) }
    }

    pub fn open(&mut self) -> (r: Result<(), LinkError>)
        ensures
            final(self).cap == old(self).cap,
            final(self).mtu == old(self).mtu,
            final(self).log == old(self).log,
    {
        self.intf.open()
    }

    /// Hands one message to the link, exactly as given; on success it is
    /// appended to the exchange log.
    pub fn send_msg(&mut self, msg: &[u8]) -> (r: Result<(), crate::transport::TransportError>)
        requires
            old(self).cap.flow_sel() == 0,
        ensures
            final(self).cap == old(self).cap,
            final(self).mtu == old(self).mtu,
            r is Ok ==> final(self).log@ == old(self).log@.push(LinkEvent::Sent(msg@)),
            r is Err ==> final(self).log == old(self).log,
            r matches Err(e) ==> e matches crate::transport::TransportError::LinkError(_),
    {
        match self.intf.send(msg) {
            Ok(()) => {
                self.log = Ghost(self.log@.push(LinkEvent::Sent(msg@)));
                Ok(())
            },
            Err(e) => Err(crate::transport::TransportError::LinkError(e)),
        }
    }

    /// Receives one message into `data`; on success its bytes are appended
    /// to the exchange log.
    pub fn recv_msg(&mut self, data: &mut ZVec) -> (r: Result<
        usize,
        crate::transport::TransportError,
    >)
        requires
            old(self).cap.flow_sel() == 0,
        ensures
            final(self).cap == old(self).cap,
            final(self).mtu == old(self).mtu,
            r matches Ok(n) ==> final(data)@.len() == n && final(data).wf() && final(self).log@
                == old(self).log@.push(LinkEvent::Recvd(final(data)@)),
            r is Err ==> final(self).log == old(self).log,
            r matches Err(e) ==> e matches crate::transport::TransportError::LinkError(_),
    {
        match self.intf.recv(data) {
            Ok(n) => {
                self.log = Ghost(self.log@.push(LinkEvent::Recvd(data@)));
                Ok(n)
            },
            Err(e) => Err(crate::transport::TransportError::LinkError(e)),
        }
    }
}

#[derive(Debug, Clone, Copy, PartialEq, Eq, Structural)]
pub enum TransportCap {
    Unicast,
    Multicast,
    Raweth,
}

pub open spec fn transport_cap_bits(t: TransportCap) -> u8 {
    match t {
        TransportCap::Unicast => 0,
        TransportCap::Multicast => 1,
        TransportCap::Raweth => 2,
    }
}

#[derive(Debug, Clone, Copy, PartialEq, Eq, Structural)]
pub enum TransportFlow {
    DATAGRAM,
    STREAM,
}

pub open spec fn transport_flow_bits(f: TransportFlow) -> u8 {
    match f {
        TransportFlow::DATAGRAM => 0,
        TransportFlow::STREAM => 1,
    }
}

/// One byte: bits[7:6] transport class, bit[5] flow, bit[4] reliable.
#[derive(Debug, Clone, Copy, PartialEq, Eq, Structural)]
pub struct LinkCapabilities(pub u8);

impl LinkCapabilities {
    pub open spec fn transport_sel(&self) -> u8 {
        (self.0 >> 6) & 0b11
    }

    pub open spec fn flow_sel(&self) -> u8 {
        (self.0 >> 5) & 0b1
    }

    pub open spec fn reliable_bit(&self) -> bool {
        (self.0 >> 4) & 0b1 == 1
    }

    pub fn new(transport: TransportCap, flow: TransportFlow, reliable: bool) -> (r:
        LinkCapabilities)
        ensures
            r.transport_sel() == transport_cap_bits(transport),
            r.flow_sel() == transport_flow_bits(flow),
            r.reliable_bit() == reliable,
    {
        let mut lc = LinkCapabilities(0);
        proof {
            assert((0u8 >> 6) & 0b11 == 0 && (0u8 >> 5) & 0b1 == 0 && (0u8 >> 4) & 0b1 == 0)
                by (bit_vector);
        }
        lc.set_transport(transport);
        lc.set_flow(flow);
        lc.set_reliable(reliable);
        lc
    }

    pub fn transport(&self) -> (r: TransportCap)
        requires
            self.transport_sel() <= 2,
        ensures
            transport_cap_bits(r) == self.transport_sel(),
    {
        let raw = self.0;
        let b = (raw >> 6) & 0b11;
        proof {
            assert((raw >> 6) & 0b11 <= 3) by (bit_vector);
        }
        if b == 0 {
            TransportCap::Unicast
        } else if b == 1 {
            TransportCap::Multicast
        } else {
            TransportCap::Raweth
        }
    }

    pub fn set_transport(&mut self, t: TransportCap)
        ensures
            final(self).transport_sel() == transport_cap_bits(t),
            final(self).flow_sel() == old(self).flow_sel(),
            final(self).reliable_bit() == old(self).reliable_bit(),
    {
        let bits: u8 = match t {
            TransportCap::Unicast => 0,
            TransportCap::Multicast => 1,
            TransportCap::Raweth => 2,
        };
        let b0 = self.0;
        self.0 = (self.0 & 0b0011_1111) | (bits << 6);
        proof {
            assert(bits <= 2 ==> ((((b0 & 0b0011_1111) | (bits << 6)) >> 6) & 0b11 == bits
                && (((b0 & 0b0011_1111) | (bits << 6)) >> 5) & 0b1 == (b0 >> 5) & 0b1
                && (((b0 & 0b0011_1111) | (bits << 6)) >> 4) & 0b1 == (b0 >> 4) & 0b1))
                by (bit_vector);
        }
    }

    pub fn flow(&self) -> (r: TransportFlow)
        ensures
            transport_flow_bits(r) == self.flow_sel(),
    {
        let raw = self.0;
        let b = (raw >> 5) & 0b1;
        proof {
            assert((raw >> 5) & 0b1 <= 1) by (bit_vector);
        }
        if b == 0 {
            TransportFlow::DATAGRAM
        } else {
            TransportFlow::STREAM
        }
    }

    pub fn set_flow(&mut self, f: TransportFlow)
        ensures
            final(self).flow_sel() == transport_flow_bits(f),
            final(self).transport_sel() == old(self).transport_sel(),
            final(self).reliable_bit() == old(self).reliable_bit(),
    {
        let bits: u8 = match f {
            TransportFlow::DATAGRAM => 0,
            TransportFlow::STREAM => 1,
        };
        let b0 = self.0;
        self.0 = (self.0 & 0b1101_1111) | (bits << 5);
        proof {
            assert(bits <= 1 ==> ((((b0 & 0b1101_1111) | (bits << 5)) >> 5) & 0b1 == bits
                && (((b0 & 0b1101_1111) | (bits << 5)) >> 6) & 0b11 == (b0 >> 6) & 0b11
                && (((b0 & 0b1101_1111) | (bits << 5)) >> 4) & 0b1 == (b0 >> 4) & 0b1))
                by (bit_vector);
        }
    }

    pub fn reliable(&self) -> (r: bool)
        ensures
            r == self.reliable_bit(),
    {
        (self.0 >> 4) & 0b1 == 1
    }

    pub fn set_reliable(&mut self, rel: bool)
        ensures
            final(self).reliable_bit() == rel,
            final(self).transport_sel() == old(self).transport_sel(),
            final(self).flow_sel() == old(self).flow_sel(),
    {
        let b0 = self.0;
        if rel {
            self.0 = self.0 | 0b0001_0000;
            proof {
                assert(((b0 | 0b0001_0000) >> 4) & 0b1 == 1
                    && ((b0 | 0b0001_0000) >> 6) & 0b11 == (b0 >> 6) & 0b11
                    && ((b0 | 0b0001_0000) >> 5) & 0b1 == (b0 >> 5) & 0b1) by (bit_vector);
            }
        } else {
            self.0 = self.0 & 0b1110_1111;
            proof {
                assert(((b0 & 0b1110_1111) >> 4) & 0b1 == 0
                    && ((b0 & 0b1110_1111) >> 6) & 0b11 == (b0 >> 6) & 0b11
                    && ((b0 & 0b1110_1111) >> 5) & 0b1 == (b0 >> 5) & 0b1) by (bit_vector);
            }
        }
    }
}

impl Default for LinkCapabilities {
    fn default() -> (r: LinkCapabilities)
        ensures
            r == (LinkCapabilities(0)),
    {
        LinkCapabilities(0)
    }
}

/// Creates the link for an endpoint and runs its connect exchange.
pub fn open<L: LinkIntf, E: Endpoint<L = L>>(ep: E) -> (r: Result<Link<L>, LinkError>)
    ensures
        r matches Ok(l) ==> l.cap.transport_sel() <= 2 && l.log@ == Seq::<LinkEvent>::empty(),
{
    let mut l = E::create_link_from_endpoint(ep);
    match l.open() {
        Ok(()) => Ok(l),
        Err(e) => Err(e),
    }
}

} // verus!
