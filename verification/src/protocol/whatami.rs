//! The role a node declares in the fabric.

use vstd::prelude::*;

verus! {

#[derive(Debug, Clone, Copy, PartialEq, Eq, Structural)]
pub enum WhatAmI {
    Router,
    Peer,
    Client,
}

/// The two-bit wire value of a role.
pub open spec fn whatami_bits(w: WhatAmI) -> u8 {
    match w {
        WhatAmI::Router => 0b00,
        WhatAmI::Peer => 0b01,
        WhatAmI::Client => 0b10,
    }
}

impl WhatAmI {
    pub fn to_str(self) -> (r: &'static str)
        ensures
            self == WhatAmI::Router ==> r@ == "router"@,
            self == WhatAmI::Peer ==> r@ == "peer"@,
            self == WhatAmI::Client ==> r@ == "client"@,
    {
        match self {
            WhatAmI::Router => "router",
            WhatAmI::Peer => "peer",
            WhatAmI::Client => "client",
        }
    }

    /// The wire value, for the packed flags byte.
    pub fn to_bits(self) -> (r: u8)
        ensures
            r == whatami_bits(self),
    {
        match self {
            WhatAmI::Router => 0b00,
            WhatAmI::Peer => 0b01,
            WhatAmI::Client => 0b10,
        }
    }

    /// Reads a role out of the low two bits; `0b11` is reserved and refused.
    pub fn from_bits(b: u8) -> (r: Option<WhatAmI>)
        ensures
            b & 0b11 == 0b00 ==> r == Some(WhatAmI::Router),
            b & 0b11 == 0b01 ==> r == Some(WhatAmI::Peer),
            b & 0b11 == 0b10 ==> r == Some(WhatAmI::Client),
            b & 0b11 == 0b11 ==> r is None,
            r matches Some(w) ==> whatami_bits(w) == b & 0b11,
    {
        let low = b & 0b11;
        proof {
            assert(b & 0b11 <= 3) by (bit_vector);
        }
        if low == 0b00 {
            Some(WhatAmI::Router)
        } else if low == 0b01 {
            Some(WhatAmI::Peer)
        } else if low == 0b10 {
            Some(WhatAmI::Client)
        } else {
            None
        }
    }
}

impl Default for WhatAmI {
    fn default() -> (r: WhatAmI)
        ensures
            r == WhatAmI::Client,
    {
        WhatAmI::Client
    }
}

} // verus!
