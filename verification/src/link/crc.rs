//! CRC-32 (IEEE 802.3): reflected polynomial 0xEDB88320, initial value
//! 0xFFFFFFFF, final XOR 0xFFFFFFFF. Frames carry it over the raw payload.

use vstd::prelude::*;

verus! {

pub const CRC32_POLY: u32 = 0xEDB88320;

/// One shift-and-conditional-xor step of the reflected CRC-32.
pub open spec fn crc32_bit(s: u32) -> u32 {
    if s & 1 == 1 {
        (s >> 1) ^ CRC32_POLY
    } else {
        s >> 1
    }
}

/// `n` bit steps applied to `s`.
pub open spec fn crc32_bits(s: u32, n: nat) -> u32
    decreases n,
{
    if n == 0 {
        s
    } else {
        crc32_bit(crc32_bits(s, (n - 1) as nat))
    }
}

/// Folds one input byte into the running state.
pub open spec fn crc32_byte(s: u32, b: u8) -> u32 {
    crc32_bits(s ^ (b as u32), 8)
}

/// Running state after all bytes of `data`, starting from 0xFFFFFFFF.
pub open spec fn crc32_state(data: Seq<u8>) -> u32
    decreases data.len(),
{
    if data.len() == 0 {
        0xFFFFFFFFu32
    } else {
        crc32_byte(crc32_state(data.drop_last()), data.last())
    }
}

/// The checksum of `data`: final state XOR 0xFFFFFFFF.
pub open spec fn crc32_of(data: Seq<u8>) -> u32 {
    crc32_state(data) ^ 0xFFFFFFFFu32
}

/// The checksum of the empty sequence is zero.
pub proof fn lemma_crc32_empty()
    ensures
        crc32_of(Seq::<u8>::empty()) == 0,
{
    assert(crc32_state(Seq::<u8>::empty()) == 0xFFFFFFFFu32);
    assert(0xFFFFFFFFu32 ^ 0xFFFFFFFFu32 == 0) by (bit_vector);
}

pub fn compute_crc32(data: &[u8]) -> (r: u32)
    ensures
        r == crc32_of(data@),
{
    let n = data.len();
    let mut state: u32 = 0xFFFFFFFF;
    let mut i: usize = 0;
    while i < n
        invariant
            i <= n,
            n == data@.len(),
            state == crc32_state(data@.take(i as int)),
        decreases n - i,
    {
        let b = *vstd::slice::slice_index_get(data, i);
        state = state ^ (b as u32);
        let ghost s0 = state;
        let mut j: usize = 0;
        while j < 8
            invariant
                j <= 8,
                state == crc32_bits(s0, j as nat),
            decreases 8 - j,
        {
            if state & 1 == 1 {
                state = (state >> 1) ^ CRC32_POLY;
            } else {
                state = state >> 1;
            }
            j = j + 1;
        }
        proof {
            assert(data@.take(i + 1).drop_last() =~= data@.take(i as int));
            assert(data@.take(i + 1).last() == data@[i as int]);
        }
        i = i + 1;
    }
    proof {
        assert(data@.take(n as int) =~= data@);
    }
    state ^ 0xFFFFFFFF
}

} // verus!
