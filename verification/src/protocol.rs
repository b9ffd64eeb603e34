//! Wire primitives: the node identifier with its zero-suppressed wire
//! length, and the continuation-bit variable-length integer codec.

use vstd::prelude::*;
use crate::iobuf::{DidntRead, DidntWrite, Reader, Writer};

pub mod init;
pub mod open;
pub mod transport;
pub mod whatami;

verus! {

/// A 128-bit identifier, stored little-endian.
#[derive(Debug, Clone, Copy)]
pub struct ZenohID(pub [u8; 16]);

/// How many zero bytes end the little-endian image.
pub open spec fn trailing_zero_bytes(b: Seq<u8>) -> int
    decreases b.len(),
{
    if b.len() == 0 {
        0
    } else if b.last() != 0 {
        0
    } else {
        1 + trailing_zero_bytes(b.drop_last())
    }
}

/// Significant bytes on the wire: all but the trailing zeros, never fewer
/// than one.
pub open spec fn zid_wire_len(b: Seq<u8>) -> int {
    if b.len() - trailing_zero_bytes(b) < 1 {
        1
    } else {
        b.len() - trailing_zero_bytes(b)
    }
}

pub proof fn lemma_trailing_zero_bytes(b: Seq<u8>)
    ensures
        0 <= trailing_zero_bytes(b) <= b.len(),
        forall|i: int| b.len() - trailing_zero_bytes(b) <= i < b.len() ==> b[i] == 0,
        trailing_zero_bytes(b) < b.len() ==> b[b.len() - trailing_zero_bytes(b) - 1] != 0,
    decreases b.len(),
{
    if b.len() == 0 {
    } else if b.last() != 0 {
    } else {
        lemma_trailing_zero_bytes(b.drop_last());
        let t = trailing_zero_bytes(b);
        assert forall|i: int| b.len() - t <= i < b.len() implies b[i] == 0 by {
            if i < b.len() - 1 {
                assert(b[i] == b.drop_last()[i]);
            }
        }
        if t < b.len() {
            assert(b[b.len() - t - 1] == b.drop_last()[b.len() - t - 1 - 1 + 1]);
        }
    }
}

/// A tail of zeros preceded by the end or a non-zero byte is the count of
/// trailing zeros.
pub proof fn lemma_trailing_zero_bytes_is(b: Seq<u8>, k: int)
    requires
        0 <= k <= b.len(),
        forall|i: int| b.len() - k <= i < b.len() ==> b[i] == 0,
        k < b.len() ==> b[b.len() - k - 1] != 0,
    ensures
        trailing_zero_bytes(b) == k,
    decreases b.len(),
{
    if b.len() == 0 {
    } else if b.last() != 0 {
        assert(k == 0);
    } else {
        assert(k >= 1);
        let d = b.drop_last();
        assert forall|i: int| d.len() - (k - 1) <= i < d.len() implies d[i] == 0 by {
            assert(d[i] == b[i]);
        }
        if k - 1 < d.len() {
            assert(d[d.len() - (k - 1) - 1] == b[b.len() - k - 1]);
        }
        lemma_trailing_zero_bytes_is(d, k - 1);
    }
}

impl View for ZenohID {
    type V = Seq<u8>;

    open spec fn view(&self) -> Seq<u8> {
        self.0@
    }
}

impl ZenohID {
    pub fn from_le_bytes(bytes: [u8; 16]) -> (r: ZenohID)
        ensures
            r@ == bytes@,
    {
        ZenohID(bytes)
    }

    /// The number of bytes this identifier occupies on the wire.
    pub fn size(&self) -> (r: usize)
        ensures
            r == zid_wire_len(self@),
            1 <= r <= 16,
    {
        let mut n: usize = 16;
        while n > 0 && self.0[n - 1] == 0
            invariant
                n <= 16,
                forall|i: int| n <= i < 16 ==> self@[i] == 0,
            decreases n,
        {
            n = n - 1;
        }
        proof {
            lemma_trailing_zero_bytes_is(self@, 16 - n);
        }
        if n == 0 {
            1
        } else {
            n
        }
    }

    pub fn to_le_bytes(&self) -> (r: [u8; 16])
        ensures
            r@ == self@,
    {
        self.0
    }
}

/// Reconstructs an identifier from its wire bytes by zero-extension.
pub fn zid_from_wire(bytes: &[u8]) -> (r: ZenohID)
    requires
        bytes@.len() <= 16,
    ensures
        r@ == bytes@ + Seq::new((16 - bytes@.len()) as nat, |i: int| 0u8),
{
    let mut arr = [0u8; 16];
    let n = bytes.len();
    let mut i: usize = 0;
    while i < n
        invariant
            i <= n,
            n == bytes@.len() <= 16,
            arr@.len() == 16,
            forall|j: int| 0 <= j < i ==> arr@[j] == bytes@[j],
            forall|j: int| i <= j < 16 ==> arr@[j] == 0,
        decreases n - i,
    {
        arr[i] = *vstd::slice::slice_index_get(bytes, i);
        i = i + 1;
    }
    proof {
        assert(arr@ =~= bytes@ + Seq::new((16 - bytes@.len()) as nat, |k: int| 0u8));
    }
    ZenohID(arr)
}

/// The wire footprint of an identifier is one byte more than the significant
/// count above fifteen suppressed: `1 + max(0, 15 - trailing_zero_bytes)`,
/// which equals `max(1, 16 - trailing_zero_bytes)`.
pub proof fn lemma_identifier_wire_length(id: ZenohID)
    ensures
        zid_wire_len(id@) == 1 + (if 15 - trailing_zero_bytes(id@) < 0 {
            0int
        } else {
            15 - trailing_zero_bytes(id@)
        }),
{
    lemma_trailing_zero_bytes(id@);
}

/// The variable-length image of `v`: seven data bits per byte, high bit set
/// on every byte but the last.
pub open spec fn spec_varint(v: nat) -> Seq<u8>
    decreases v,
{
    if v < 0x80 {
        seq![v as u8]
    } else {
        seq![((v % 0x80) + 0x80) as u8] + spec_varint(v / 0x80)
    }
}

/// Reads one varint off the front of `s`: the value and how many bytes it
/// took, or `None` when the continuation never ends.
pub open spec fn spec_varint_parse(s: Seq<u8>) -> Option<(nat, int)>
    decreases s.len(),
{
    if s.len() == 0 {
        None
    } else {
        let b = s[0];
        if b < 0x80 {
            Some((b as nat, 1))
        } else {
            match spec_varint_parse(s.skip(1)) {
                None => None,
                Some(pr) => Some((((b - 0x80) + 0x80 * pr.0) as nat, pr.1 + 1)),
            }
        }
    }
}

/// Powers of 128, the per-byte radix of the varint.
pub open spec fn pow128(k: nat) -> nat
    decreases k,
{
    if k == 0 {
        1
    } else {
        128 * pow128((k - 1) as nat)
    }
}

/// Parsing after an encode restores the value, wherever the encoding stands
/// in front of other bytes.
pub proof fn lemma_varint_round_trip(v: nat, rest: Seq<u8>)
    ensures
        spec_varint_parse(spec_varint(v) + rest) == Some((v, spec_varint(v).len() as int)),
    decreases v,
{
    let w = spec_varint(v) + rest;
    if v < 0x80 {
        assert(w[0] == v as u8);
    } else {
        lemma_varint_round_trip(v / 0x80, rest);
        assert(w[0] == ((v % 0x80) + 0x80) as u8);
        assert(w[0] >= 0x80);
        assert(w.skip(1) =~= spec_varint(v / 0x80) + rest);
        assert((v % 0x80) + 0x80 * (v / 0x80) == v) by {
            vstd::arithmetic::div_mod::lemma_fundamental_div_mod(v as int, 0x80);
        }
    }
}

/// Bits needed for `v`: zero for zero.
pub open spec fn bit_length(v: nat) -> nat
    decreases v,
{
    if v == 0 {
        0
    } else {
        1 + bit_length(v / 2)
    }
}

proof fn lemma_bit_length_div128(v: nat)
    requires
        v >= 0x80,
    ensures
        bit_length(v / 0x80) == bit_length(v) - 7,
{
    vstd::arithmetic::div_mod::lemma_div_denominator(v as int, 2, 2);
    vstd::arithmetic::div_mod::lemma_div_denominator(v as int, 4, 2);
    vstd::arithmetic::div_mod::lemma_div_denominator(v as int, 8, 2);
    vstd::arithmetic::div_mod::lemma_div_denominator(v as int, 16, 2);
    vstd::arithmetic::div_mod::lemma_div_denominator(v as int, 32, 2);
    vstd::arithmetic::div_mod::lemma_div_denominator(v as int, 64, 2);
    let v1 = v / 2;
    let v2 = v / 4;
    let v3 = v / 8;
    let v4 = v / 16;
    let v5 = v / 32;
    let v6 = v / 64;
    let v7 = v / 128;
    assert(v1 / 2 == v2 && v2 / 2 == v3 && v3 / 2 == v4 && v4 / 2 == v5 && v5 / 2 == v6 && v6 / 2
        == v7);
    assert(v1 >= 0x40 && v2 >= 0x20 && v3 >= 0x10 && v4 >= 0x8 && v5 >= 0x4 && v6 >= 0x2);
    assert(bit_length(v) == 1 + bit_length(v1));
    assert(bit_length(v1) == 1 + bit_length(v2));
    assert(bit_length(v2) == 1 + bit_length(v3));
    assert(bit_length(v3) == 1 + bit_length(v4));
    assert(bit_length(v4) == 1 + bit_length(v5));
    assert(bit_length(v5) == 1 + bit_length(v6));
    assert(bit_length(v6) == 1 + bit_length(v7));
}

proof fn lemma_bit_length_lt(v: nat, k: nat)
    requires
        v < vstd::arithmetic::power2::pow2(k),
    ensures
        bit_length(v) <= k,
    decreases k,
{
    if v > 0 {
        assert(k > 0) by {
            if k == 0 {
                assert(vstd::arithmetic::power2::pow2(0) == 1) by {
                    vstd::arithmetic::power2::lemma2_to64();
                }
            }
        }
        assert(vstd::arithmetic::power2::pow2(k) == 2 * vstd::arithmetic::power2::pow2(
            (k - 1) as nat,
        )) by {
            vstd::arithmetic::power2::lemma_pow2_unfold(k);
        }
        assert(v / 2 < vstd::arithmetic::power2::pow2((k - 1) as nat)) by (nonlinear_arith)
            requires
                v < 2 * vstd::arithmetic::power2::pow2((k - 1) as nat),
        ;
        lemma_bit_length_lt(v / 2, (k - 1) as nat);
    }
}

proof fn lemma_bit_length_ge(v: nat, k: nat)
    requires
        v >= vstd::arithmetic::power2::pow2(k),
    ensures
        bit_length(v) >= k + 1,
    decreases k,
{
    assert(vstd::arithmetic::power2::pow2(k) >= 1) by {
        vstd::arithmetic::power2::lemma_pow2_pos(k);
    }
    if k == 0 {
    } else {
        assert(vstd::arithmetic::power2::pow2(k) == 2 * vstd::arithmetic::power2::pow2(
            (k - 1) as nat,
        )) by {
            vstd::arithmetic::power2::lemma_pow2_unfold(k);
        }
        assert(v / 2 >= vstd::arithmetic::power2::pow2((k - 1) as nat)) by (nonlinear_arith)
            requires
                v >= 2 * vstd::arithmetic::power2::pow2((k - 1) as nat),
        ;
        lemma_bit_length_ge(v / 2, (k - 1) as nat);
    }
}

/// The encoded length is `max(1, ceil(bit_length(v) / 7))`.
pub proof fn lemma_varint_len(v: nat)
    ensures
        spec_varint(v).len() == (if bit_length(v) == 0 {
            1int
        } else {
            (bit_length(v) + 6) as int / 7
        }),
    decreases v,
{
    vstd::arithmetic::power2::lemma2_to64();
    if v < 0x80 {
        if v > 0 {
            lemma_bit_length_lt(v, 7);
            assert(bit_length(v) >= 1);
        }
    } else {
        lemma_varint_len(v / 0x80);
        lemma_bit_length_div128(v);
        lemma_bit_length_ge(v, 7);
        let bl = bit_length(v) as int;
        assert(bl >= 8);
        assert((bl - 7 + 6) / 7 + 1 == (bl + 6) / 7) by {
            vstd::arithmetic::div_mod::lemma_div_plus_one(bl - 1, 7);
        }
    }
}

/// The encoding's shape: every byte but the last carries the continuation
/// bit, and the last does not.
pub proof fn lemma_varint_shape(v: nat)
    ensures
        spec_varint(v).last() < 0x80,
        forall|i: int| 0 <= i < spec_varint(v).len() - 1 ==> spec_varint(v)[i] >= 0x80,
    decreases v,
{
    if v >= 0x80 {
        lemma_varint_shape(v / 0x80);
        let w = spec_varint(v);
        let tail = spec_varint(v / 0x80);
        assert(w.last() == tail.last());
        assert forall|i: int| 0 <= i < w.len() - 1 implies w[i] >= 0x80 by {
            if i > 0 {
                assert(w[i] == tail[i - 1]);
            }
        }
    }
}

/// Any 64-bit value encodes in at most ten bytes.
pub proof fn lemma_varint_len_le10(v: nat)
    requires
        v <= 0xFFFFFFFFFFFFFFFF,
    ensures
        spec_varint(v).len() <= 10,
{
    lemma_varint_len(v);
    assert(vstd::arithmetic::power2::pow2(64) == 0x10000000000000000) by {
        vstd::arithmetic::power2::lemma2_to64_rest();
    }
    lemma_bit_length_lt(v, 64);
}

/// The varint codec used for leases, sequence numbers and cookie lengths.
pub struct Varint;

impl Varint {
    /// Appends the encoding of `v` to the writer, whole or not at all.
    pub fn encode<W: Writer>(writer: &mut W, v: u64) -> (r: Result<(), DidntWrite>)
        ensures
            r is Ok ==> final(writer).written() == old(writer).written() + spec_varint(v as nat)
                && final(writer).room() == old(writer).room() - spec_varint(v as nat).len(),
            r is Err ==> final(writer).written() == old(writer).written() && final(writer).room()
                == old(writer).room(),
            spec_varint(v as nat).len() <= old(writer).room() ==> r is Ok,
    {
        let mut bytes: Vec<u8> = Vec::new();
        let mut cur: u64 = v;
        proof {
            assert(bytes@ + spec_varint(cur as nat) =~= spec_varint(v as nat));
        }
        loop
            invariant_except_break
                bytes@ + spec_varint(cur as nat) == spec_varint(v as nat),
            ensures
                bytes@ == spec_varint(v as nat),
            decreases cur,
        {
            let ghost bytes0 = bytes@;
            if cur < 0x80 {
                bytes.push(cur as u8);
                proof {
                    assert(bytes@ =~= bytes0 + spec_varint(cur as nat));
                }
                break;
            }
            bytes.push((cur % 0x80 + 0x80) as u8);
            proof {
                assert(seq![((cur as nat % 0x80) + 0x80) as u8] =~= seq![(cur % 0x80 + 0x80) as u8]);
                assert(bytes@ + spec_varint((cur / 0x80) as nat) =~= bytes0 + spec_varint(
                    cur as nat,
                ));
            }
            cur = cur / 0x80;
        }
        writer.write_exact(bytes.as_slice())
    }

    /// Reads one varint, taking at most ten bytes and refusing values past
    /// the 64-bit range.
    pub fn decode<R: Reader>(reader: &mut R) -> (r: Result<u64, DidntRead>)
        ensures
            r matches Ok(v) ==> ({
                let s = old(reader).remaining();
                spec_varint_parse(s) matches Some(pr) && pr.0 == v && pr.1 <= 10
                    && final(reader).remaining() == s.skip(pr.1)
            }),
            r is Err ==> (match spec_varint_parse(old(reader).remaining()) {
                None => true,
                Some(pr) => pr.1 > 10 || pr.0 > u64::MAX,
            }),
    {
        let ghost s = old(reader).remaining();
        let mut value: u64 = 0;
        let mut mult: u64 = 1;
        let mut i: usize = 0;
        loop
            invariant
                s == old(reader).remaining(),
                i <= 9,
                i <= s.len(),
                mult == pow128(i as nat),
                value < mult,
                reader.remaining() == s.skip(i as int),
                spec_varint_parse(s) == (match spec_varint_parse(s.skip(i as int)) {
                    None => None::<(nat, int)>,
                    Some(pr) => Some(((value + mult * pr.0) as nat, i + pr.1)),
                }),
            decreases 10 - i,
        {
            proof {
                lemma_pow128_bounds(i as nat);
            }
            let b = match reader.read_u8() {
                Ok(b) => b,
                Err(e) => {
                    proof {
                        if s.skip(i as int).len() > 0 {
                            assert(false);
                        }
                    }
                    return Err(e);
                },
            };
            proof {
                assert(s.skip(i as int)[0] == b);
                assert(s.skip(i as int).skip(1) =~= s.skip(i as int + 1));
            }
            let low = b % 0x80;
            proof {
                assert(b % 0x80 < 0x80 && (b < 0x80 ==> b % 0x80 == b) && (b >= 0x80 ==> b % 0x80
                    + 0x80 == b)) by (bit_vector);
            }
            if i == 9 && low > 1 {
                // an eleventh data bit would carry past the 64-bit range
                proof {
                    let tail = s.skip(9);
                    if b < 0x80 {
                        assert(spec_varint_parse(tail) == Some((b as nat, 1int)));
                        assert(value + mult * (b as nat) > 0xFFFFFFFFFFFFFFFFu64) by (nonlinear_arith)
                            requires
                                mult == 0x8000000000000000u64,
                                b >= 2,
                                value >= 0,
                        ;
                    } else {
                        lemma_varint_parse_len(tail.skip(1));
                        match spec_varint_parse(tail.skip(1)) {
                            None => {},
                            Some(pr) => {
                                assert(spec_varint_parse(tail) == Some(
                                    (((b - 0x80) + 0x80 * pr.0) as nat, pr.1 + 1),
                                ));
                            },
                        }
                    }
                }
                return Err(DidntRead);
            }
            proof {
                assert(value + (low as u64) * mult <= u64::MAX) by (nonlinear_arith)
                    requires
                        value < mult,
                        low < 0x80,
                        i <= 8 ==> mult <= 0x100000000000000u64,
                        i == 9 ==> (mult == 0x8000000000000000u64 && low <= 1),
                        i <= 9,
                ;
            }
            let value2 = value + (low as u64) * mult;
            if b < 0x80 {
                proof {
                    assert(spec_varint_parse(s.skip(i as int)) == Some((b as nat, 1int)));
                    assert(value + mult * (b as nat) == value2) by (nonlinear_arith)
                        requires
                            low == b % 0x80,
                            b < 0x80,
                            value2 == value + (low as u64) * mult,
                    ;
                }
                return Ok(value2);
            }
            if i == 9 {
                // ten continuation bytes never fit
                proof {
                    let tail = s.skip(9);
                    lemma_varint_parse_len(tail.skip(1));
                    match spec_varint_parse(tail.skip(1)) {
                        None => {},
                        Some(pr) => {
                            assert(spec_varint_parse(tail) == Some(
                                (((b - 0x80) + 0x80 * pr.0) as nat, pr.1 + 1),
                            ));
                        },
                    }
                }
                return Err(DidntRead);
            }
            proof {
                let tail = s.skip(i as int);
                match spec_varint_parse(tail.skip(1)) {
                    None => {},
                    Some(pr) => {
                        assert(spec_varint_parse(tail) == Some(
                            (((b - 0x80) + 0x80 * pr.0) as nat, pr.1 + 1),
                        ));
                        assert(value + mult * ((b - 0x80) + 0x80 * pr.0) == value2 + (mult * 128)
                            * pr.0) by (nonlinear_arith)
                            requires
                                low == b % 0x80,
                                b >= 0x80,
                                b < 0x100,
                                value2 == value + (low as u64) * mult,
                        ;
                    },
                }
                assert(mult * 128 == pow128((i + 1) as nat)) by {
                    assert(pow128((i + 1) as nat) == 128 * pow128(i as nat));
                }
                assert(value2 < mult * 128) by (nonlinear_arith)
                    requires
                        value < mult,
                        low < 0x80,
                        value2 == value + (low as u64) * mult,
                ;
            }
            value = value2;
            mult = mult * 128;
            i = i + 1;
        }
    }
}

/// A parsed varint took at least one and at most all of the bytes.
pub proof fn lemma_varint_parse_len(s: Seq<u8>)
    ensures
        spec_varint_parse(s) matches Some(pr) ==> 1 <= pr.1 <= s.len(),
    decreases s.len(),
{
    if s.len() > 0 && s[0] >= 0x80 {
        lemma_varint_parse_len(s.skip(1));
    }
}

proof fn lemma_pow128_bounds(k: nat)
    requires
        k <= 9,
    ensures
        pow128(k) >= 1,
        k <= 8 ==> pow128(k) <= 0x100000000000000,
        k == 9 ==> pow128(k) == 0x8000000000000000,
        pow128(k) <= 0x8000000000000000,
{
    assert(pow128(0) == 1);
    assert(pow128(1) == 0x80);
    assert(pow128(2) == 0x4000);
    assert(pow128(3) == 0x200000);
    assert(pow128(4) == 0x10000000);
    assert(pow128(5) == 0x800000000);
    assert(pow128(6) == 0x40000000000);
    assert(pow128(7) == 0x2000000000000);
    assert(pow128(8) == 0x100000000000000);
    assert(pow128(9) == 0x8000000000000000);
}

} // verus!
