//! Zero-elimination byte stuffing for the serial framing codec.
//!
//! The stuffed region is a chain of blocks. Each block is an overhead byte
//! `o` followed by `o - 1` data bytes: `o <= 254` means the block ends where
//! the source held a `0x00` (dropped from the output), except for the final
//! block, which just ends the region; `o == 255` means 254 source bytes went
//! by without a zero and the next block continues the run. The output is
//! therefore free of `0x00`, which the framing layer uses as terminator.

use vstd::prelude::*;

verus! {

/// Index of the first `0x00` in `d`, or `d.len()` when there is none.
pub open spec fn first_zero(d: Seq<u8>) -> int
    decreases d.len(),
{
    if d.len() == 0 {
        0
    } else if d[0] == 0 {
        0
    } else {
        1 + first_zero(d.skip(1))
    }
}

/// The stuffed image of `d`: zero-free, one overhead byte per block.
pub open spec fn cobs_stuff(d: Seq<u8>) -> Seq<u8>
    decreases d.len(),
{
    let fz = first_zero(d);
    if 0 <= fz && fz < 254 && fz < d.len() {
        seq![(fz + 1) as u8] + d.take(fz) + cobs_stuff(d.skip(fz + 1))
    } else if d.len() >= 254 {
        seq![255u8] + d.take(254) + cobs_stuff(d.skip(254))
    } else {
        seq![(d.len() + 1) as u8] + d
    }
}

/// Inverse of `cobs_stuff`: `None` on a malformed chain.
pub open spec fn cobs_unstuff(w: Seq<u8>) -> Option<Seq<u8>>
    decreases w.len(),
{
    if w.len() == 0 {
        None
    } else {
        let o = w[0] as int;
        if o == 0 {
            None
        } else if w.len() < o {
            None
        } else if w.len() == o {
            Some(w.subrange(1, o))
        } else {
            match cobs_unstuff(w.skip(o)) {
                None => None,
                Some(rest) => Some(
                    w.subrange(1, o) + (if o < 255 {
                        seq![0u8]
                    } else {
                        Seq::<u8>::empty()
                    }) + rest,
                ),
            }
        }
    }
}

pub proof fn lemma_first_zero(d: Seq<u8>)
    ensures
        0 <= first_zero(d) <= d.len(),
        forall|i: int| 0 <= i < first_zero(d) ==> d[i] != 0,
        first_zero(d) < d.len() ==> d[first_zero(d)] == 0,
    decreases d.len(),
{
    if d.len() == 0 {
    } else if d[0] == 0 {
    } else {
        lemma_first_zero(d.skip(1));
        let fz = first_zero(d);
        assert forall|i: int| 0 <= i < fz implies d[i] != 0 by {
            if i > 0 {
                assert(d[i] == d.skip(1)[i - 1]);
            }
        }
        if fz < d.len() {
            assert(d[fz] == d.skip(1)[fz - 1]);
        }
    }
}

/// A position before which no zero stands, and which is the end or a zero,
/// is the first zero.
pub proof fn lemma_first_zero_is(d: Seq<u8>, k: int)
    requires
        0 <= k <= d.len(),
        forall|i: int| 0 <= i < k ==> d[i] != 0,
        k < d.len() ==> d[k] == 0,
    ensures
        first_zero(d) == k,
    decreases d.len(),
{
    if d.len() == 0 {
    } else if d[0] == 0 {
        assert(k == 0);
    } else {
        assert(k >= 1);
        assert forall|i: int| 0 <= i < k - 1 implies d.skip(1)[i] != 0 by {
            assert(d.skip(1)[i] == d[i + 1]);
        }
        if k - 1 < d.skip(1).len() {
            assert(d.skip(1)[k - 1] == d[k]);
        }
        lemma_first_zero_is(d.skip(1), k - 1);
    }
}

/// The stuffed image always holds at least the final overhead byte.
pub proof fn lemma_stuff_nonempty(d: Seq<u8>)
    ensures
        cobs_stuff(d).len() >= 1,
{
}

/// Stuffing costs at most one overhead byte per started 254-byte block.
pub proof fn lemma_stuff_len(d: Seq<u8>)
    ensures
        cobs_stuff(d).len() <= d.len() + 1 + d.len() / 254,
    decreases d.len(),
{
    lemma_first_zero(d);
    let fz = first_zero(d);
    if 0 <= fz && fz < 254 && fz < d.len() {
        let rest = d.skip(fz + 1);
        lemma_stuff_len(rest);
        assert(rest.len() <= d.len());
        vstd::arithmetic::div_mod::lemma_div_is_ordered(rest.len() as int, d.len() as int, 254);
    } else if d.len() >= 254 {
        let rest = d.skip(254);
        lemma_stuff_len(rest);
        vstd::arithmetic::div_mod::lemma_div_plus_one(rest.len() as int, 254);
        assert(1 + rest.len() as int / 254 == (254 + rest.len()) / 254);
        assert(254 + rest.len() == d.len());
    } else {
        assert(d.len() as int / 254 >= 0) by {
            vstd::arithmetic::div_mod::lemma_div_pos_is_pos(d.len() as int, 254);
        }
    }
}

/// No byte of the stuffed image is `0x00`.
pub proof fn lemma_stuff_zero_free(d: Seq<u8>)
    ensures
        forall|i: int| 0 <= i < cobs_stuff(d).len() ==> cobs_stuff(d)[i] != 0,
    decreases d.len(),
{
    lemma_first_zero(d);
    let fz = first_zero(d);
    let w = cobs_stuff(d);
    if fz < 254 && fz < d.len() {
        lemma_stuff_zero_free(d.skip(fz + 1));
        let rest = cobs_stuff(d.skip(fz + 1));
        assert forall|i: int| 0 <= i < w.len() implies w[i] != 0 by {
            if i == 0 {
            } else if i <= fz {
                assert(w[i] == d.take(fz)[i - 1]);
                assert(d[i - 1] != 0);
            } else {
                assert(w[i] == rest[i - 1 - fz]);
            }
        }
    } else if d.len() >= 254 {
        lemma_stuff_zero_free(d.skip(254));
        let rest = cobs_stuff(d.skip(254));
        assert forall|i: int| 0 <= i < w.len() implies w[i] != 0 by {
            if i == 0 {
            } else if i <= 254 {
                assert(w[i] == d.take(254)[i - 1]);
                assert(d[i - 1] != 0);
            } else {
                assert(w[i] == rest[i - 1 - 254]);
            }
        }
    } else {
        assert forall|i: int| 0 <= i < w.len() implies w[i] != 0 by {
            if i > 0 {
                assert(w[i] == d[i - 1]);
                assert(d[i - 1] != 0);
            }
        }
    }
}

/// Unstuffing inverts stuffing: the chain reproduces the source exactly.
pub proof fn lemma_stuff_round_trip(d: Seq<u8>)
    ensures
        cobs_unstuff(cobs_stuff(d)) == Some(d),
    decreases d.len(),
{
    lemma_first_zero(d);
    let fz = first_zero(d);
    let w = cobs_stuff(d);
    if fz < 254 && fz < d.len() {
        let rest = d.skip(fz + 1);
        lemma_stuff_round_trip(rest);
        lemma_stuff_nonempty(rest);
        let o = fz + 1;
        assert(w[0] == (fz + 1) as u8);
        assert(w[0] as int == o);
        assert(w.len() == 1 + fz + cobs_stuff(rest).len());
        assert(w.len() > o);
        assert(w.skip(o) =~= cobs_stuff(rest));
        assert(w.subrange(1, o) =~= d.take(fz));
        assert(d[fz] == 0);
        assert(d.take(fz) + seq![0u8] + rest =~= d);
        assert(cobs_unstuff(w) == Some(d.take(fz) + seq![0u8] + rest));
    } else if d.len() >= 254 {
        let rest = d.skip(254);
        lemma_stuff_round_trip(rest);
        lemma_stuff_nonempty(rest);
        let o = 255;
        assert(w[0] == 255u8);
        assert(w.len() == 1 + 254 + cobs_stuff(rest).len());
        assert(w.len() > o);
        assert(w.skip(o) =~= cobs_stuff(rest));
        assert(w.subrange(1, o) =~= d.take(254));
        assert(d.take(254) + Seq::<u8>::empty() + rest =~= d);
        assert(cobs_unstuff(w) == Some(d.take(254) + Seq::<u8>::empty() + rest));
    } else {
        let o = d.len() as int + 1;
        assert(w[0] == (d.len() + 1) as u8);
        assert(w[0] as int == o);
        assert(w.len() == o);
        assert(w.subrange(1, o) =~= d);
    }
}

/// Builds the stuffed image of `data`.
pub fn cobs_stuff_exec(data: &[u8]) -> (r: Vec<u8>)
    ensures
        r@ == cobs_stuff(data@),
{
    let len = data.len();
    let mut out: Vec<u8> = Vec::new();
    let mut pos: usize = 0;
    proof {
        assert(data@.skip(0) =~= data@);
    }
    loop
        invariant_except_break
            cobs_stuff(data@) == out@ + cobs_stuff(data@.skip(pos as int)),
        invariant
            pos <= len,
            len == data@.len(),
        ensures
            out@ == cobs_stuff(data@),
        decreases len - pos,
    {
        let ghost tail = data@.skip(pos as int);
        let window_end = if len - pos < 254 {
            len
        } else {
            pos + 254
        };
        let mut i = pos;
        while i < window_end && *vstd::slice::slice_index_get(data, i) != 0
            invariant
                pos <= i <= window_end <= len,
                len == data@.len(),
                window_end - pos <= 254,
                forall|j: int| pos <= j < i ==> data@[j] != 0,
            decreases window_end - i,
        {
            i = i + 1;
        }
        proof {
            assert forall|j: int| 0 <= j < i - pos implies tail[j] != 0 by {
                assert(tail[j] == data@[pos + j]);
            }
        }
        let ghost out0 = out@;
        if i < window_end {
            // a zero ends this block before the 254-byte cap
            proof {
                assert(tail[i - pos] == data@[i as int]);
                lemma_first_zero_is(tail, i - pos);
            }
            out.push((i - pos + 1) as u8);
            let block = vstd::slice::slice_subrange(data, pos, i);
            out.extend_from_slice(block);
            proof {
                let fz = first_zero(tail);
                assert(block@ =~= tail.take(fz));
                assert(data@.skip(i + 1) =~= tail.skip(fz + 1));
                assert(out@ =~= out0 + (seq![(fz + 1) as u8] + tail.take(fz)));
                assert(out@ + cobs_stuff(data@.skip(i + 1)) =~= out0 + cobs_stuff(tail));
            }
            pos = i + 1;
        } else if len - pos >= 254 {
            // 254 bytes without a zero: cap the run and continue
            proof {
                lemma_first_zero(tail);
                if first_zero(tail) < 254 {
                    assert(tail[first_zero(tail)] == data@[pos + first_zero(tail)]);
                    assert(false);
                }
            }
            out.push(255u8);
            let block = vstd::slice::slice_subrange(data, pos, pos + 254);
            out.extend_from_slice(block);
            proof {
                assert(block@ =~= tail.take(254));
                assert(data@.skip(pos + 254) =~= tail.skip(254));
                assert(out@ =~= out0 + (seq![255u8] + tail.take(254)));
                assert(out@ + cobs_stuff(data@.skip(pos + 254)) =~= out0 + cobs_stuff(tail));
            }
            pos = pos + 254;
        } else {
            // final block: everything to the end, no zero among it
            proof {
                lemma_first_zero_is(tail, i - pos);
            }
            out.push((len - pos + 1) as u8);
            let block = vstd::slice::slice_subrange(data, pos, len);
            out.extend_from_slice(block);
            proof {
                assert(block@ =~= tail);
                assert(out@ =~= out0 + (seq![(tail.len() + 1) as u8] + tail));
                assert(out@ =~= out0 + cobs_stuff(tail));
            }
            break;
        }
    }
    out
}

/// Undoes the stuffing, or reports a malformed chain.
pub fn cobs_unstuff_exec(w: &[u8]) -> (r: Option<Vec<u8>>)
    ensures
        match r {
            Some(v) => cobs_unstuff(w@) == Some(v@),
            None => cobs_unstuff(w@) is None,
        },
{
    let len = w.len();
    if len == 0 {
        return None;
    }
    let mut out: Vec<u8> = Vec::new();
    let mut pos: usize = 0;
    proof {
        assert(w@.skip(0) =~= w@);
        match cobs_unstuff(w@) {
            None => {},
            Some(v) => {
                assert(Seq::<u8>::empty() + v =~= v);
            },
        }
    }
    loop
        invariant
            pos < len,
            len == w@.len(),
            cobs_unstuff(w@) == (match cobs_unstuff(w@.skip(pos as int)) {
                None => None::<Seq<u8>>,
                Some(rest) => Some(out@ + rest),
            }),
        decreases len - pos,
    {
        let ghost tail = w@.skip(pos as int);
        let ghost out0 = out@;
        let o = *vstd::slice::slice_index_get(w, pos);
        proof {
            assert(tail[0] == w@[pos as int]);
        }
        if o == 0 {
            return None;
        }
        let o_us = o as usize;
        if len - pos < o_us {
            return None;
        }
        let block = vstd::slice::slice_subrange(w, pos + 1, pos + o_us);
        out.extend_from_slice(block);
        proof {
            assert(block@ =~= tail.subrange(1, o as int));
        }
        if len - pos == o_us {
            proof {
                assert(tail.len() == o as int);
                assert(cobs_unstuff(tail) == Some(tail.subrange(1, o as int)));
                assert(out@ =~= out0 + tail.subrange(1, o as int));
            }
            return Some(out);
        }
        if o < 255 {
            out.push(0u8);
        }
        proof {
            let mid: Seq<u8> = if o < 255 {
                seq![0u8]
            } else {
                Seq::<u8>::empty()
            };
            assert(w@.skip(pos + o_us) =~= tail.skip(o as int));
            assert(out@ =~= out0 + tail.subrange(1, o as int) + mid);
            assert(tail.len() > o as int);
            match cobs_unstuff(tail.skip(o as int)) {
                None => {
                    assert(cobs_unstuff(tail) is None);
                }
                Some(rest) => {
                    assert(cobs_unstuff(tail) == Some(tail.subrange(1, o as int) + mid + rest));
                    assert(out0 + (tail.subrange(1, o as int) + mid + rest) =~= out@ + rest);
                }
            }
        }
        pos = pos + o_us;
    }
}

} // verus!
