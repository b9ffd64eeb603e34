//! Serial link. One frame on the wire is
//!
//! ```text
//!  +---+------+----------------+---------+---+
//!  | H | LEN  |    PAYLOAD     |  CRC32  | 0 |
//!  +---+------+----------------+---------+---+
//!    1    2        0..1500         4       1
//! ```
//!
//! with the `H..CRC32` region byte-stuffed (see `stuffing`) so that the only
//! `0x00` on the wire is the trailing terminator. The header byte carries the
//! connect flags INIT (bit 0), ACK (bit 1) and RESET (bit 2).

use vstd::prelude::*;
use crate::iobuf::ZVec;
use crate::link::LinkError;
use crate::link::crc::{compute_crc32, crc32_of};
use crate::link::stuffing::{
    cobs_stuff,
    cobs_stuff_exec,
    cobs_unstuff,
    cobs_unstuff_exec,
    first_zero,
    lemma_first_zero,
    lemma_first_zero_is,
    lemma_stuff_round_trip,
    lemma_stuff_zero_free,
};

verus! {

/// Largest on-the-wire frame: 1500 payload + 7 fixed bytes + stuffing
/// overhead + terminator.
pub const COBS_BUF_SIZE: usize = 1517;

pub const SERIAL_CONNECT_THROTTLE_TIME_MS: u32 = 250;

pub const MAX_PAYLOAD: usize = 1500;

pub const FLAG_INIT: u8 = 0x01;

pub const FLAG_ACK: u8 = 0x02;

pub const FLAG_RESET: u8 = 0x04;

pub open spec fn le16_val(b0: u8, b1: u8) -> int {
    b0 + 256 * b1
}

pub open spec fn le32_val(b0: u8, b1: u8, b2: u8, b3: u8) -> int {
    b0 + 256 * b1 + 65536 * b2 + 16777216 * b3
}

/// Little-endian bytes of a length below 65536.
pub open spec fn le16_bytes(n: int) -> Seq<u8> {
    seq![(n % 256) as u8, (n / 256) as u8]
}

/// Little-endian bytes of a 32-bit checksum.
pub open spec fn le32_bytes(n: int) -> Seq<u8> {
    seq![(n % 256) as u8, ((n / 256) % 256) as u8, ((n / 65536) % 256) as u8, (n / 16777216) as u8]
}

/// The unstuffed frame region: header, length, payload, checksum.
pub open spec fn frame_region(header: u8, payload: Seq<u8>) -> Seq<u8> {
    seq![header] + le16_bytes(payload.len() as int) + payload + le32_bytes(
        crc32_of(payload) as int,
    )
}

/// A complete wire frame: the stuffed region and the terminator.
pub open spec fn spec_frame(header: u8, payload: Seq<u8>) -> Seq<u8> {
    cobs_stuff(frame_region(header, payload)) + seq![0u8]
}

/// What decoding the stuffed bytes of a received frame (terminator already
/// stripped) yields: the header and payload, or the exact error.
pub open spec fn spec_parse_frame(stuffed: Seq<u8>) -> Result<(u8, Seq<u8>), LinkError> {
    match cobs_unstuff(stuffed) {
        Option::None => Err(LinkError::DecodeError),
        Option::Some(region) => {
            if region.len() < 7 {
                Err(LinkError::DecodeError)
            } else {
                let wire = le16_val(region[1], region[2]);
                if wire + 7 > region.len() {
                    Err(LinkError::DecodeError)
                } else {
                    let payload = region.subrange(3, 3 + wire);
                    if crc32_of(payload) as int != le32_val(
                        region[3 + wire],
                        region[4 + wire],
                        region[5 + wire],
                        region[6 + wire],
                    ) {
                        Err(LinkError::CrcError)
                    } else {
                        Ok((region[0], payload))
                    }
                }
            }
        },
    }
}

pub proof fn lemma_le16_round(n: int)
    requires
        0 <= n < 65536,
    ensures
        le16_val((n % 256) as u8, (n / 256) as u8) == n,
{
    vstd::arithmetic::div_mod::lemma_fundamental_div_mod(n, 256);
}

proof fn lemma_le32_round(c: u32)
    ensures
        le32_val(
            (c as int % 256) as u8,
            ((c as int / 256) % 256) as u8,
            ((c as int / 65536) % 256) as u8,
            (c as int / 16777216) as u8,
        ) == c,
{
    assert(c % 256 + 256 * ((c / 256) % 256) + 65536 * ((c / 65536) % 256) + 16777216 * (c
        / 16777216) == c) by (bit_vector);
    assert(c as int % 256 == (c % 256) as int);
    assert(c as int / 256 == (c / 256) as int);
    assert(c as int / 65536 == (c / 65536) as int);
    assert(c as int / 16777216 == (c / 16777216) as int);
}

/// Unstuffing never grows the byte count.
pub proof fn lemma_unstuff_len(w: Seq<u8>)
    ensures
        cobs_unstuff(w) matches Some(r) ==> r.len() <= w.len(),
    decreases w.len(),
{
    if w.len() > 0 {
        let o = w[0] as int;
        if o >= 1 && w.len() > o {
            lemma_unstuff_len(w.skip(o));
        }
    }
}

/// A parsed payload is at least seven bytes shorter than the stuffed input.
pub proof fn lemma_parse_payload_len(stuffed: Seq<u8>)
    ensures
        spec_parse_frame(stuffed) matches Ok(ph) ==> ph.1.len() + 7 <= stuffed.len(),
{
    lemma_unstuff_len(stuffed);
}

/// Decoding a well-formed frame's stuffed bytes restores the header and the
/// payload exactly.
pub proof fn lemma_frame_round_trip(header: u8, payload: Seq<u8>)
    requires
        payload.len() <= MAX_PAYLOAD,
    ensures
        spec_parse_frame(cobs_stuff(frame_region(header, payload))) == Ok::<
            (u8, Seq<u8>),
            LinkError,
        >((header, payload)),
{
    let region = frame_region(header, payload);
    let n = payload.len() as int;
    let c = crc32_of(payload);
    lemma_stuff_round_trip(region);
    assert(region.len() == 7 + n);
    assert(region[0] == header);
    assert(region[1] == (n % 256) as u8);
    assert(region[2] == (n / 256) as u8);
    lemma_le16_round(n);
    assert(le16_val(region[1], region[2]) == n);
    assert(region.subrange(3, 3 + n) =~= payload);
    assert(region[3 + n] == (c as int % 256) as u8);
    assert(region[4 + n] == ((c as int / 256) % 256) as u8);
    assert(region[5 + n] == ((c as int / 65536) % 256) as u8);
    assert(region[6 + n] == (c as int / 16777216) as u8);
    lemma_le32_round(c);
}

/// No frame outgrows the receive buffer: stuffing a full-size region still
/// fits under the buffer cap, terminator included.
pub proof fn lemma_frame_len_bound(header: u8, payload: Seq<u8>)
    requires
        payload.len() <= MAX_PAYLOAD,
    ensures
        spec_frame(header, payload).len() <= COBS_BUF_SIZE,
{
    let region = frame_region(header, payload);
    crate::link::stuffing::lemma_stuff_len(region);
    assert(region.len() <= 1507);
    vstd::arithmetic::div_mod::lemma_div_is_ordered(region.len() as int, 1507, 254);
    assert(1507int / 254 == 5);
}

/// A frame ends in its only `0x00`: the terminator.
pub proof fn lemma_frame_zero_free(header: u8, payload: Seq<u8>)
    ensures
        spec_frame(header, payload).len() >= 2,
        spec_frame(header, payload).last() == 0,
        forall|i: int|
            0 <= i < spec_frame(header, payload).len() - 1 ==> spec_frame(header, payload)[i] != 0,
{
    let region = frame_region(header, payload);
    lemma_stuff_zero_free(region);
    let w = spec_frame(header, payload);
    assert(w.last() == 0);
    assert forall|i: int| 0 <= i < w.len() - 1 implies w[i] != 0 by {
        assert(w[i] == cobs_stuff(region)[i]);
    }
}

/// A well-formed frame at the head of the incoming stream is delimited at
/// its terminator, fits the receive buffer, parses back to its header and
/// payload exactly, and leaves the rest of the stream untouched.
pub proof fn lemma_frame_reception(header: u8, payload: Seq<u8>, rest: Seq<u8>)
    requires
        payload.len() <= MAX_PAYLOAD,
    ensures
        ({
            let s = spec_frame(header, payload) + rest;
            let fz = first_zero(s);
            &&& fz < s.len()
            &&& fz < COBS_BUF_SIZE
            &&& spec_parse_frame(s.take(fz)) == Ok::<(u8, Seq<u8>), LinkError>((header, payload))
            &&& s.skip(fz + 1) == rest
        }),
{
    let region = frame_region(header, payload);
    let stuffed = cobs_stuff(region);
    let w = spec_frame(header, payload);
    let s = w + rest;
    lemma_frame_zero_free(header, payload);
    lemma_frame_len_bound(header, payload);
    assert forall|i: int| 0 <= i < stuffed.len() implies s[i] != 0 by {
        assert(s[i] == w[i]);
    }
    assert(s[stuffed.len() as int] == w[w.len() - 1]);
    lemma_first_zero_is(s, stuffed.len() as int);
    assert(s.take(stuffed.len() as int) =~= stuffed);
    lemma_frame_round_trip(header, payload);
    assert(s.skip(stuffed.len() as int + 1) =~= rest);
}

/// Receiving on a stream that begins with a well-formed frame can only
/// deliver that frame's payload and header, and leaves the rest of the
/// stream. The premise is the disjunction `internal_read` and `recv`
/// guarantee on success, instantiated on such a stream.
pub proof fn lemma_read_of_sent_frame(
    header: u8,
    payload: Seq<u8>,
    rest: Seq<u8>,
    got_h: u8,
    got_p: Seq<u8>,
    s_after: Seq<u8>,
)
    requires
        payload.len() <= MAX_PAYLOAD,
        ({
            let s = spec_frame(header, payload) + rest;
            let fz = first_zero(s);
            ||| (fz < s.len() && fz < COBS_BUF_SIZE && spec_parse_frame(s.take(fz)) == Ok::<
                (u8, Seq<u8>),
                LinkError,
            >((got_h, got_p)) && s_after == s.skip(fz + 1))
            ||| (s.len() >= COBS_BUF_SIZE && fz >= COBS_BUF_SIZE && got_p == Seq::<u8>::empty()
                && got_h == 0 && s_after == s.skip(COBS_BUF_SIZE as int))
        }),
    ensures
        got_h == header,
        got_p == payload,
        s_after == rest,
{
    lemma_frame_reception(header, payload, rest);
}

/// Builds the complete wire frame for a payload of at most 1500 bytes.
pub fn encode_frame(header: u8, payload: &[u8]) -> (r: Result<Vec<u8>, LinkError>)
    ensures
        payload@.len() <= MAX_PAYLOAD ==> (r matches Ok(v) && v@ == spec_frame(header, payload@)),
        payload@.len() > MAX_PAYLOAD ==> (r matches Err(e) && e == LinkError::InvalidParameter),
{
    if payload.len() > MAX_PAYLOAD {
        return Err(LinkError::InvalidParameter);
    }
    let n = payload.len();
    let crc = compute_crc32(payload);
    let mut region: Vec<u8> = Vec::new();
    region.push(header);
    region.push((n % 256) as u8);
    region.push((n / 256) as u8);
    region.extend_from_slice(payload);
    region.push((crc % 256) as u8);
    region.push(((crc / 256) % 256) as u8);
    region.push(((crc / 65536) % 256) as u8);
    region.push((crc / 16777216) as u8);
    proof {
        assert(region@ =~= frame_region(header, payload@));
    }
    let mut out = cobs_stuff_exec(region.as_slice());
    out.push(0u8);
    proof {
        assert(out@ =~= spec_frame(header, payload@));
    }
    Ok(out)
}

/// Unstuffs and checks one received frame (without its terminator), handing
/// back payload and header.
pub fn deserialize_from(stuffed: &[u8]) -> (r: Result<(Vec<u8>, u8), LinkError>)
    ensures
        match r {
            Ok(ph) => spec_parse_frame(stuffed@) == Ok::<(u8, Seq<u8>), LinkError>(
                (ph.1, ph.0@),
            ),
            Err(e) => spec_parse_frame(stuffed@) == Err::<(u8, Seq<u8>), LinkError>(e),
        },
{
    let region = match cobs_unstuff_exec(stuffed) {
        Some(v) => v,
        None => {
            return Err(LinkError::DecodeError);
        },
    };
    if region.len() < 7 {
        return Err(LinkError::DecodeError);
    }
    let header = region[0];
    let wire: usize = region[1] as usize + 256 * (region[2] as usize);
    if wire + 7 > region.len() {
        return Err(LinkError::DecodeError);
    }
    let payload_slice = vstd::slice::slice_subrange(region.as_slice(), 3, 3 + wire);
    let crc = compute_crc32(payload_slice);
    let rx_crc: u32 = region[3 + wire] as u32 + 256 * (region[4 + wire] as u32) + 65536 * (region[5
        + wire] as u32) + 16777216 * (region[6 + wire] as u32);
    proof {
        assert(payload_slice@ == region@.subrange(3, 3 + le16_val(region@[1], region@[2])));
    }
    if crc != rx_crc {
        return Err(LinkError::CrcError);
    }
    let payload = vstd::slice::slice_to_vec(payload_slice);
    Ok((payload, header))
}

/// Blocking byte source: `stream()` models the bytes still to arrive, in
/// order. Board code implements this over its UART receiver.
pub trait ByteRx: Sized {
    spec fn stream(&self) -> Seq<u8>;

    fn read_byte(&mut self) -> (r: Result<u8, LinkError>)
        ensures
            r matches Ok(b) ==> old(self).stream().len() > 0 && b == old(self).stream()[0]
                && final(self).stream() == old(self).stream().skip(1),
            r is Err ==> final(self).stream() == old(self).stream(),
    ;
}

/// Blocking byte sink: `sent()` models the bytes committed so far, in order.
/// A failed write may leave any prefix of the attempted bytes behind.
pub trait ByteTx: Sized {
    spec fn sent(&self) -> Seq<u8>;

    fn write_all(&mut self, bytes: &[u8]) -> (r: Result<(), LinkError>)
        ensures
            r is Ok ==> final(self).sent() == old(self).sent() + bytes@,
            r is Err ==> exists|k: int|
                0 <= k <= bytes@.len() && final(self).sent() == old(self).sent() + bytes@.take(k),
    ;

    fn flush(&mut self) -> (r: Result<(), LinkError>)
        ensures
            final(self).sent() == old(self).sent(),
    ;
}

/// Millisecond delay source.
pub trait DelaySource: Sized {
    fn delay_ms(&mut self, ms: u32);
}

/// The wire image of `k` connect probes: that many empty INIT frames.
pub open spec fn probe_frames(k: nat) -> Seq<u8>
    decreases k,
{
    if k == 0 {
        Seq::empty()
    } else {
        probe_frames((k - 1) as nat) + spec_frame(FLAG_INIT, Seq::empty())
    }
}

/// The incoming stream begins with a frame whose header refuses the
/// connect exchange.
pub open spec fn stream_opens_with_refusal(s: Seq<u8>) -> bool {
    let fz = first_zero(s);
    fz < s.len() && fz < COBS_BUF_SIZE && (spec_parse_frame(s.take(fz)) matches Ok(ph)
        && spec_connect_action(ph.0) == ConnectAction::Refuse)
}

/// What the connect exchange does with a received header.
#[derive(Debug, Clone, Copy, PartialEq, Eq, Structural)]
pub enum ConnectAction {
    /// INIT and ACK both set: the link is in sync.
    Connected,
    /// RESET set: throttle, then probe again.
    Retry,
    /// Anything else: the link is refused.
    Refuse,
}

pub open spec fn spec_connect_action(header: u8) -> ConnectAction {
    if header & (FLAG_ACK | FLAG_INIT) == FLAG_ACK | FLAG_INIT {
        ConnectAction::Connected
    } else if header & FLAG_RESET == FLAG_RESET {
        ConnectAction::Retry
    } else {
        ConnectAction::Refuse
    }
}

/// The connect exchange's decision on a received header.
pub fn connect_action(header: u8) -> (r: ConnectAction)
    ensures
        r == spec_connect_action(header),
{
    if header & (FLAG_ACK | FLAG_INIT) == FLAG_ACK | FLAG_INIT {
        ConnectAction::Connected
    } else if header & FLAG_RESET == FLAG_RESET {
        ConnectAction::Retry
    } else {
        ConnectAction::Refuse
    }
}

/// A byte source replaying a buffer: the stream is what is left of it.
pub struct BufRx {
    pub data: Vec<u8>,
    pub pos: usize,
}

impl BufRx {
    pub fn new(data: Vec<u8>) -> (r: BufRx)
        ensures
            r.data == data,
            r.pos == 0,
    {
        BufRx { data, pos: 0 }
    }
}

impl ByteRx for BufRx {
    open spec fn stream(&self) -> Seq<u8> {
        if self.pos <= self.data@.len() {
            self.data@.skip(self.pos as int)
        } else {
            Seq::empty()
        }
    }

    fn read_byte(&mut self) -> (r: Result<u8, LinkError>) {
        if self.pos >= self.data.len() {
            proof {
                if self.pos == self.data@.len() {
                    assert(self.data@.skip(self.pos as int) =~= Seq::<u8>::empty());
                }
            }
            return Err(LinkError::IoError);
        }
        let b = self.data[self.pos];
        self.pos = self.pos + 1;
        proof {
            assert(self.data@.skip(self.pos as int) =~= old(self).data@.skip(
                old(self).pos as int,
            ).skip(1));
            assert(b == old(self).data@.skip(old(self).pos as int)[0]);
        }
        Ok(b)
    }
}

/// A byte sink capturing everything into a buffer.
pub struct BufTx {
    pub data: Vec<u8>,
}

impl BufTx {
    pub fn new() -> (r: BufTx)
        ensures
            r.data@ == Seq::<u8>::empty(),
    {
        BufTx { data: Vec::new() }
    }
}

impl ByteTx for BufTx {
    open spec fn sent(&self) -> Seq<u8> {
        self.data@
    }

    fn write_all(&mut self, bytes: &[u8]) -> (r: Result<(), LinkError>) {
        self.data.extend_from_slice(bytes);
        Ok(())
    }

    fn flush(&mut self) -> (r: Result<(), LinkError>) {
        Ok(())
    }
}

/// A delay source that only records what it was asked to wait.
pub struct RecordingDelay {
    pub calls: Vec<u32>,
}

impl RecordingDelay {
    pub fn new() -> (r: RecordingDelay)
        ensures
            r.calls@ == Seq::<u32>::empty(),
    {
        RecordingDelay { calls: Vec::new() }
    }
}

impl DelaySource for RecordingDelay {
    fn delay_ms(&mut self, ms: u32) {
        self.calls.push(ms);
    }
}

/// A serial link over a byte receiver, a byte transmitter and a delay
/// source.
pub struct SerialIntf<RX, TX, D> {
    pub rx: RX,
    pub tx: TX,
    pub delay: D,
}

impl<RX: ByteRx, TX: ByteTx, D: DelaySource> SerialIntf<RX, TX, D> {
    pub fn name(&self) -> (r: &'static str)
        ensures
            r@ == "Serial"@,
    {
        "Serial"
    }

    pub fn new(rx: RX, tx: TX, delay: D) -> (r: SerialIntf<RX, TX, D>)
        ensures
            r.rx == rx,
            r.tx == tx,
            r.delay == delay,
    {
        SerialIntf { rx, tx, delay }
    }

    /// Stuffs and transmits one frame, then flushes. On success exactly the
    /// frame bytes went out; on failure some prefix of them may have.
    fn internal_send(&mut self, header: u8, data: &[u8]) -> (r: Result<(), LinkError>)
        ensures
            final(self).rx == old(self).rx,
            final(self).delay == old(self).delay,
            r is Ok ==> data@.len() <= MAX_PAYLOAD && final(self).tx.sent() == old(
                self,
            ).tx.sent() + spec_frame(header, data@),
            data@.len() > MAX_PAYLOAD ==> (r matches Err(e) && e == LinkError::InvalidParameter),
            (data@.len() <= MAX_PAYLOAD && r is Err) ==> r == Err::<(), LinkError>(
                LinkError::IoError,
            ),
            r is Err ==> exists|k: int|
                0 <= k <= spec_frame(header, data@).len() && final(self).tx.sent() == old(
                    self,
                ).tx.sent() + spec_frame(header, data@).take(k),
    {
        let frame = match encode_frame(header, data) {
            Ok(f) => f,
            Err(e) => {
                proof {
                    assert(old(self).tx.sent() + spec_frame(header, data@).take(0) =~= old(
                        self,
                    ).tx.sent());
                }
                return Err(e);
            },
        };
        match self.tx.write_all(frame.as_slice()) {
            Ok(()) => {},
            Err(_) => {
                return Err(LinkError::IoError);
            },
        }
        match self.tx.flush() {
            Ok(()) => {},
            Err(_) => {
                proof {
                    assert(self.tx.sent() =~= old(self).tx.sent() + spec_frame(
                        header,
                        data@,
                    ).take(spec_frame(header, data@).len() as int));
                }
                return Err(LinkError::IoError);
            },
        }
        Ok(())
    }

    /// Collects wire bytes up to the terminator (or the buffer cap) and
    /// decodes them. An overlong frame is silently discarded as `(empty, 0)`.
    fn internal_read(&mut self) -> (r: Result<(Vec<u8>, u8), LinkError>)
        ensures
            final(self).tx == old(self).tx,
            final(self).delay == old(self).delay,
            r is Ok ==> final(self).rx.stream().len() < old(self).rx.stream().len(),
            r matches Ok(ph) ==> ({
                let s = old(self).rx.stream();
                let fz = first_zero(s);
                ||| (fz < s.len() && fz < COBS_BUF_SIZE && spec_parse_frame(s.take(fz)) == Ok::<
                    (u8, Seq<u8>),
                    LinkError,
                >((ph.1, ph.0@)) && final(self).rx.stream() == s.skip(fz + 1))
                ||| (s.len() >= COBS_BUF_SIZE && fz >= COBS_BUF_SIZE && ph.0@ == Seq::<u8>::empty()
                    && ph.1 == 0 && final(self).rx.stream() == s.skip(COBS_BUF_SIZE as int))
            }),
            r matches Err(e) ==> (e == LinkError::IoError || ({
                let s = old(self).rx.stream();
                let fz = first_zero(s);
                fz < s.len() && fz < COBS_BUF_SIZE && spec_parse_frame(s.take(fz)) == Err::<
                    (u8, Seq<u8>),
                    LinkError,
                >(e) && final(self).rx.stream() == s.skip(fz + 1)
            })),
            r matches Err(e) ==> (e == LinkError::IoError || e == LinkError::DecodeError || e
                == LinkError::CrcError),
            r is Err ==> exists|k: int|
                0 <= k <= old(self).rx.stream().len() && final(self).rx.stream() == old(
                    self,
                ).rx.stream().skip(k),
    {
        let ghost s = self.rx.stream();
        let mut collected: Vec<u8> = Vec::new();
        proof {
            assert(collected@ =~= s.take(0));
            assert(self.rx.stream() =~= s.skip(0));
        }
        loop
            invariant_except_break
                self.rx.stream() == s.skip(collected@.len() as int),
            invariant
                collected@.len() <= COBS_BUF_SIZE,
                collected@.len() <= s.len(),
                collected@ == s.take(collected@.len() as int),
                forall|j: int| 0 <= j < collected@.len() ==> s[j] != 0,
                self.tx == old(self).tx,
                self.delay == old(self).delay,
                s == old(self).rx.stream(),
            ensures
                collected@.len() < COBS_BUF_SIZE,
                collected@.len() < s.len(),
                first_zero(s) == collected@.len(),
                collected@ == s.take(collected@.len() as int),
                self.rx.stream() == s.skip(collected@.len() as int + 1),
                self.tx == old(self).tx,
                self.delay == old(self).delay,
            decreases COBS_BUF_SIZE - collected@.len(),
        {
            if collected.len() == COBS_BUF_SIZE {
                proof {
                    lemma_first_zero(s);
                    if first_zero(s) < COBS_BUF_SIZE {
                        assert(s[first_zero(s)] != 0);
                        assert(false);
                    }
                }
                return Ok((Vec::new(), 0));
            }
            let b = match self.rx.read_byte() {
                Ok(b) => b,
                Err(_) => {
                    proof {
                        let k = collected@.len() as int;
                        assert(0 <= k <= s.len() && self.rx.stream() == s.skip(k));
                    }
                    return Err(LinkError::IoError);
                },
            };
            proof {
                assert(s.skip(collected@.len() as int)[0] == s[collected@.len() as int]);
                assert(s.skip(collected@.len() as int).skip(1) =~= s.skip(
                    collected@.len() as int + 1,
                ));
            }
            if b == 0 {
                proof {
                    lemma_first_zero_is(s, collected@.len() as int);
                }
                break;
            }
            collected.push(b);
            proof {
                assert(collected@ =~= s.take(collected@.len() as int));
            }
        }
        let ghost fz = first_zero(s);
        let r = deserialize_from(collected.as_slice());
        match r {
            Ok((p, h)) => Ok((p, h)),
            Err(e) => {
                proof {
                    let k = fz + 1;
                    assert(0 <= k <= s.len() && self.rx.stream() == s.skip(k));
                }
                Err(e)
            },
        }
    }

    /// Sends one data frame (header zero).
    pub fn send(&mut self, data: &[u8]) -> (r: Result<(), LinkError>)
        ensures
            final(self).rx == old(self).rx,
            final(self).delay == old(self).delay,
            r is Ok ==> data@.len() <= MAX_PAYLOAD && final(self).tx.sent() == old(
                self,
            ).tx.sent() + spec_frame(0, data@),
            data@.len() > MAX_PAYLOAD ==> (r matches Err(e) && e == LinkError::InvalidParameter),
            r is Err ==> exists|k: int|
                0 <= k <= spec_frame(0, data@).len() && final(self).tx.sent() == old(
                    self,
                ).tx.sent() + spec_frame(0, data@).take(k),
    {
        self.internal_send(0, data)
    }

    /// Receives one frame's payload into `buf`, returning its length.
    pub fn recv(&mut self, buf: &mut ZVec) -> (r: Result<usize, LinkError>)
        ensures
            final(self).tx == old(self).tx,
            final(self).delay == old(self).delay,
            r matches Ok(n) ==> final(buf)@.len() == n && final(buf).wf(),
            r matches Ok(n) ==> ({
                let s = old(self).rx.stream();
                let fz = first_zero(s);
                ||| (fz < s.len() && fz < COBS_BUF_SIZE && (exists|h: u8|
                    spec_parse_frame(s.take(fz)) == Ok::<(u8, Seq<u8>), LinkError>(
                        (h, final(buf)@),
                    )) && final(self).rx.stream() == s.skip(fz + 1))
                ||| (s.len() >= COBS_BUF_SIZE && fz >= COBS_BUF_SIZE && final(buf)@ == Seq::<
                    u8,
                >::empty() && final(self).rx.stream() == s.skip(COBS_BUF_SIZE as int))
            }),
    {
        let ghost s = self.rx.stream();
        let (payload, h) = match self.internal_read() {
            Ok(x) => x,
            Err(e) => {
                return Err(e);
            },
        };
        proof {
            let fz = first_zero(s);
            if fz < s.len() && fz < COBS_BUF_SIZE {
                lemma_parse_payload_len(s.take(fz));
            }
        }
        match buf.fill_from(payload.as_slice()) {
            Ok(()) => Ok(payload.len()),
            Err(_) => Err(LinkError::InvalidFrame),
        }
    }

    /// Runs the connect exchange: send INIT, read a frame, and decide by its
    /// header: INIT|ACK connects, RESET throttles and retries, anything else
    /// refuses the link with `IoError`. Nothing but whole INIT probes ever
    /// leaves the transmitter.
    pub fn connect(&mut self) -> (r: Result<(), LinkError>)
        ensures
            r is Ok ==> exists|k: nat|
                #[trigger] probe_frames(k) == final(self).tx.sent().skip(
                    old(self).tx.sent().len() as int,
                ) && k >= 1 && final(self).tx.sent().take(old(self).tx.sent().len() as int) == old(
                    self,
                ).tx.sent(),
            r matches Err(e) ==> (e == LinkError::IoError || e == LinkError::DecodeError || e
                == LinkError::CrcError),
            stream_opens_with_refusal(old(self).rx.stream()) ==> r == Err::<(), LinkError>(
                LinkError::IoError,
            ),
    {
        let ghost sent0 = self.tx.sent();
        let ghost probes: nat = 0;
        loop
            invariant
                sent0 == old(self).tx.sent(),
                self.tx.sent() == sent0 + probe_frames(probes),
                stream_opens_with_refusal(old(self).rx.stream()) ==> self.rx.stream() == old(
                    self,
                ).rx.stream(),
            decreases self.rx.stream().len(),
        {
            let ghost probes_in = probes;
            let empty_payload: Vec<u8> = Vec::new();
            match self.internal_send(FLAG_INIT, empty_payload.as_slice()) {
                Ok(()) => {},
                Err(e) => {
                    return Err(e);
                },
            }
            proof {
                probes = probes_in + 1;
                assert(self.tx.sent() =~= sent0 + probe_frames(probes));
            }
            let (_payload, header) = match self.internal_read() {
                Ok(x) => x,
                Err(e) => {
                    return Err(e);
                },
            };
            match connect_action(header) {
                ConnectAction::Connected => {
                    proof {
                        assert(self.tx.sent().skip(sent0.len() as int) =~= probe_frames(probes));
                        assert(self.tx.sent().take(sent0.len() as int) =~= sent0);
                        assert(probes >= 1);
                    }
                    return Ok(());
                },
                ConnectAction::Retry => {
                    self.delay.delay_ms(SERIAL_CONNECT_THROTTLE_TIME_MS);
                },
                ConnectAction::Refuse => {
                    return Err(LinkError::IoError);
                },
            }
        }
    }
}

impl<RX: ByteRx, TX: ByteTx, D: DelaySource> crate::link::LinkIntf for SerialIntf<RX, TX, D> {
    fn open(&mut self) -> (r: Result<(), LinkError>) {
        self.connect()
    }

    fn send(&mut self, msg: &[u8]) -> (r: Result<(), LinkError>) {
        self.internal_send(0, msg)
    }

    fn recv(&mut self, buf: &mut ZVec) -> (r: Result<usize, LinkError>) {
        SerialIntf::recv(self, buf)
    }
}

impl<RX: ByteRx, TX: ByteTx, D: DelaySource> crate::link::Endpoint for SerialIntf<RX, TX, D> {
    type L = SerialIntf<RX, TX, D>;

    fn create_link_from_endpoint(ep: Self) -> (r: crate::link::Link<Self::L>) {
        crate::link::Link::new(
            ep,
            1500,
            crate::link::LinkCapabilities::new(
                crate::link::TransportCap::Unicast,
                crate::link::TransportFlow::DATAGRAM,
                false,
            ),
        )
    }
}

} // verus!
