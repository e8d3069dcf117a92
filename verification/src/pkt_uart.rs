//! Packet-UART framing between a serial peripheral and the broker tooling.
//!
//! A frame is, in transmit order: the three preamble bytes `55 AA 5A`,
//! a one-byte destination address, a big-endian 16-bit payload length,
//! a big-endian 16-bit rolling checksum over the payload (the address
//! byte is not part of the checksum domain), and the payload itself.
//! The receiver is a resynchronising state machine over a byte stream;
//! a frame whose checksum does not match is dropped and the hunt for
//! the next preamble resumes.

use vstd::prelude::*;

verus! {

/// One step of the 16-bit rolling checksum: mix byte `x` into `state`.
pub open spec fn rd16_step(state: u16, x: u8) -> u16 {
    (((state ^ (x as u16)) as nat * 37003) % 0x10000) as u16
}

/// The rolling checksum folded left-to-right over `data`, starting from `state`.
pub open spec fn rd16_fold(state: u16, data: Seq<u8>) -> u16
    decreases data.len(),
{
    if data.len() == 0 {
        state
    } else {
        rd16_step(rd16_fold(state, data.drop_last()), data.last())
    }
}

/// Rolling-checksum state, seeded with 36683.
#[derive(Clone, Copy, Debug)]
pub struct RD16 {
    current: u16,
}

impl View for RD16 {
    type V = u16;

    closed spec fn view(&self) -> u16 {
        self.current
    }
}

impl RD16 {
    pub fn new() -> (r: Self)
        ensures
            r@ == 36683,
    {
        Self { current: 36683 }
    }

    pub fn reset(&mut self)
        ensures
            final(self)@ == 36683,
    {
        self.current = 36683;
    }

    pub fn update(&mut self, x: u8)
        ensures
            final(self)@ == rd16_step(old(self)@, x),
    {
        self.current ^= x as u16;
        self.current = self.current.wrapping_mul(37003);
    }

    pub fn update_slice(&mut self, data: &[u8])
        ensures
            final(self)@ == rd16_fold(old(self)@, data@),
    {
        let ghost start: u16 = self.current;
        for i in 0..data.len()
            invariant
                self@ == rd16_fold(start, data@.take(i as int)),
        {
            proof {
                assert(data@.take(i + 1).drop_last() =~= data@.take(i as int));
            }
            self.update(data[i]);
        }
        proof {
            assert(data@.take(data@.len() as int) =~= data@);
        }
    }

    pub fn from_data(data: &[u8]) -> (r: Self)
        ensures
            r@ == rd16_fold(36683, data@),
    {
        let mut rd16 = Self::new();
        rd16.update_slice(data);
        rd16
    }

    pub fn copy_and_append(&self, data: &[u8]) -> (r: Self)
        ensures
            r@ == rd16_fold(self@, data@),
    {
        let mut rd16 = *self;
        rd16.update_slice(data);
        rd16
    }

    pub fn get(&self) -> (r: u16)
        ensures
            r == self@,
    {
        self.current
    }

    pub fn set(&mut self, x: u16)
        ensures
            final(self)@ == x,
    {
        self.current = x;
    }
}

/// The rolling checksum is the left fold of its single-byte step:
/// folding `data` equals vstd's `fold_left` of `rd16_step` over `data`.
pub proof fn lemma_rd16_fold_is_fold_left(state: u16, data: Seq<u8>)
    ensures
        rd16_fold(state, data) == data.fold_left(state, |s: u16, x: u8| rd16_step(s, x)),
    decreases data.len(),
{
    if data.len() > 0 {
        lemma_rd16_fold_is_fold_left(state, data.drop_last());
    }
}

/// Folding a concatenation runs the checksum through both parts in order.
pub proof fn lemma_rd16_fold_concat(state: u16, a: Seq<u8>, b: Seq<u8>)
    ensures
        rd16_fold(state, a + b) == rd16_fold(rd16_fold(state, a), b),
    decreases b.len(),
{
    if b.len() == 0 {
        assert(a + b =~= a);
    } else {
        lemma_rd16_fold_concat(state, a, b.drop_last());
        assert((a + b).drop_last() =~= a + b.drop_last());
        assert((a + b).last() == b.last());
    }
}

/// Receiver position within a frame. The three hunt states look for the
/// preamble one byte at a time; on a mismatch the offending byte itself
/// is re-examined as a possible start of the preamble.
#[derive(Clone, Copy, Debug, PartialEq, Eq, Structural)]
pub enum RxState {
    Hunt0,
    Hunt1,
    Hunt2,
    Addr,
    LenHi,
    LenLo,
    CrcHi,
    CrcLo,
    Payload,
}

/// Mathematical view of the receiver: its state and the header fields
/// and payload bytes gathered so far.
#[verifier::ext_equal]
pub ghost struct RxV {
    pub state: RxState,
    pub addr: u8,
    pub len: u16,
    pub crc: u16,
    pub buf: Seq<u8>,
}

/// The receiver's starting state: hunting for the first preamble byte.
pub open spec fn rx_init() -> RxV {
    RxV { state: RxState::Hunt0, addr: 0, len: 0, crc: 0, buf: Seq::empty() }
}

/// End of a frame: emit it when the received checksum matches the
/// rolling checksum of the payload, drop it otherwise; hunt again.
pub open spec fn rx_complete(addr: u8, crc: u16, payload: Seq<u8>) -> (RxV, Option<(u8, Seq<u8>)>) {
    if crc == rd16_fold(36683, payload) {
        (rx_init(), Some((addr, payload)))
    } else {
        (rx_init(), None)
    }
}

/// One byte of input: the receiver's complete transition function.
pub open spec fn rx_step(s: RxV, b: u8) -> (RxV, Option<(u8, Seq<u8>)>) {
    match s.state {
        RxState::Hunt0 => (
            RxV { state: if b == 0x55 { RxState::Hunt1 } else { RxState::Hunt0 }, ..s },
            None,
        ),
        RxState::Hunt1 => (
            RxV {
                state: if b == 0xaa {
                    RxState::Hunt2
                } else if b == 0x55 {
                    RxState::Hunt1
                } else {
                    RxState::Hunt0
                },
                ..s
            },
            None,
        ),
        RxState::Hunt2 => (
            RxV {
                state: if b == 0x5a {
                    RxState::Addr
                } else if b == 0x55 {
                    RxState::Hunt1
                } else {
                    RxState::Hunt0
                },
                ..s
            },
            None,
        ),
        RxState::Addr => (RxV { state: RxState::LenHi, addr: b, ..s }, None),
        RxState::LenHi => (RxV { state: RxState::LenLo, len: (b as u16 * 256) as u16, ..s }, None),
        RxState::LenLo => (RxV { state: RxState::CrcHi, len: (s.len + b as u16) as u16, ..s }, None),
        RxState::CrcHi => (RxV { state: RxState::CrcLo, crc: (b as u16 * 256) as u16, ..s }, None),
        RxState::CrcLo => {
            let crc = (s.crc + b as u16) as u16;
            if s.len == 0 {
                rx_complete(s.addr, crc, Seq::empty())
            } else {
                (RxV { state: RxState::Payload, crc, buf: Seq::empty(), ..s }, None)
            }
        },
        RxState::Payload => {
            let buf = s.buf.push(b);
            if buf.len() == s.len {
                rx_complete(s.addr, s.crc, buf)
            } else {
                (RxV { buf, ..s }, None)
            }
        },
    }
}

/// The receiver run over a whole byte sequence, collecting every frame
/// it emits, in order.
pub open spec fn rx_run(s: RxV, bytes: Seq<u8>) -> (RxV, Seq<(u8, Seq<u8>)>)
    decreases bytes.len(),
{
    if bytes.len() == 0 {
        (s, Seq::empty())
    } else {
        let r1 = rx_run(s, bytes.drop_last());
        let r2 = rx_step(r1.0, bytes.last());
        (
            r2.0,
            match r2.1 {
                Some(frame) => r1.1.push(frame),
                None => r1.1,
            },
        )
    }
}

/// The bytes of one encoded frame: preamble, address, big-endian
/// length, big-endian rolling checksum of the payload, then the payload.
pub open spec fn spec_encode(addr: u8, data: Seq<u8>) -> Seq<u8> {
    seq![
        0x55u8,
        0xaau8,
        0x5au8,
        addr,
        (data.len() / 256) as u8,
        (data.len() % 256) as u8,
        (rd16_fold(36683, data) / 256) as u8,
        (rd16_fold(36683, data) % 256) as u8,
    ] + data
}

/// Encode one frame for transmission.
pub fn encode_packet(addr: u8, data: &[u8]) -> (pkt: Vec<u8>)
    requires
        data@.len() <= 0xFFFF,
    ensures
        pkt@ == spec_encode(addr, data@),
{
    let mut pkt: Vec<u8> = Vec::new();
    pkt.push(0x55);
    pkt.push(0xaa);
    pkt.push(0x5a);
    pkt.push(addr);

    let len = data.len() as u16;
    pkt.push((len / 256) as u8);
    pkt.push((len % 256) as u8);

    let rd16 = RD16::from_data(data);
    let crc = rd16.get();
    pkt.push((crc / 256) as u8);
    pkt.push((crc % 256) as u8);

    let ghost header = pkt@;
    for i in 0..data.len()
        invariant
            pkt@ == header + data@.take(i as int),
    {
        proof {
            assert(header + data@.take(i + 1) =~= (header + data@.take(i as int)).push(data@[i as int]));
        }
        pkt.push(data[i]);
    }
    proof {
        assert(data@.take(data@.len() as int) =~= data@);
        assert(header + data@ =~= spec_encode(addr, data@));
    }
    pkt
}

/// Resynchronising frame receiver over a byte stream.
pub struct PktUARTRx {
    state: RxState,
    addr: u8,
    len: u16,
    crc: u16,
    buf: Vec<u8>,
    rd16: RD16,
}

impl View for PktUARTRx {
    type V = RxV;

    closed spec fn view(&self) -> RxV {
        RxV { state: self.state, addr: self.addr, len: self.len, crc: self.crc, buf: self.buf@ }
    }
}

/// View of a list of decoded frames.
pub open spec fn frames_view(frames: Seq<(u8, Vec<u8>)>) -> Seq<(u8, Seq<u8>)> {
    frames.map_values(|f: (u8, Vec<u8>)| (f.0, f.1@))
}

/// View of one optional decoded frame.
pub open spec fn opt_frame_view(r: Option<(u8, Vec<u8>)>) -> Option<(u8, Seq<u8>)> {
    match r {
        Some(f) => Some((f.0, f.1@)),
        None => None,
    }
}

impl PktUARTRx {
    /// The running checksum always covers exactly the gathered payload
    /// bytes, the gathered bytes never reach the announced length, and
    /// outside the payload state nothing has been gathered. The two
    /// high-byte states bound the partially read big-endian fields.
    pub closed spec fn wf(&self) -> bool {
        &&& self.rd16@ == rd16_fold(36683, self.buf@)
        &&& (self.state is Payload ==> self.buf@.len() < self.len)
        &&& (!(self.state is Payload) ==> self.buf@.len() == 0)
        &&& (self.state is LenLo ==> self.len <= 0xFF00)
        &&& (self.state is CrcLo ==> self.crc <= 0xFF00)
    }

    pub fn new() -> (r: Self)
        ensures
            r@ == rx_init(),
            r.wf(),
    {
        PktUARTRx {
            state: RxState::Hunt0,
            addr: 0,
            len: 0,
            crc: 0,
            buf: Vec::new(),
            rd16: RD16::new(),
        }
    }

    fn emit(&mut self) -> (r: Option<(u8, Vec<u8>)>)
        requires
            old(self).rd16@ == rd16_fold(36683, old(self).buf@),
        ensures
            final(self)@ == rx_init(),
            final(self).wf(),
            (final(self)@, opt_frame_view(r)) == rx_complete(
                old(self)@.addr,
                old(self)@.crc,
                old(self)@.buf,
            ),
    {
        let addr = self.addr;
        let ok = self.rd16.get() == self.crc;
        let mut payload: Vec<u8> = Vec::new();
        core::mem::swap(&mut payload, &mut self.buf);
        self.state = RxState::Hunt0;
        self.addr = 0;
        self.len = 0;
        self.crc = 0;
        self.rd16.reset();
        proof {
            assert(self.buf@ =~= Seq::<u8>::empty());
            assert(self@ =~= rx_init());
        }
        if ok {
            Some((addr, payload))
        } else {
            None
        }
    }

    /// Feed one byte; a frame is returned at the moment its last
    /// payload byte arrives and its checksum matches.
    #[verifier::rlimit(100)]
    #[verifier::spinoff_prover]
    pub fn push_byte(&mut self, b: u8) -> (r: Option<(u8, Vec<u8>)>)
        requires
            old(self).wf(),
        ensures
            final(self).wf(),
            final(self)@ == rx_step(old(self)@, b).0,
            opt_frame_view(r) == rx_step(old(self)@, b).1,
    {
        match self.state {
            RxState::Hunt0 => {
                self.state = if b == 0x55 {
                    RxState::Hunt1
                } else {
                    RxState::Hunt0
                };
                None
            },
            RxState::Hunt1 => {
                self.state = if b == 0xaa {
                    RxState::Hunt2
                } else if b == 0x55 {
                    RxState::Hunt1
                } else {
                    RxState::Hunt0
                };
                None
            },
            RxState::Hunt2 => {
                self.state = if b == 0x5a {
                    RxState::Addr
                } else if b == 0x55 {
                    RxState::Hunt1
                } else {
                    RxState::Hunt0
                };
                None
            },
            RxState::Addr => {
                self.addr = b;
                self.state = RxState::LenHi;
                None
            },
            RxState::LenHi => {
                self.len = b as u16 * 256;
                self.state = RxState::LenLo;
                None
            },
            RxState::LenLo => {
                self.len = self.len + b as u16;
                self.state = RxState::CrcHi;
                None
            },
            RxState::CrcHi => {
                self.crc = b as u16 * 256;
                self.state = RxState::CrcLo;
                None
            },
            RxState::CrcLo => {
                self.crc = self.crc + b as u16;
                if self.len == 0 {
                    self.emit()
                } else {
                    self.state = RxState::Payload;
                    None
                }
            },
            RxState::Payload => {
                self.buf.push(b);
                self.rd16.update(b);
                proof {
                    assert(self.buf@.drop_last() =~= old(self).buf@);
                }
                if self.buf.len() == self.len as usize {
                    self.emit()
                } else {
                    None
                }
            },
        }
    }

    /// Feed a whole chunk of input, collecting every frame completed
    /// within it.
    pub fn push_bytes(&mut self, data: &[u8]) -> (frames: Vec<(u8, Vec<u8>)>)
        requires
            old(self).wf(),
        ensures
            final(self).wf(),
            (final(self)@, frames_view(frames@)) == rx_run(old(self)@, data@),
    {
        let mut frames: Vec<(u8, Vec<u8>)> = Vec::new();
        for i in 0..data.len()
            invariant
                self.wf(),
                (self@, frames_view(frames@)) == rx_run(old(self)@, data@.take(i as int)),
        {
            proof {
                assert(data@.take(i + 1).drop_last() =~= data@.take(i as int));
            }
            let got = self.push_byte(data[i]);
            match got {
                Some(frame) => {
                    let ghost before = frames_view(frames@);
                    frames.push(frame);
                    proof {
                        assert(frames_view(frames@) =~= before.push((frame.0, frame.1@)));
                    }
                },
                None => {},
            }
        }
        proof {
            assert(data@.take(data@.len() as int) =~= data@);
        }
        frames
    }
}


/// Whether the receiver is still hunting for a preamble.
pub open spec fn rx_hunting(st: RxState) -> bool {
    st is Hunt0 || st is Hunt1 || st is Hunt2
}

/// Whether the three preamble bytes occur anywhere in `s`.
pub open spec fn contains_preamble(s: Seq<u8>) -> bool {
    exists|i: int|
        0 <= i && i + 2 < s.len() && #[trigger] s[i] == 0x55 && s[i + 1] == 0xaa && s[i + 2]
            == 0x5a
}

/// The hunt state reached after consuming `p` with no preamble in it:
/// it remembers exactly the longest suffix of `p` that is a proper
/// prefix of the preamble.
pub open spec fn hunt_state_of(p: Seq<u8>) -> RxState {
    if p.len() >= 2 && p[p.len() - 2] == 0x55 && p[p.len() - 1] == 0xaa {
        RxState::Hunt2
    } else if p.len() >= 1 && p[p.len() - 1] == 0x55 {
        RxState::Hunt1
    } else {
        RxState::Hunt0
    }
}

/// Running one more byte is one more step.
proof fn lemma_rx_run_push(s: RxV, bytes: Seq<u8>, b: u8)
    ensures
        ({
            let r1 = rx_run(s, bytes);
            let r2 = rx_step(r1.0, b);
            rx_run(s, bytes.push(b)) == (
                r2.0,
                match r2.1 {
                    Some(f) => r1.1.push(f),
                    None => r1.1,
                },
            )
        }),
{
    assert(bytes.push(b).drop_last() =~= bytes);
}

/// A run over a concatenation is the two runs in sequence, with the
/// collected frames concatenated.
proof fn lemma_rx_run_concat(s: RxV, a: Seq<u8>, b: Seq<u8>)
    ensures
        rx_run(s, a + b).0 == rx_run(rx_run(s, a).0, b).0,
        rx_run(s, a + b).1 == rx_run(s, a).1 + rx_run(rx_run(s, a).0, b).1,
    decreases b.len(),
{
    if b.len() == 0 {
        assert(a + b =~= a);
        assert(rx_run(s, a).1 + rx_run(rx_run(s, a).0, b).1 =~= rx_run(s, a).1);
    } else {
        lemma_rx_run_concat(s, a, b.drop_last());
        assert((a + b).drop_last() =~= a + b.drop_last());
        let o1 = rx_run(s, a).1;
        let m = rx_run(rx_run(s, a).0, b.drop_last());
        let st = rx_step(m.0, b.last());
        match st.1 {
            Some(f) => {
                assert((o1 + m.1).push(f) =~= o1 + m.1.push(f));
            },
            None => {},
        }
    }
}

/// Feeding part of a payload gathers exactly those bytes and stays in
/// the payload state.
proof fn lemma_rx_run_payload_partial(s: RxV, part: Seq<u8>)
    requires
        (s.state is Payload),
        s.buf.len() + part.len() < s.len,
    ensures
        rx_run(s, part) == (RxV { buf: s.buf + part, ..s }, Seq::<(u8, Seq<u8>)>::empty()),
    decreases part.len(),
{
    if part.len() == 0 {
        assert(s.buf + part =~= s.buf);
        assert(RxV { buf: s.buf + part, ..s } =~= s);
    } else {
        lemma_rx_run_payload_partial(s, part.drop_last());
        lemma_rx_run_push(s, part.drop_last(), part.last());
        assert(part.drop_last().push(part.last()) =~= part);
        assert((s.buf + part.drop_last()).push(part.last()) =~= s.buf + part);
    }
}

/// From any hunt state, one encoded frame is decoded in full: exactly
/// its address and payload come out, and the receiver is back at the
/// initial state.
proof fn lemma_rx_frame_from_hunt(s: RxV, addr: u8, data: Seq<u8>)
    requires
        rx_hunting(s.state),
        data.len() <= 0xFFFF,
    ensures
        rx_run(s, spec_encode(addr, data)) == (rx_init(), seq![(addr, data)]),
{
    let len: u16 = data.len() as u16;
    let crc: u16 = rd16_fold(36683, data);
    let e = Seq::<u8>::empty();
    let h1 = e.push(0x55u8);
    let h2 = h1.push(0xaau8);
    let h3 = h2.push(0x5au8);
    let h4 = h3.push(addr);
    let h5 = h4.push((len / 256) as u8);
    let h6 = h5.push((len % 256) as u8);
    let h7 = h6.push((crc / 256) as u8);
    let h8 = h7.push((crc % 256) as u8);
    assert(spec_encode(addr, data) =~= h8 + data);

    lemma_rx_run_push(s, e, 0x55u8);
    let s1 = rx_run(s, h1).0;
    assert(s1 == RxV { state: RxState::Hunt1, ..s });
    lemma_rx_run_push(s, h1, 0xaau8);
    let s2 = rx_run(s, h2).0;
    assert(s2 == RxV { state: RxState::Hunt2, ..s });
    lemma_rx_run_push(s, h2, 0x5au8);
    let s3 = rx_run(s, h3).0;
    assert(s3 == RxV { state: RxState::Addr, ..s });
    lemma_rx_run_push(s, h3, addr);
    let s4 = rx_run(s, h4).0;
    assert(s4 == RxV { state: RxState::LenHi, addr, ..s });
    lemma_rx_run_push(s, h4, (len / 256) as u8);
    let s5 = rx_run(s, h5).0;
    assert(s5 == RxV { state: RxState::LenLo, addr, len: ((len / 256) * 256) as u16, ..s });
    lemma_rx_run_push(s, h5, (len % 256) as u8);
    let s6 = rx_run(s, h6).0;
    assert((len / 256) * 256 + (len % 256) == len);
    assert(s6 == RxV { state: RxState::CrcHi, addr, len, ..s });
    lemma_rx_run_push(s, h6, (crc / 256) as u8);
    let s7 = rx_run(s, h7).0;
    assert(s7 == RxV { state: RxState::CrcLo, addr, len, crc: ((crc / 256) * 256) as u16, ..s });
    lemma_rx_run_push(s, h7, (crc % 256) as u8);
    assert((crc / 256) * 256 + (crc % 256) == crc);
    assert(rx_run(s, h7).1 == Seq::<(u8, Seq<u8>)>::empty());

    if len == 0 {
        // the frame completes on the second checksum byte
        let s8 = rx_run(s, h8).0;
        assert(data =~= Seq::<u8>::empty());
        assert(s8 == rx_init());
        assert(rx_run(s, h8).1 =~= seq![(addr, data)]);
        lemma_rx_run_concat(s, h8, data);
        assert(h8 + data =~= h8);
        assert(rx_run(s, h8 + data).1 =~= seq![(addr, data)]);
    } else {
        let s8 = rx_run(s, h8).0;
        assert(s8 == RxV {
            state: RxState::Payload,
            addr,
            len,
            crc,
            buf: Seq::<u8>::empty(),
        });
        assert(rx_run(s, h8).1 == Seq::<(u8, Seq<u8>)>::empty());
        lemma_rx_run_concat(s, h8, data);
        lemma_rx_run_payload_partial(s8, data.drop_last());
        lemma_rx_run_push(s8, data.drop_last(), data.last());
        assert(data.drop_last().push(data.last()) =~= data);
        assert((s8.buf + data.drop_last()).push(data.last()) =~= data);
        let done = rx_run(s8, data);
        assert(done.0 == rx_init());
        assert(done.1 =~= seq![(addr, data)]);
        assert(rx_run(s, h8 + data).1 =~= seq![(addr, data)]);
    }
}

/// Decoding an encoded frame gives back exactly the address and payload
/// that were encoded, for every payload of at most 65535 bytes, and the
/// receiver ends where it started. In particular a payload containing
/// the preamble bytes does not cause misframing: the announced length
/// is honoured.
pub proof fn lemma_pkt_round_trip(addr: u8, data: Seq<u8>)
    requires
        data.len() <= 0xFFFF,
    ensures
        rx_run(rx_init(), spec_encode(addr, data)) == (rx_init(), seq![(addr, data)]),
{
    lemma_rx_frame_from_hunt(rx_init(), addr, data);
}

/// While no preamble has occurred, the receiver keeps hunting, emits
/// nothing, and remembers exactly the partial preamble match at the end
/// of the input.
proof fn lemma_hunt_run(s: RxV, g: Seq<u8>)
    requires
        (s.state is Hunt0),
        !contains_preamble(g),
    ensures
        rx_run(s, g).0 == (RxV { state: hunt_state_of(g), ..s }),
        rx_run(s, g).1 == Seq::<(u8, Seq<u8>)>::empty(),
    decreases g.len(),
{
    if g.len() == 0 {
        assert(RxV { state: hunt_state_of(g), ..s } =~= s);
    } else {
        let g0 = g.drop_last();
        let b = g.last();
        assert(!contains_preamble(g0)) by {
            if contains_preamble(g0) {
                let i = choose|i: int|
                    0 <= i && i + 2 < g0.len() && #[trigger] g0[i] == 0x55 && g0[i + 1] == 0xaa
                        && g0[i + 2] == 0x5a;
                assert(g[i] == 0x55 && g[i + 1] == 0xaa && g[i + 2] == 0x5a);
            }
        }
        lemma_hunt_run(s, g0);
        lemma_rx_run_push(s, g0, b);
        let h = hunt_state_of(g0);
        if h is Hunt2 && b == 0x5a {
            let i = g.len() - 3;
            assert(g[i] == 0x55 && g[i + 1] == 0xaa && g[i + 2] == 0x5a);
            assert(contains_preamble(g));
            assert(false);
        }
    }
}

/// Resynchronisation: any garbage prefix that does not contain the
/// preamble is skipped, and the frame that follows it is decoded
/// exactly as it would be on a clean stream.
pub proof fn lemma_pkt_resync(garbage: Seq<u8>, addr: u8, data: Seq<u8>)
    requires
        !contains_preamble(garbage),
        data.len() <= 0xFFFF,
    ensures
        rx_run(rx_init(), garbage + spec_encode(addr, data)) == (rx_init(), seq![(addr, data)]),
{
    lemma_rx_run_concat(rx_init(), garbage, spec_encode(addr, data));
    lemma_hunt_run(rx_init(), garbage);
    let sg = rx_run(rx_init(), garbage).0;
    lemma_rx_frame_from_hunt(sg, addr, data);
    assert(Seq::<(u8, Seq<u8>)>::empty() + seq![(addr, data)] =~= seq![(addr, data)]);
}

} // verus!

