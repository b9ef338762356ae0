//! The frame codec: one WebSocket frame decoded from or encoded onto a
//! byte buffer, with the masking XOR applied where the role demands it.
//!
//! The wire format is stated twice: once as spec functions
//! (`frame_bytes`, `parse_spec`) that define the mathematical meaning of
//! a frame on the wire, and once as executable code (`encode_frame`,
//! `decode_one`) proved to match them.  The round-trip laws relating the
//! two directions live at the bottom of the file.

use vstd::prelude::*;

use crate::error::InvalidFrame;
use crate::MAX_FRAME_PAYLOAD_SIZE;

verus! {

/// Which end of the connection this endpoint is.  A client masks the
/// frames it sends and expects unmasked frames; a server is the mirror
/// image.
#[derive(Debug, Clone, Copy, PartialEq, Eq, Structural)]
pub enum Role {
    Client,
    Server,
}

/// The closed set of frame opcodes.
#[derive(Debug, Clone, Copy, PartialEq, Eq, Structural)]
pub enum Opcode {
    Continuation,
    Text,
    Binary,
    Close,
    Ping,
    Pong,
}

impl Opcode {
    /// The wire value of the opcode.
    pub open spec fn value(self) -> u8 {
        match self {
            Opcode::Continuation => 0x0,
            Opcode::Text => 0x1,
            Opcode::Binary => 0x2,
            Opcode::Close => 0x8,
            Opcode::Ping => 0x9,
            Opcode::Pong => 0xA,
        }
    }

    /// Control opcodes are Close, Ping and Pong; their wire values are
    /// the ones at or above 0x8.
    pub open spec fn spec_is_control(self) -> bool {
        self.value() >= 0x8
    }

    /// True when the opcode is a control opcode.
    #[verifier::when_used_as_spec(spec_is_control)]
    pub fn is_control(self) -> (r: bool)
        ensures
            r == self.spec_is_control(),
    {
        match self {
            Opcode::Close | Opcode::Ping | Opcode::Pong => true,
            _ => false,
        }
    }

    /// The opcode encoded by a wire value, if any.
    pub open spec fn spec_of(raw: u8) -> Option<Opcode> {
        if raw == 0x0 {
            Some(Opcode::Continuation)
        } else if raw == 0x1 {
            Some(Opcode::Text)
        } else if raw == 0x2 {
            Some(Opcode::Binary)
        } else if raw == 0x8 {
            Some(Opcode::Close)
        } else if raw == 0x9 {
            Some(Opcode::Ping)
        } else if raw == 0xA {
            Some(Opcode::Pong)
        } else {
            None
        }
    }

    /// Parses a wire value; all values outside the closed set are
    /// protocol errors.
    pub fn try_from_u8(raw: u8) -> (r: Result<Opcode, InvalidFrame>)
        ensures
            Opcode::spec_of(raw) matches Some(op) ==> r == Ok::<Opcode, InvalidFrame>(op),
            Opcode::spec_of(raw) is None ==> r == Err::<Opcode, InvalidFrame>(
                InvalidFrame::Opcode(raw),
            ),
    {
        match raw {
            0x0 => Ok(Opcode::Continuation),
            0x1 => Ok(Opcode::Text),
            0x2 => Ok(Opcode::Binary),
            0x8 => Ok(Opcode::Close),
            0x9 => Ok(Opcode::Ping),
            0xA => Ok(Opcode::Pong),
            _ => Err(InvalidFrame::Opcode(raw)),
        }
    }

    /// The wire value of the opcode.
    pub fn to_u8(self) -> (v: u8)
        ensures
            v == self.value(),
    {
        match self {
            Opcode::Continuation => 0x0,
            Opcode::Text => 0x1,
            Opcode::Binary => 0x2,
            Opcode::Close => 0x8,
            Opcode::Ping => 0x9,
            Opcode::Pong => 0xA,
        }
    }
}

/// The closed set of status codes a Close frame may carry.  The reserved
/// codes 1005 and 1006 never appear on the wire and are not in the set.
#[derive(Debug, Clone, Copy, PartialEq, Eq, Structural)]
pub enum StatusCode {
    NormalClosure,
    GoingAway,
    ProtocolError,
    UnknownType,
    InconsistentData,
    PolicyViolation,
    MessageTooBig,
    UnexpectedCondition,
}

impl StatusCode {
    /// The wire value of the status code.
    pub open spec fn value(self) -> u16 {
        match self {
            StatusCode::NormalClosure => 1000,
            StatusCode::GoingAway => 1001,
            StatusCode::ProtocolError => 1002,
            StatusCode::UnknownType => 1003,
            StatusCode::InconsistentData => 1007,
            StatusCode::PolicyViolation => 1008,
            StatusCode::MessageTooBig => 1009,
            StatusCode::UnexpectedCondition => 1011,
        }
    }

    /// The status code encoded by a wire value, if any.
    pub open spec fn spec_of(raw: u16) -> Option<StatusCode> {
        if raw == 1000 {
            Some(StatusCode::NormalClosure)
        } else if raw == 1001 {
            Some(StatusCode::GoingAway)
        } else if raw == 1002 {
            Some(StatusCode::ProtocolError)
        } else if raw == 1003 {
            Some(StatusCode::UnknownType)
        } else if raw == 1007 {
            Some(StatusCode::InconsistentData)
        } else if raw == 1008 {
            Some(StatusCode::PolicyViolation)
        } else if raw == 1009 {
            Some(StatusCode::MessageTooBig)
        } else if raw == 1011 {
            Some(StatusCode::UnexpectedCondition)
        } else {
            None
        }
    }

    /// Parses a wire value; all values outside the closed set are
    /// protocol errors.
    pub fn try_from_u16(raw: u16) -> (r: Result<StatusCode, InvalidFrame>)
        ensures
            StatusCode::spec_of(raw) matches Some(c) ==> r == Ok::<StatusCode, InvalidFrame>(c),
            StatusCode::spec_of(raw) is None ==> r == Err::<StatusCode, InvalidFrame>(
                InvalidFrame::Code(raw),
            ),
    {
        match raw {
            1000 => Ok(StatusCode::NormalClosure),
            1001 => Ok(StatusCode::GoingAway),
            1002 => Ok(StatusCode::ProtocolError),
            1003 => Ok(StatusCode::UnknownType),
            1007 => Ok(StatusCode::InconsistentData),
            1008 => Ok(StatusCode::PolicyViolation),
            1009 => Ok(StatusCode::MessageTooBig),
            1011 => Ok(StatusCode::UnexpectedCondition),
            _ => Err(InvalidFrame::Code(raw)),
        }
    }

    /// The wire value of the status code.
    pub fn to_u16(self) -> (v: u16)
        ensures
            v == self.value(),
    {
        match self {
            StatusCode::NormalClosure => 1000,
            StatusCode::GoingAway => 1001,
            StatusCode::ProtocolError => 1002,
            StatusCode::UnknownType => 1003,
            StatusCode::InconsistentData => 1007,
            StatusCode::PolicyViolation => 1008,
            StatusCode::MessageTooBig => 1009,
            StatusCode::UnexpectedCondition => 1011,
        }
    }
}

/// The mathematical value of a raw frame.
#[verifier::ext_equal]
pub struct FrameView {
    pub fin: bool,
    pub opcode: Opcode,
    pub payload: Seq<u8>,
}

impl FrameView {
    /// What decoding guarantees of every frame it hands out, and what
    /// encoding expects of every frame handed to it: the payload respects
    /// the per-frame limit, and a control frame is final and short.
    pub open spec fn wf(self) -> bool {
        &&& self.payload.len() <= MAX_FRAME_PAYLOAD_SIZE
        &&& self.opcode.spec_is_control() ==> self.fin && self.payload.len() <= 125
    }
}

/// One frame, after the header has been parsed and the mask removed.
#[derive(Debug, PartialEq, Eq)]
pub struct RawFrame {
    pub fin: bool,
    pub opcode: Opcode,
    pub payload: Vec<u8>,
}

impl View for RawFrame {
    type V = FrameView;

    open spec fn view(&self) -> FrameView {
        FrameView { fin: self.fin, opcode: self.opcode, payload: self.payload@ }
    }
}

/// The four masking-key bytes, most significant first.
pub open spec fn key_bytes(key: u32) -> Seq<u8> {
    seq![
        (key / 0x1000000 % 0x100) as u8,
        (key / 0x10000 % 0x100) as u8,
        (key / 0x100 % 0x100) as u8,
        (key % 0x100) as u8,
    ]
}

/// A payload XORed with the masking key, byte `i` against key byte
/// `i mod 4`.  Applying it twice restores the payload.
pub open spec fn mask_seq(p: Seq<u8>, key: u32) -> Seq<u8> {
    p.map(|i: int, b: u8| b ^ key_bytes(key)[i % 4])
}

/// Masking is an involution: the sender's XOR is undone by the
/// receiver's.
pub proof fn lemma_mask_involution(p: Seq<u8>, key: u32)
    ensures
        mask_seq(mask_seq(p, key), key) == p,
{
    assert forall|i: int| 0 <= i < p.len() implies mask_seq(mask_seq(p, key), key)[i] == p[i] by {
        let b = p[i];
        let k = key_bytes(key)[i % 4];
        assert((b ^ k) ^ k == b) by (bit_vector);
    }
    assert(mask_seq(mask_seq(p, key), key) =~= p);
}

/// XORs the payload in place with the masking key.
pub fn xor_payload(masking_key: u32, payload: &mut Vec<u8>)
    ensures
        final(payload)@ == mask_seq(old(payload)@, masking_key),
{
    let k0: u8 = (masking_key / 0x1000000 % 0x100) as u8;
    let k1: u8 = (masking_key / 0x10000 % 0x100) as u8;
    let k2: u8 = (masking_key / 0x100 % 0x100) as u8;
    let k3: u8 = (masking_key % 0x100) as u8;
    let mut out: Vec<u8> = Vec::new();
    let mut i: usize = 0;
    while i < payload.len()
        invariant
            i <= payload@.len(),
            out@.len() == i,
            k0 == key_bytes(masking_key)[0],
            k1 == key_bytes(masking_key)[1],
            k2 == key_bytes(masking_key)[2],
            k3 == key_bytes(masking_key)[3],
            forall|j: int| 0 <= j < i ==> out@[j] == payload@[j] ^ key_bytes(masking_key)[j % 4],
        decreases payload@.len() - i,
    {
        let b = payload[i];
        let kb = if i % 4 == 0 {
            k0
        } else if i % 4 == 1 {
            k1
        } else if i % 4 == 2 {
            k2
        } else {
            k3
        };
        out.push(b ^ kb);
        i = i + 1;
    }
    proof {
        assert(out@ =~= mask_seq(payload@, masking_key));
    }
    *payload = out;
}

/// The value of two big-endian bytes.
pub open spec fn be16_val(b0: u8, b1: u8) -> int {
    (((b0 as u64) << 8) | (b1 as u64)) as int
}

/// The value of four big-endian bytes.
pub open spec fn be32_val(b0: u8, b1: u8, b2: u8, b3: u8) -> int {
    (((b0 as u32) << 24) | ((b1 as u32) << 16) | ((b2 as u32) << 8) | (b3 as u32)) as int
}

/// The value of eight big-endian bytes.
pub open spec fn be64_val(s: Seq<u8>) -> int
    recommends
        s.len() == 8,
{
    (((s[0] as u64) << 56) | ((s[1] as u64) << 48) | ((s[2] as u64) << 40) | ((s[3] as u64) << 32)
        | ((s[4] as u64) << 24) | ((s[5] as u64) << 16) | ((s[6] as u64) << 8) | (
    s[7] as u64)) as int
}

/// The outcome of parsing one frame from the front of a byte sequence:
/// more bytes are needed, the bytes break the protocol, or a complete
/// frame together with the number of bytes it occupied.
#[verifier::ext_equal]
pub enum ParseOut {
    NeedMore,
    Fail(InvalidFrame),
    Done(FrameView, int),
}

/// The meaning of the bytes at the front of the incoming stream, for a
/// receiver whose role demands masked frames (`server == true`) or
/// unmasked ones.  This is the specification the executable decoder is
/// proved against.
pub open spec fn parse_spec(server: bool, s: Seq<u8>) -> ParseOut {
    if s.len() < 1 {
        ParseOut::NeedMore
    } else {
        let o0 = s[0];
        let fin = (o0 >> 7) & 1 != 0;
        if (o0 >> 4) & 0x07 != 0 {
            ParseOut::Fail(InvalidFrame::Inconsistent)
        } else {
            match Opcode::spec_of(o0 & 0x0F) {
                None => ParseOut::Fail(InvalidFrame::Opcode(o0 & 0x0F)),
                Some(op) => {
                    if !fin && op.spec_is_control() {
                        ParseOut::Fail(InvalidFrame::Inconsistent)
                    } else if s.len() < 2 {
                        ParseOut::NeedMore
                    } else {
                        let o1 = s[1];
                        let masked = (o1 >> 7) & 1 != 0;
                        if masked != server {
                            ParseOut::Fail(InvalidFrame::PayloadSize)
                        } else {
                            parse_length_and_payload(s, fin, op, masked, o1 & 0x7F)
                        }
                    }
                },
            }
        }
    }
}

/// The tail of `parse_spec`: resolving the payload length, then the key
/// and the payload.
pub open spec fn parse_length_and_payload(
    s: Seq<u8>,
    fin: bool,
    op: Opcode,
    masked: bool,
    len7: u8,
) -> ParseOut {
    if len7 == 126 && s.len() < 4 {
        ParseOut::NeedMore
    } else if len7 == 127 && s.len() < 10 {
        ParseOut::NeedMore
    } else {
        let plen: int = if len7 <= 125 {
            len7 as int
        } else if len7 == 126 {
            be16_val(s[2], s[3])
        } else {
            be64_val(s.subrange(2, 10))
        };
        let hdr: int = if len7 <= 125 {
            2
        } else if len7 == 126 {
            4
        } else {
            10
        };
        if plen > MAX_FRAME_PAYLOAD_SIZE {
            ParseOut::Fail(InvalidFrame::PayloadSize)
        } else if op.spec_is_control() && plen > 125 {
            ParseOut::Fail(InvalidFrame::Inconsistent)
        } else if masked {
            if s.len() < hdr + 4 + plen {
                ParseOut::NeedMore
            } else {
                let key = be32_val(s[hdr], s[hdr + 1], s[hdr + 2], s[hdr + 3]);
                ParseOut::Done(
                    FrameView {
                        fin,
                        opcode: op,
                        payload: mask_seq(s.subrange(hdr + 4, hdr + 4 + plen), key as u32),
                    },
                    hdr + 4 + plen,
                )
            }
        } else {
            if s.len() < hdr + plen {
                ParseOut::NeedMore
            } else {
                ParseOut::Done(
                    FrameView { fin, opcode: op, payload: s.subrange(hdr, hdr + plen) },
                    hdr + plen,
                )
            }
        }
    }
}

/// What `decode_one` hands back when the bytes do not break the
/// protocol: either a complete frame and the count of bytes it consumed,
/// or a request for more input.
#[derive(Debug, PartialEq, Eq)]
pub enum Decoded {
    Frame(RawFrame, usize),
    Incomplete,
}

/// Copies `buf[start..end]` into a fresh buffer.
pub(crate) fn copy_range(buf: &Vec<u8>, start: usize, end: usize) -> (out: Vec<u8>)
    requires
        start <= end <= buf@.len(),
    ensures
        out@ == buf@.subrange(start as int, end as int),
{
    let mut out: Vec<u8> = Vec::new();
    let mut i: usize = start;
    while i < end
        invariant
            start <= i <= end <= buf@.len(),
            out@.len() == i - start,
            forall|j: int| 0 <= j < out@.len() ==> out@[j] == buf@[start + j],
        decreases end - i,
    {
        out.push(buf[i]);
        i = i + 1;
    }
    proof {
        assert(out@ =~= buf@.subrange(start as int, end as int));
    }
    out
}

/// Decodes one frame from the front of `buf`, for a receiver of the
/// given role.  The role fixes the masking the peer must have applied:
/// a server demands masked frames, a client unmasked ones.  The result
/// is exactly what `parse_spec` says of the bytes.
pub fn decode_one(role: Role, buf: &Vec<u8>) -> (r: Result<Decoded, InvalidFrame>)
    ensures
        ({
            let p = parse_spec(role == Role::Server, buf@);
            match r {
                Ok(Decoded::Incomplete) => p == ParseOut::NeedMore,
                Ok(Decoded::Frame(f, n)) => p == ParseOut::Done(f@, n as int) && f@.wf() && n
                    <= buf@.len(),
                Err(e) => p == ParseOut::Fail(e),
            }
        }),
{
    let server = role == Role::Server;
    let n = buf.len();
    if n < 1 {
        return Ok(Decoded::Incomplete);
    }
    let o0 = buf[0];
    let fin = (o0 >> 7) & 1 != 0;
    if (o0 >> 4) & 0x07 != 0 {
        return Err(InvalidFrame::Inconsistent);
    }
    let op = match Opcode::try_from_u8(o0 & 0x0F) {
        Ok(op) => op,
        Err(e) => {
            return Err(e);
        },
    };
    if !fin && op.is_control() {
        return Err(InvalidFrame::Inconsistent);
    }
    if n < 2 {
        return Ok(Decoded::Incomplete);
    }
    let o1 = buf[1];
    let masked = (o1 >> 7) & 1 != 0;
    if masked != server {
        return Err(InvalidFrame::PayloadSize);
    }
    let len7 = o1 & 0x7F;
    proof {
        assert(len7 <= 127) by (bit_vector)
            requires
                len7 == o1 & 0x7F,
        ;
    }
    if len7 == 126 && n < 4 {
        return Ok(Decoded::Incomplete);
    }
    if len7 == 127 && n < 10 {
        return Ok(Decoded::Incomplete);
    }
    let (plen64, hdr): (u64, usize) = if len7 <= 125 {
        (len7 as u64, 2)
    } else if len7 == 126 {
        (((buf[2] as u64) << 8) | (buf[3] as u64), 4)
    } else {
        (
            ((buf[2] as u64) << 56) | ((buf[3] as u64) << 48) | ((buf[4] as u64) << 40) | ((
            buf[5] as u64) << 32) | ((buf[6] as u64) << 24) | ((buf[7] as u64) << 16) | ((
            buf[8] as u64) << 8) | (buf[9] as u64),
            10,
        )
    };
    proof {
        if len7 == 127 {
            assert(buf@.subrange(2, 10) =~= seq![
                buf@[2],
                buf@[3],
                buf@[4],
                buf@[5],
                buf@[6],
                buf@[7],
                buf@[8],
                buf@[9],
            ]);
        }
    }
    if plen64 > MAX_FRAME_PAYLOAD_SIZE as u64 {
        return Err(InvalidFrame::PayloadSize);
    }
    let plen = plen64 as usize;
    if op.is_control() && plen > 125 {
        return Err(InvalidFrame::Inconsistent);
    }
    if masked {
        if n < hdr + 4 || n - (hdr + 4) < plen {
            return Ok(Decoded::Incomplete);
        }
        let key: u32 = ((buf[hdr] as u32) << 24) | ((buf[hdr + 1] as u32) << 16) | ((buf[hdr
            + 2] as u32) << 8) | (buf[hdr + 3] as u32);
        let mut payload = copy_range(buf, hdr + 4, hdr + 4 + plen);
        xor_payload(key, &mut payload);
        Ok(Decoded::Frame(RawFrame { fin, opcode: op, payload }, hdr + 4 + plen))
    } else {
        if n - hdr < plen {
            return Ok(Decoded::Incomplete);
        }
        let payload = copy_range(buf, hdr, hdr + plen);
        Ok(Decoded::Frame(RawFrame { fin, opcode: op, payload }, hdr + plen))
    }
}

/// The first octet: the fin bit above the opcode nibble, reserved bits
/// zero.
pub open spec fn octet0(fin: bool, op: Opcode) -> u8 {
    (if fin {
        0x80u8
    } else {
        0u8
    }) | op.value()
}

/// The seven-bit length field: the length itself when short, else the
/// marker for a 16- or 64-bit extended length.
pub open spec fn len7_of(n: nat) -> u8 {
    if n <= 125 {
        n as u8
    } else if n <= 0xFFFF {
        126u8
    } else {
        127u8
    }
}

/// The second octet: the mask bit above the seven-bit length field.
pub open spec fn octet1(masked: bool, n: nat) -> u8 {
    (if masked {
        0x80u8
    } else {
        0u8
    }) | len7_of(n)
}

/// The extended length bytes: empty, two big-endian bytes, or eight,
/// whichever is the shortest legal form.
pub open spec fn len_ext(n: nat) -> Seq<u8> {
    if n <= 125 {
        Seq::<u8>::empty()
    } else if n <= 0xFFFF {
        seq![(n / 0x100 % 0x100) as u8, (n % 0x100) as u8]
    } else {
        seq![
            (n / 0x100000000000000 % 0x100) as u8,
            (n / 0x1000000000000 % 0x100) as u8,
            (n / 0x10000000000 % 0x100) as u8,
            (n / 0x100000000 % 0x100) as u8,
            (n / 0x1000000 % 0x100) as u8,
            (n / 0x10000 % 0x100) as u8,
            (n / 0x100 % 0x100) as u8,
            (n % 0x100) as u8,
        ]
    }
}

/// The full wire image of a frame: header, extended length, and, when
/// masked, the key followed by the masked payload.
pub open spec fn frame_bytes(masked: bool, key: u32, f: FrameView) -> Seq<u8> {
    seq![octet0(f.fin, f.opcode), octet1(masked, f.payload.len())] + len_ext(f.payload.len()) + (
    if masked {
        key_bytes(key) + mask_seq(f.payload, key)
    } else {
        f.payload
    })
}

/// Encodes one frame for the wire with the given masking key; the key
/// is written and applied only when the role is `Client`.
#[verifier::rlimit(60)]
pub fn encode_frame(role: Role, frame: &RawFrame, key: u32) -> (out: Vec<u8>)
    requires
        frame@.payload.len() <= MAX_FRAME_PAYLOAD_SIZE,
    ensures
        out@ == frame_bytes(role == Role::Client, key, frame@),
{
    let masked = role == Role::Client;
    let plen = frame.payload.len();
    let fin_bit: u8 = if frame.fin {
        0x80
    } else {
        0
    };
    let o0 = fin_bit | frame.opcode.to_u8();
    let mask_bit: u8 = if masked {
        0x80
    } else {
        0
    };
    let len7: u8 = if plen <= 125 {
        plen as u8
    } else if plen <= 0xFFFF {
        126
    } else {
        127
    };
    let o1 = mask_bit | len7;
    let mut out: Vec<u8> = Vec::new();
    out.push(o0);
    out.push(o1);
    if plen > 125 && plen <= 0xFFFF {
        out.push((plen / 0x100 % 0x100) as u8);
        out.push((plen % 0x100) as u8);
    } else if plen > 0xFFFF {
        let p64 = plen as u64;
        out.push((p64 / 0x100000000000000 % 0x100) as u8);
        out.push((p64 / 0x1000000000000 % 0x100) as u8);
        out.push((p64 / 0x10000000000 % 0x100) as u8);
        out.push((p64 / 0x100000000 % 0x100) as u8);
        out.push((p64 / 0x1000000 % 0x100) as u8);
        out.push((p64 / 0x10000 % 0x100) as u8);
        out.push((p64 / 0x100 % 0x100) as u8);
        out.push((p64 % 0x100) as u8);
    }
    proof {
        assert(out@ =~= seq![o0, o1] + len_ext(frame@.payload.len()));
    }
    let ghost header = out@;
    let mut payload = copy_range(&frame.payload, 0, plen);
    proof {
        assert(payload@ =~= frame@.payload);
    }
    if masked {
        out.push((key / 0x1000000 % 0x100) as u8);
        out.push((key / 0x10000 % 0x100) as u8);
        out.push((key / 0x100 % 0x100) as u8);
        out.push((key % 0x100) as u8);
        proof {
            assert(out@ =~= header + key_bytes(key));
        }
        xor_payload(key, &mut payload);
        out.append(&mut payload);
        proof {
            assert(out@ =~= header + (key_bytes(key) + mask_seq(frame@.payload, key)));
        }
    } else {
        out.append(&mut payload);
        proof {
            assert(out@ =~= header + frame@.payload);
        }
    }
    proof {
        assert(out@ =~= frame_bytes(role == Role::Client, key, frame@));
    }
    out
}

/// Relies on `rand::random`: a value drawn from the thread-local
/// cryptographically secure generator.  Nothing can be promised of the
/// result.
pub assume_specification<T>[ rand::random::<T> ]() -> (r: T)
    where
        rand::distr::StandardUniform: rand::distr::Distribution<T>,
;

/// Encodes one frame for the wire.  A server writes the frame bare; a
/// client draws a fresh unpredictable masking key for this frame and
/// masks the payload with it.
pub fn encode_one(role: Role, frame: &RawFrame) -> (out: Vec<u8>)
    requires
        frame@.payload.len() <= MAX_FRAME_PAYLOAD_SIZE,
    ensures
        role == Role::Server ==> out@ == frame_bytes(false, 0, frame@),
        role == Role::Client ==> exists|k: u32| out@ == frame_bytes(true, k, frame@),
{
    let key: u32 = if role == Role::Client {
        rand::random()
    } else {
        0
    };
    encode_frame(role, frame, key)
}

proof fn lemma_opcode_value_of(op: Opcode)
    ensures
        Opcode::spec_of(op.value()) == Some(op),
        op.value() < 0x10,
{
    match op {
        Opcode::Continuation => assert(Opcode::spec_of(0x0) == Some(Opcode::Continuation)),
        Opcode::Text => assert(Opcode::spec_of(0x1) == Some(Opcode::Text)),
        Opcode::Binary => assert(Opcode::spec_of(0x2) == Some(Opcode::Binary)),
        Opcode::Close => assert(Opcode::spec_of(0x8) == Some(Opcode::Close)),
        Opcode::Ping => assert(Opcode::spec_of(0x9) == Some(Opcode::Ping)),
        Opcode::Pong => assert(Opcode::spec_of(0xA) == Some(Opcode::Pong)),
    }
}

proof fn lemma_octet0_bits(o: u8, f: u8, v: u8)
    by (bit_vector)
    requires
        f == 0 || f == 0x80,
        v < 0x10,
        o == f | v,
    ensures
        ((o >> 7) & 1 != 0) == (f == 0x80),
        (o >> 4) & 0x07 == 0,
        o & 0x0F == v,
{
}

proof fn lemma_octet1_bits(o: u8, m: u8, l: u8)
    by (bit_vector)
    requires
        m == 0 || m == 0x80,
        l <= 127,
        o == m | l,
    ensures
        ((o >> 7) & 1 != 0) == (m == 0x80),
        o & 0x7F == l,
{
}

proof fn lemma_be16_roundtrip(m: u64, b0: u8, b1: u8)
    by (bit_vector)
    requires
        m <= 0xFFFF,
        b0 as u64 == m / 0x100 % 0x100,
        b1 as u64 == m % 0x100,
    ensures
        ((b0 as u64) << 8) | (b1 as u64) == m,
{
}

proof fn lemma_be64_roundtrip(m: u64, b0: u8, b1: u8, b2: u8, b3: u8, b4: u8, b5: u8, b6: u8, b7: u8)
    by (bit_vector)
    requires
        b0 as u64 == m / 0x100000000000000 % 0x100,
        b1 as u64 == m / 0x1000000000000 % 0x100,
        b2 as u64 == m / 0x10000000000 % 0x100,
        b3 as u64 == m / 0x100000000 % 0x100,
        b4 as u64 == m / 0x1000000 % 0x100,
        b5 as u64 == m / 0x10000 % 0x100,
        b6 as u64 == m / 0x100 % 0x100,
        b7 as u64 == m % 0x100,
    ensures
        ((b0 as u64) << 56) | ((b1 as u64) << 48) | ((b2 as u64) << 40) | ((b3 as u64) << 32) | ((
        b4 as u64) << 24) | ((b5 as u64) << 16) | ((b6 as u64) << 8) | (b7 as u64) == m,
{
}

proof fn lemma_be32_roundtrip(k: u32, b0: u8, b1: u8, b2: u8, b3: u8)
    by (bit_vector)
    requires
        b0 as u32 == k / 0x1000000 % 0x100,
        b1 as u32 == k / 0x10000 % 0x100,
        b2 as u32 == k / 0x100 % 0x100,
        b3 as u32 == k % 0x100,
    ensures
        ((b0 as u32) << 24) | ((b1 as u32) << 16) | ((b2 as u32) << 8) | (b3 as u32) == k,
{
}


/// Establishes the header facts shared by the codec laws: how the two
/// header octets of an encoded frame parse back.
proof fn lemma_header_bits(masked: bool, key: u32, f: FrameView)
    requires
        f.wf(),
    ensures
        ({
            let o0 = octet0(f.fin, f.opcode);
            let o1 = octet1(masked, f.payload.len());
            &&& ((o0 >> 7) & 1 != 0) == f.fin
            &&& (o0 >> 4) & 0x07 == 0
            &&& o0 & 0x0F == f.opcode.value()
            &&& Opcode::spec_of(o0 & 0x0F) == Some(f.opcode)
            &&& ((o1 >> 7) & 1 != 0) == masked
            &&& o1 & 0x7F == len7_of(f.payload.len())
        }),
{
    let n = f.payload.len();
    lemma_opcode_value_of(f.opcode);
    let fbit: u8 = if f.fin {
        0x80
    } else {
        0
    };
    lemma_octet0_bits(octet0(f.fin, f.opcode), fbit, f.opcode.value());
    let mbit: u8 = if masked {
        0x80
    } else {
        0
    };
    assert(len7_of(n) <= 127);
    lemma_octet1_bits(octet1(masked, n), mbit, len7_of(n));
}

/// Every frame the encoder produces is recovered intact by the peer's
/// decoder, whatever bytes follow it on the stream: same fin bit, same
/// opcode, same payload, and the parse consumes exactly the frame's
/// bytes.  The peer expects masked frames exactly when the sender
/// masked, so the one receiver role that matches the sender is passed to
/// the parser.
#[verifier::rlimit(100)]
pub proof fn lemma_frame_round_trip(masked: bool, key: u32, f: FrameView, extra: Seq<u8>)
    requires
        f.wf(),
    ensures
        ({
            let enc = frame_bytes(masked, key, f);
            parse_spec(masked, enc + extra) == ParseOut::Done(f, enc.len() as int)
        }),
{
    let n = f.payload.len() as int;
    let enc = frame_bytes(masked, key, f);
    let s = enc + extra;
    let o0 = octet0(f.fin, f.opcode);
    let o1 = octet1(masked, f.payload.len());
    let ext = len_ext(f.payload.len());
    let tail: Seq<u8> = if masked {
        key_bytes(key) + mask_seq(f.payload, key)
    } else {
        f.payload
    };
    lemma_header_bits(masked, key, f);
    assert(s[0] == o0);
    assert(s[1] == o1);
    assert(!(!f.fin && f.opcode.spec_is_control()));
    let len7 = len7_of(f.payload.len());
    let hdr: int = if len7 <= 125 {
        2
    } else if len7 == 126 {
        4
    } else {
        10
    };
    assert(ext.len() == hdr - 2);
    assert(s.len() == 2 + ext.len() + tail.len() + extra.len());
    // The parsed payload length equals the real one.
    if n > 125 && n <= 0xFFFF {
        assert(s[2] == ext[0] && s[3] == ext[1]);
        lemma_be16_roundtrip(n as u64, ext[0], ext[1]);
        assert(be16_val(s[2], s[3]) == n);
    } else if n > 0xFFFF {
        assert(forall|i: int| 0 <= i < 8 ==> s[2 + i] == ext[i]);
        lemma_be64_roundtrip(
            n as u64,
            ext[0],
            ext[1],
            ext[2],
            ext[3],
            ext[4],
            ext[5],
            ext[6],
            ext[7],
        );
        assert(s.subrange(2, 10) =~= ext);
        assert(be64_val(s.subrange(2, 10)) == n);
    }
    if masked {
        assert(s.len() >= hdr + 4 + n);
        assert(forall|i: int| 0 <= i < 4 ==> s[hdr + i] == key_bytes(key)[i]);
        lemma_be32_roundtrip(
            key,
            key_bytes(key)[0],
            key_bytes(key)[1],
            key_bytes(key)[2],
            key_bytes(key)[3],
        );
        assert(be32_val(s[hdr], s[hdr + 1], s[hdr + 2], s[hdr + 3]) == key);
        assert(s.subrange(hdr + 4, hdr + 4 + n) =~= mask_seq(f.payload, key));
        lemma_mask_involution(f.payload, key);
        assert(mask_seq(s.subrange(hdr + 4, hdr + 4 + n), key) == f.payload);
        assert(parse_length_and_payload(s, f.fin, f.opcode, masked, len7) =~= ParseOut::Done(
            f,
            hdr + 4 + n,
        ));
        assert(enc.len() == hdr + 4 + n);
    } else {
        assert(s.len() >= hdr + n);
        assert(s.subrange(hdr, hdr + n) =~= f.payload);
        assert(parse_length_and_payload(s, f.fin, f.opcode, masked, len7) =~= ParseOut::Done(
            f,
            hdr + n,
        ));
        assert(enc.len() == hdr + n);
    }
}

/// A server-role receiver rejects every unmasked frame with
/// `PayloadSize`, whatever else the frame holds.
pub proof fn lemma_unmasked_frame_rejected(key: u32, f: FrameView, extra: Seq<u8>)
    requires
        f.wf(),
    ensures
        parse_spec(true, frame_bytes(false, key, f) + extra) == ParseOut::Fail(
            InvalidFrame::PayloadSize,
        ),
{
    let s = frame_bytes(false, key, f) + extra;
    lemma_header_bits(false, key, f);
    assert(s[0] == octet0(f.fin, f.opcode));
    assert(s[1] == octet1(false, f.payload.len()));
}

/// Every input whose first octet has any reserved bit set is rejected
/// with `Inconsistent`, for either receiver role.
pub proof fn lemma_reserved_bits_rejected(server: bool, s: Seq<u8>)
    requires
        s.len() >= 1,
        (s[0] >> 4) & 0x07 != 0,
    ensures
        parse_spec(server, s) == ParseOut::Fail(InvalidFrame::Inconsistent),
{
}

/// A control frame whose payload exceeds 125 bytes is rejected with
/// `Inconsistent`, however its sender encoded the length.
#[verifier::rlimit(60)]
pub proof fn lemma_oversized_control_rejected(masked: bool, key: u32, f: FrameView, extra: Seq<u8>)
    requires
        f.opcode.spec_is_control(),
        f.fin,
        125 < f.payload.len() <= MAX_FRAME_PAYLOAD_SIZE,
    ensures
        parse_spec(masked, frame_bytes(masked, key, f) + extra) == ParseOut::Fail(
            InvalidFrame::Inconsistent,
        ),
{
    let n = f.payload.len() as int;
    let s = frame_bytes(masked, key, f) + extra;
    let ext = len_ext(f.payload.len());
    let n8 = f.payload.len() as nat;
    let o0 = octet0(f.fin, f.opcode);
    let o1 = octet1(masked, f.payload.len());
    lemma_opcode_value_of(f.opcode);
    let fbit: u8 = if f.fin {
        0x80
    } else {
        0
    };
    lemma_octet0_bits(o0, fbit, f.opcode.value());
    let mbit: u8 = if masked {
        0x80
    } else {
        0
    };
    lemma_octet1_bits(o1, mbit, len7_of(f.payload.len()));
    assert(s[0] == o0);
    assert(s[1] == o1);
    let len7 = len7_of(f.payload.len());
    if n <= 0xFFFF {
        assert(s[2] == ext[0] && s[3] == ext[1]);
        lemma_be16_roundtrip(n as u64, ext[0], ext[1]);
        assert(be16_val(s[2], s[3]) == n);
    } else {
        assert(forall|i: int| 0 <= i < 8 ==> s[2 + i] == ext[i]);
        lemma_be64_roundtrip(
            n as u64,
            ext[0],
            ext[1],
            ext[2],
            ext[3],
            ext[4],
            ext[5],
            ext[6],
            ext[7],
        );
        assert(s.subrange(2, 10) =~= ext);
        assert(be64_val(s.subrange(2, 10)) == n);
    }
}


/// A fragmented control frame — Close, Ping or Pong with the fin bit
/// clear — is rejected with `Inconsistent`, for either receiver role,
/// before its length is even read.
pub proof fn lemma_fragmented_control_rejected(masked: bool, key: u32, f: FrameView, extra: Seq<u8>)
    requires
        f.opcode.spec_is_control(),
        !f.fin,
    ensures
        parse_spec(masked, frame_bytes(masked, key, f) + extra) == ParseOut::Fail(
            InvalidFrame::Inconsistent,
        ),
{
    let s = frame_bytes(masked, key, f) + extra;
    let o0 = octet0(f.fin, f.opcode);
    lemma_opcode_value_of(f.opcode);
    lemma_octet0_bits(o0, 0, f.opcode.value());
    assert(s[0] == o0);
}

/// A frame whose payload exceeds the per-frame cap is rejected with
/// `PayloadSize`; for a control frame past the cap this takes
/// precedence over the control-length rule.
#[verifier::rlimit(60)]
pub proof fn lemma_oversized_frame_rejected(masked: bool, key: u32, f: FrameView, extra: Seq<u8>)
    requires
        f.opcode.spec_is_control() ==> f.fin,
        MAX_FRAME_PAYLOAD_SIZE < f.payload.len() < 0x10000000000000000,
    ensures
        parse_spec(masked, frame_bytes(masked, key, f) + extra) == ParseOut::Fail(
            InvalidFrame::PayloadSize,
        ),
{
    let n = f.payload.len() as int;
    let s = frame_bytes(masked, key, f) + extra;
    let ext = len_ext(f.payload.len());
    let o0 = octet0(f.fin, f.opcode);
    let o1 = octet1(masked, f.payload.len());
    lemma_opcode_value_of(f.opcode);
    let fbit: u8 = if f.fin {
        0x80
    } else {
        0
    };
    lemma_octet0_bits(o0, fbit, f.opcode.value());
    let mbit: u8 = if masked {
        0x80
    } else {
        0
    };
    lemma_octet1_bits(o1, mbit, len7_of(f.payload.len()));
    assert(s[0] == o0);
    assert(s[1] == o1);
    assert(len7_of(f.payload.len()) == 127);
    assert(forall|i: int| 0 <= i < 8 ==> s[2 + i] == ext[i]);
    lemma_be64_roundtrip(
        n as u64,
        ext[0],
        ext[1],
        ext[2],
        ext[3],
        ext[4],
        ext[5],
        ext[6],
        ext[7],
    );
    assert(s.subrange(2, 10) =~= ext);
    assert(be64_val(s.subrange(2, 10)) == n);
}

/// Re-encoding a decoded frame is byte-identical for a server, which
/// never masks: the wire image does not depend on the key at all.
pub proof fn lemma_reencode_server(k1: u32, k2: u32, f: FrameView)
    ensures
        frame_bytes(false, k1, f) == frame_bytes(false, k2, f),
{
    assert(frame_bytes(false, k1, f) =~= frame_bytes(false, k2, f));
}

/// Re-encoding a decoded frame for a client differs only in the masking
/// key and the masked payload: the length is the same and the header,
/// fin bit, opcode and length field included, is the same.
pub proof fn lemma_reencode_client(k1: u32, k2: u32, f: FrameView)
    ensures
        frame_bytes(true, k1, f).len() == frame_bytes(true, k2, f).len(),
        frame_bytes(true, k1, f).subrange(0, 2 + len_ext(f.payload.len()).len() as int)
            == frame_bytes(true, k2, f).subrange(0, 2 + len_ext(f.payload.len()).len() as int),
{
    assert(frame_bytes(true, k1, f).subrange(0, 2 + len_ext(f.payload.len()).len() as int)
        =~= frame_bytes(true, k2, f).subrange(0, 2 + len_ext(f.payload.len()).len() as int));
}

} // verus!
