//! The bit-packed packet wire format.
//!
//! A packet starts with one byte. The low two bits pick a compressed form
//! (taken branch, not-taken branch, inferable jump) carrying a 6-bit
//! timestamp delta, or the uncompressed form, whose bits 2..4 select the
//! full header. Uncompressed packets are followed by varint fields.
//!
//! Varints are little-endian base-128: seven payload bits per byte, bytes
//! ordered least-significant first, the high bit clear on continuation
//! bytes and set on the final byte.

use vstd::prelude::*;

verus! {

/// Errors of the trace pipeline, as surfaced by the parsers and the
/// reconstructor. End-of-stream is distinct from a malformed input so that
/// callers can recover from the former.
#[derive(Clone, Copy, Debug, PartialEq, Eq, Structural)]
pub enum TraceError {
    /// The input ended before a complete item could be read.
    EndOfStream,
    /// The bytes do not form a valid item (bad magic, reserved header,
    /// invalid field).
    Format,
    /// The reconstructed state contradicts the instruction index or the
    /// control-flow graph.
    Consistency,
    /// The binary is not RV64.
    UnsupportedArchitecture,
    /// An input file could not be read.
    InputIO,
}

/// The compressed-form header, held in the low two bits of the first byte.
#[derive(Clone, Copy, Debug, PartialEq, Eq, Structural)]
pub enum CHeader {
    /// Taken branch.
    CTb,
    /// Not-taken branch.
    CNt,
    /// Not applicable: the packet is uncompressed.
    CNa,
    /// Inferable jump.
    CIj,
}

/// The full header of an uncompressed packet, held in bits 2..4 of the
/// first byte.
#[derive(Clone, Copy, Debug, PartialEq, Eq, Structural)]
pub enum FHeader {
    /// Taken branch.
    FTb,
    /// Not-taken branch.
    FNt,
    /// Uninferable jump: the target comes with the packet.
    FUj,
    /// Inferable jump: the target is derived from the instruction.
    FIj,
    /// A trap: exception, interrupt or trap return.
    FTrap,
    /// A synchronization packet; ends the trace.
    FSync,
    /// Reserved; rejected.
    FVal,
    /// Reserved; rejected.
    FRes,
}

/// The trap kind of an FTrap packet, held in bits 5..7 of the first byte.
#[derive(Clone, Copy, Debug, PartialEq, Eq, Structural)]
pub enum TrapType {
    TNone,
    TException,
    TInterrupt,
    TReturn,
}

/// A decoded wire packet.
#[derive(Clone, Debug, PartialEq, Eq, Structural)]
pub struct Packet {
    pub is_compressed: bool,
    pub c_header: CHeader,
    pub f_header: FHeader,
    pub trap_type: TrapType,
    /// Target address in 2-byte parcels, as carried on the wire.
    pub target_address: u64,
    /// Trap handler address in 2-byte parcels.
    pub trap_address: u64,
    /// Timestamp delta.
    pub timestamp: u64,
}

/// Meaning of the low two bits of the first byte.
pub open spec fn c_header_of_bits(v: u8) -> CHeader {
    if v == 0 {
        CHeader::CTb
    } else if v == 1 {
        CHeader::CNt
    } else if v == 2 {
        CHeader::CNa
    } else {
        CHeader::CIj
    }
}

/// Meaning of bits 2..4 of the first byte of an uncompressed packet.
pub open spec fn f_header_of_bits(v: u8) -> FHeader {
    if v == 0 {
        FHeader::FTb
    } else if v == 1 {
        FHeader::FNt
    } else if v == 2 {
        FHeader::FUj
    } else if v == 3 {
        FHeader::FIj
    } else if v == 4 {
        FHeader::FTrap
    } else if v == 5 {
        FHeader::FSync
    } else if v == 6 {
        FHeader::FVal
    } else {
        FHeader::FRes
    }
}

/// The full header that a compressed header stands for.
pub open spec fn f_header_of_c(c: CHeader) -> FHeader {
    match c {
        CHeader::CTb => FHeader::FTb,
        CHeader::CNt => FHeader::FNt,
        CHeader::CIj => FHeader::FIj,
        CHeader::CNa => FHeader::FRes,
    }
}

/// Meaning of bits 5..7 of the first byte of a trap packet; `None` for the
/// encodings the format reserves.
pub open spec fn trap_type_of_bits(v: u8) -> Option<TrapType> {
    if v == 0 {
        Some(TrapType::TNone)
    } else if v == 1 {
        Some(TrapType::TException)
    } else if v == 2 {
        Some(TrapType::TInterrupt)
    } else if v == 4 {
        Some(TrapType::TReturn)
    } else {
        None
    }
}

impl CHeader {
    /// Decode the low two bits of a first byte.
    pub fn from_bits(v: u8) -> (r: CHeader)
        requires
            v <= 3,
        ensures
            r == c_header_of_bits(v),
    {
        if v == 0 {
            CHeader::CTb
        } else if v == 1 {
            CHeader::CNt
        } else if v == 2 {
            CHeader::CNa
        } else {
            CHeader::CIj
        }
    }
}

impl FHeader {
    /// Decode bits 2..4 of a first byte.
    pub fn from_bits(v: u8) -> (r: FHeader)
        requires
            v <= 7,
        ensures
            r == f_header_of_bits(v),
    {
        if v == 0 {
            FHeader::FTb
        } else if v == 1 {
            FHeader::FNt
        } else if v == 2 {
            FHeader::FUj
        } else if v == 3 {
            FHeader::FIj
        } else if v == 4 {
            FHeader::FTrap
        } else if v == 5 {
            FHeader::FSync
        } else if v == 6 {
            FHeader::FVal
        } else {
            FHeader::FRes
        }
    }

    /// The full header that a compressed header stands for.
    pub fn from_c(c: CHeader) -> (r: FHeader)
        requires
            c != CHeader::CNa,
        ensures
            r == f_header_of_c(c),
    {
        match c {
            CHeader::CTb => FHeader::FTb,
            CHeader::CNt => FHeader::FNt,
            CHeader::CIj => FHeader::FIj,
            CHeader::CNa => FHeader::FRes,
        }
    }
}

impl TrapType {
    /// Decode bits 5..7 of a trap packet's first byte; `None` for reserved
    /// encodings.
    pub fn from_bits(v: u8) -> (r: Option<TrapType>)
        ensures
            r == trap_type_of_bits(v),
    {
        if v == 0 {
            Some(TrapType::TNone)
        } else if v == 1 {
            Some(TrapType::TException)
        } else if v == 2 {
            Some(TrapType::TInterrupt)
        } else if v == 4 {
            Some(TrapType::TReturn)
        } else {
            None
        }
    }
}

impl Packet {
    /// The packet every parse starts from: uncompressed, reserved header,
    /// all fields zero.
    pub open spec fn spec_new() -> Packet {
        Packet {
            is_compressed: false,
            c_header: CHeader::CNa,
            f_header: FHeader::FRes,
            trap_type: TrapType::TNone,
            target_address: 0,
            trap_address: 0,
            timestamp: 0,
        }
    }

    /// A packet with default values.
    pub fn new() -> (r: Packet)
        ensures
            r == Packet::spec_new(),
    {
        Packet {
            is_compressed: false,
            c_header: CHeader::CNa,
            f_header: FHeader::FRes,
            trap_type: TrapType::TNone,
            target_address: 0,
            trap_address: 0,
            timestamp: 0,
        }
    }
}

/// Parse one varint at `pos`: collect bytes until one with the high bit
/// set, then fold most-significant byte first, seven bits each. `None`
/// when the input ends first.
pub open spec fn spec_parse_varint(bs: Seq<u8>, pos: int) -> Option<(u64, int)>
    decreases bs.len() - pos,
{
    if pos < 0 || pos >= bs.len() {
        None
    } else if bs[pos] >= 128 {
        Some((((bs[pos] & 0x7f) as u64), pos + 1))
    } else {
        match spec_parse_varint(bs, pos + 1) {
            Some((v, end)) => Some((((v << 7) | ((bs[pos] & 0x7f) as u64)) as u64, end)),
            None => None,
        }
    }
}

/// The canonical wire bytes of a varint: seven-bit groups, least
/// significant first, the high bit set on the final byte only.
pub open spec fn varint_bytes(v: u64) -> Seq<u8>
    decreases v,
{
    if v < 128 {
        seq![(v + 128) as u8]
    } else {
        seq![(v % 128) as u8] + varint_bytes(v / 128)
    }
}

/// Read one varint, advancing `pos` past it.
#[verifier::loop_isolation(false)]
pub fn read_varint(bytes: &Vec<u8>, pos: &mut usize) -> (r: Result<u64, TraceError>)
    requires
        *old(pos) <= bytes@.len(),
    ensures
        match spec_parse_varint(bytes@, *old(pos) as int) {
            Some((v, end)) => r == Ok::<u64, TraceError>(v) && *final(pos) == end && *old(pos)
                < end <= bytes@.len(),
            None => r == Err::<u64, TraceError>(TraceError::EndOfStream) && *final(pos) == *old(
                pos,
            ),
        },
{
    let start: usize = *pos;
    let mut i: usize = start;
    while i < bytes.len() && bytes[i] < 128
        invariant
            start <= i <= bytes@.len(),
            forall|k: int| start <= k < i ==> bytes@[k] < 128,
        decreases bytes@.len() - i,
    {
        i = i + 1;
    }
    if i >= bytes.len() {
        proof {
            lemma_parse_varint_no_stop(bytes@, start as int);
        }
        return Err(TraceError::EndOfStream);
    }
    // bytes[start..=i] form the varint; fold from the most significant byte
    // (the one with the stop bit) down to the first.
    let mut acc: u64 = 0;
    let mut j: usize = i + 1;
    while j > start
        invariant
            start <= j <= i + 1,
            i < bytes@.len(),
            bytes@[i as int] >= 128,
            forall|k: int| start <= k < i ==> bytes@[k] < 128,
            j <= i ==> spec_parse_varint(bytes@, j as int) == Some((acc, i + 1 as int)),
        decreases j,
    {
        j = j - 1;
        let b = bytes[j];
        if j == i {
            acc = (b & 0x7f) as u64;
        } else {
            acc = (acc << 7) | ((b & 0x7f) as u64);
        }
    }
    *pos = i + 1;
    Ok(acc)
}

/// When no byte from `pos` on has the stop bit, the varint parse fails.
proof fn lemma_parse_varint_no_stop(bs: Seq<u8>, pos: int)
    requires
        0 <= pos,
        forall|k: int| pos <= k < bs.len() ==> bs[k] < 128,
    ensures
        spec_parse_varint(bs, pos) is None,
    decreases bs.len() - pos,
{
    if pos < bs.len() {
        lemma_parse_varint_no_stop(bs, pos + 1);
    }
}

/// Write one varint in its canonical wire form.
#[verifier::loop_isolation(false)]
pub fn encode_varint(v: u64) -> (r: Vec<u8>)
    ensures
        r@ == varint_bytes(v),
{
    let mut out: Vec<u8> = Vec::new();
    let mut x: u64 = v;
    proof {
        assert(out@ + varint_bytes(x) =~= varint_bytes(v));
    }
    loop
        invariant
            out@ + varint_bytes(x) == varint_bytes(v),
        decreases x,
    {
        if x < 128 {
            out.push((x + 128) as u8);
            proof {
                assert(out@ =~= varint_bytes(v));
            }
            return out;
        }
        out.push((x % 128) as u8);
        x = x / 128;
        proof {
            assert(out@ + varint_bytes(x) =~= varint_bytes(v));
        }
    }
}

/// The low seven bits of a byte with the stop bit set.
proof fn lemma_low7_high(x: u8)
    by (bit_vector)
    requires
        x >= 128,
    ensures
        (x & 0x7f) == x - 128,
{
}

/// The low seven bits of a byte without the stop bit.
proof fn lemma_low7_low(x: u8)
    by (bit_vector)
    requires
        x < 128,
    ensures
        (x & 0x7f) == x,
{
}

/// One step of the varint fold is a multiply-and-add.
proof fn lemma_fold_step(w: u64, l: u64)
    by (bit_vector)
    requires
        w < 0x0200000000000000,
        l < 128,
    ensures
        ((w << 7) | l) == w * 128 + l,
{
}

/// Where the bytes of `varint_bytes(v)` stand at `pos` inside `bs`, the
/// varint parse at `pos` recovers exactly `v` and stops right after them.
pub proof fn lemma_parse_varint_at(bs: Seq<u8>, pos: int, v: u64)
    requires
        0 <= pos,
        pos + varint_bytes(v).len() <= bs.len(),
        bs.subrange(pos, pos + varint_bytes(v).len() as int) == varint_bytes(v),
    ensures
        spec_parse_varint(bs, pos) == Some((v, pos + varint_bytes(v).len() as int)),
    decreases v,
{
    let n = varint_bytes(v).len() as int;
    assert(bs[pos] == bs.subrange(pos, pos + n)[0]);
    if v < 128 {
        let b = (v + 128) as u8;
        lemma_low7_high(b);
    } else {
        let b = (v % 128) as u8;
        lemma_low7_low(b);
        let w = (v / 128) as u64;
        assert(varint_bytes(v) == seq![b] + varint_bytes(w));
        assert forall|k: int| 0 <= k < n - 1 implies bs.subrange(pos + 1, pos + n)[k]
            == varint_bytes(w)[k] by {
            assert(bs.subrange(pos, pos + n)[k + 1] == (seq![b] + varint_bytes(w))[k + 1]);
        }
        assert(bs.subrange(pos + 1, pos + n) =~= varint_bytes(w));
        lemma_parse_varint_at(bs, pos + 1, w);
        lemma_fold_step(w, b as u64);
    }
}

/// Law: for every 64-bit value, encoding and then decoding yields the
/// value back, consuming exactly the encoded bytes.
pub proof fn lemma_varint_round_trip(v: u64)
    ensures
        spec_parse_varint(varint_bytes(v), 0) == Some((v, varint_bytes(v).len() as int)),
{
    assert(varint_bytes(v).subrange(0, varint_bytes(v).len() as int) =~= varint_bytes(v));
    lemma_parse_varint_at(varint_bytes(v), 0, v);
}

/// Law: decode-then-encode is a fixed point. Whatever value `bs` decodes
/// to, re-encoding it gives bytes that decode to the same value again, so
/// a second decode-then-encode pass changes nothing.
pub proof fn lemma_varint_decode_encode_fixed_point(bs: Seq<u8>, v: u64, end: int)
    requires
        spec_parse_varint(bs, 0) == Some((v, end)),
    ensures
        spec_parse_varint(varint_bytes(v), 0) == Some((v, varint_bytes(v).len() as int)),
{
    lemma_varint_round_trip(v);
}

/// A varint parse lands strictly ahead and inside the input.
pub proof fn lemma_parse_varint_bounds(bs: Seq<u8>, pos: int)
    ensures
        spec_parse_varint(bs, pos) matches Some((v, e)) ==> pos < e <= bs.len(),
    decreases bs.len() - pos,
{
    if 0 <= pos < bs.len() && bs[pos] < 128 {
        lemma_parse_varint_bounds(bs, pos + 1);
    }
}

/// Parse one packet at `pos`: the first byte picks the form, varint fields
/// follow. Reserved headers are rejected as format errors.
pub open spec fn spec_read_packet(bs: Seq<u8>, pos: int) -> Result<(Packet, int), TraceError> {
    if pos < 0 || pos >= bs.len() {
        Err(TraceError::EndOfStream)
    } else {
        let b = bs[pos];
        let c = c_header_of_bits(b & 3);
        if c != CHeader::CNa {
            Ok(
                (
                    Packet {
                        is_compressed: true,
                        c_header: c,
                        f_header: f_header_of_c(c),
                        trap_type: TrapType::TNone,
                        target_address: 0,
                        trap_address: 0,
                        timestamp: (((b & 0xfc) as u64) >> 2) as u64,
                    },
                    pos + 1,
                ),
            )
        } else {
            let f = f_header_of_bits((b & 0x1c) >> 2);
            match f {
                FHeader::FTb | FHeader::FNt | FHeader::FIj => {
                    match spec_parse_varint(bs, pos + 1) {
                        Some((ts, end)) => Ok(
                            (
                                Packet {
                                    is_compressed: false,
                                    c_header: CHeader::CNa,
                                    f_header: f,
                                    trap_type: TrapType::TNone,
                                    target_address: 0,
                                    trap_address: 0,
                                    timestamp: ts,
                                },
                                end,
                            ),
                        ),
                        None => Err(TraceError::EndOfStream),
                    }
                },
                FHeader::FUj | FHeader::FSync => {
                    match spec_parse_varint(bs, pos + 1) {
                        Some((target, mid)) => match spec_parse_varint(bs, mid) {
                            Some((ts, end)) => Ok(
                                (
                                    Packet {
                                        is_compressed: false,
                                        c_header: CHeader::CNa,
                                        f_header: f,
                                        trap_type: TrapType::TNone,
                                        target_address: target,
                                        trap_address: 0,
                                        timestamp: ts,
                                    },
                                    end,
                                ),
                            ),
                            None => Err(TraceError::EndOfStream),
                        },
                        None => Err(TraceError::EndOfStream),
                    }
                },
                FHeader::FTrap => {
                    match trap_type_of_bits((b & 0xe0) >> 5) {
                        Some(tt) => match spec_parse_varint(bs, pos + 1) {
                            Some((trap_addr, m1)) => match spec_parse_varint(bs, m1) {
                                Some((target, m2)) => match spec_parse_varint(bs, m2) {
                                    Some((ts, end)) => Ok(
                                        (
                                            Packet {
                                                is_compressed: false,
                                                c_header: CHeader::CNa,
                                                f_header: FHeader::FTrap,
                                                trap_type: tt,
                                                target_address: target,
                                                trap_address: trap_addr,
                                                timestamp: ts,
                                            },
                                            end,
                                        ),
                                    ),
                                    None => Err(TraceError::EndOfStream),
                                },
                                None => Err(TraceError::EndOfStream),
                            },
                            None => Err(TraceError::EndOfStream),
                        },
                        None => Err(TraceError::Format),
                    }
                },
                _ => Err(TraceError::Format),
            }
        }
    }
}

/// A packet parse lands strictly ahead and inside the input.
pub proof fn lemma_read_packet_bounds(bs: Seq<u8>, pos: int)
    ensures
        spec_read_packet(bs, pos) matches Ok((p, e)) ==> pos < e <= bs.len(),
{
    if 0 <= pos < bs.len() {
        lemma_parse_varint_bounds(bs, pos + 1);
        match spec_parse_varint(bs, pos + 1) {
            Some((v, m1)) => {
                lemma_parse_varint_bounds(bs, m1);
                match spec_parse_varint(bs, m1) {
                    Some((v2, m2)) => {
                        lemma_parse_varint_bounds(bs, m2);
                    },
                    None => {},
                }
            },
            None => {},
        }
    }
}

/// Read one packet, advancing `pos` past it on success.
pub fn read_packet(bytes: &Vec<u8>, pos: &mut usize) -> (r: Result<Packet, TraceError>)
    requires
        *old(pos) <= bytes@.len(),
    ensures
        match spec_read_packet(bytes@, *old(pos) as int) {
            Ok((p, end)) => r == Ok::<Packet, TraceError>(p) && *final(pos) == end && *final(pos)
                <= bytes@.len(),
            Err(e) => r == Err::<Packet, TraceError>(e),
        },
{
    if *pos >= bytes.len() {
        return Err(TraceError::EndOfStream);
    }
    let b = bytes[*pos];
    *pos = *pos + 1;
    proof {
        assert((b & 3) <= 3 && ((b & 0x1c) >> 2) <= 7) by (bit_vector);
    }
    let c_header = CHeader::from_bits(b & 3);
    if !matches!(c_header, CHeader::CNa) {
        let mut packet = Packet::new();
        packet.timestamp = ((b & 0xfc) as u64) >> 2;
        packet.f_header = FHeader::from_c(c_header);
        packet.c_header = c_header;
        packet.is_compressed = true;
        return Ok(packet);
    }
    let f_header = FHeader::from_bits((b & 0x1c) >> 2);
    match f_header {
        FHeader::FTb | FHeader::FNt | FHeader::FIj => {
            let timestamp = match read_varint(bytes, pos) {
                Ok(v) => v,
                Err(e) => { return Err(e) },
            };
            let mut packet = Packet::new();
            packet.timestamp = timestamp;
            packet.f_header = f_header;
            Ok(packet)
        },
        FHeader::FUj | FHeader::FSync => {
            let target_address = match read_varint(bytes, pos) {
                Ok(v) => v,
                Err(e) => { return Err(e) },
            };
            let timestamp = match read_varint(bytes, pos) {
                Ok(v) => v,
                Err(e) => { return Err(e) },
            };
            let mut packet = Packet::new();
            packet.target_address = target_address;
            packet.timestamp = timestamp;
            packet.f_header = f_header;
            Ok(packet)
        },
        FHeader::FTrap => {
            let trap_type = match TrapType::from_bits((b & 0xe0) >> 5) {
                Some(t) => t,
                None => { return Err(TraceError::Format) },
            };
            let trap_address = match read_varint(bytes, pos) {
                Ok(v) => v,
                Err(e) => { return Err(e) },
            };
            let target_address = match read_varint(bytes, pos) {
                Ok(v) => v,
                Err(e) => { return Err(e) },
            };
            let timestamp = match read_varint(bytes, pos) {
                Ok(v) => v,
                Err(e) => { return Err(e) },
            };
            let mut packet = Packet::new();
            packet.trap_type = trap_type;
            packet.trap_address = trap_address;
            packet.target_address = target_address;
            packet.timestamp = timestamp;
            packet.f_header = FHeader::FTrap;
            Ok(packet)
        },
        _ => Err(TraceError::Format),
    }
}

/// The two wire bits of a compressed header.
pub open spec fn c_bits_of(c: CHeader) -> u8 {
    match c {
        CHeader::CTb => 0,
        CHeader::CNt => 1,
        CHeader::CNa => 2,
        CHeader::CIj => 3,
    }
}

/// The three wire bits of a full header.
pub open spec fn f_bits_of(f: FHeader) -> u8 {
    match f {
        FHeader::FTb => 0,
        FHeader::FNt => 1,
        FHeader::FUj => 2,
        FHeader::FIj => 3,
        FHeader::FTrap => 4,
        FHeader::FSync => 5,
        FHeader::FVal => 6,
        FHeader::FRes => 7,
    }
}

/// The three wire bits of a trap kind.
pub open spec fn trap_bits_of(t: TrapType) -> u8 {
    match t {
        TrapType::TNone => 0,
        TrapType::TException => 1,
        TrapType::TInterrupt => 2,
        TrapType::TReturn => 4,
    }
}

/// A packet that the wire format can carry: the headers agree with the
/// form, and fields a form does not carry are zero.
pub open spec fn packet_wf(p: Packet) -> bool {
    if p.is_compressed {
        &&& p.c_header != CHeader::CNa
        &&& p.f_header == f_header_of_c(p.c_header)
        &&& p.trap_type == TrapType::TNone
        &&& p.target_address == 0
        &&& p.trap_address == 0
        &&& p.timestamp < 64
    } else {
        &&& p.c_header == CHeader::CNa
        &&& match p.f_header {
            FHeader::FTb | FHeader::FNt | FHeader::FIj => p.trap_type == TrapType::TNone
                && p.target_address == 0 && p.trap_address == 0,
            FHeader::FUj | FHeader::FSync => p.trap_type == TrapType::TNone && p.trap_address
                == 0,
            FHeader::FTrap => true,
            FHeader::FVal | FHeader::FRes => false,
        }
    }
}

/// The canonical wire bytes of a well-formed packet.
pub open spec fn spec_packet_bytes(p: Packet) -> Seq<u8> {
    if p.is_compressed {
        seq![(c_bits_of(p.c_header) + p.timestamp * 4) as u8]
    } else {
        let b0 = (2 + f_bits_of(p.f_header) * 4 + trap_bits_of(p.trap_type) * 32) as u8;
        match p.f_header {
            FHeader::FTb | FHeader::FNt | FHeader::FIj => seq![b0] + varint_bytes(p.timestamp),
            FHeader::FUj | FHeader::FSync => seq![b0] + varint_bytes(p.target_address)
                + varint_bytes(p.timestamp),
            _ => seq![b0] + varint_bytes(p.trap_address) + varint_bytes(p.target_address)
                + varint_bytes(p.timestamp),
        }
    }
}

/// Serialize a well-formed packet into its canonical wire bytes.
pub fn serialize_packet(p: &Packet) -> (r: Vec<u8>)
    requires
        packet_wf(*p),
    ensures
        r@ == spec_packet_bytes(*p),
{
    let mut out: Vec<u8> = Vec::new();
    if p.is_compressed {
        let c = match p.c_header {
            CHeader::CTb => 0u8,
            CHeader::CNt => 1u8,
            CHeader::CNa => 2u8,
            CHeader::CIj => 3u8,
        };
        out.push(c + (p.timestamp as u8) * 4);
        proof {
            assert(out@ =~= spec_packet_bytes(*p));
        }
        return out;
    }
    let f = match p.f_header {
        FHeader::FTb => 0u8,
        FHeader::FNt => 1u8,
        FHeader::FUj => 2u8,
        FHeader::FIj => 3u8,
        FHeader::FTrap => 4u8,
        FHeader::FSync => 5u8,
        FHeader::FVal => 6u8,
        FHeader::FRes => 7u8,
    };
    let t = match p.trap_type {
        TrapType::TNone => 0u8,
        TrapType::TException => 1u8,
        TrapType::TInterrupt => 2u8,
        TrapType::TReturn => 4u8,
    };
    out.push(2 + f * 4 + t * 32);
    if matches!(p.f_header, FHeader::FUj | FHeader::FSync) {
        let mut tgt = encode_varint(p.target_address);
        out.append(&mut tgt);
    } else if matches!(p.f_header, FHeader::FTrap) {
        let mut ta = encode_varint(p.trap_address);
        out.append(&mut ta);
        let mut tgt = encode_varint(p.target_address);
        out.append(&mut tgt);
    }
    let mut ts = encode_varint(p.timestamp);
    out.append(&mut ts);
    proof {
        assert(out@ =~= spec_packet_bytes(*p));
    }
    out
}

/// Field extraction from a compressed first byte.
proof fn lemma_compressed_byte(b: u8, lo: u8, ts: u8)
    by (bit_vector)
    requires
        lo <= 3,
        ts < 64,
        b == lo + ts * 4,
    ensures
        (b & 3) == lo,
        ((b & 0xfc) >> 2) == ts,
{
}

/// Field extraction from an uncompressed first byte.
proof fn lemma_uncompressed_byte(b: u8, f: u8, t: u8)
    by (bit_vector)
    requires
        f <= 7,
        t <= 7,
        b == 2 + f * 4 + t * 32,
    ensures
        (b & 3) == 2,
        ((b & 0x1c) >> 2) == f,
        ((b & 0xe0) >> 5) == t,
{
}

/// A right shift by two commutes with widening a byte.
proof fn lemma_cast_shr2(y: u8)
    by (bit_vector)
    ensures
        ((y as u64) >> 2) == ((y >> 2) as u64),
{
}

/// Law: for every legal packet, serializing and then parsing yields the
/// packet back, consuming exactly the serialized bytes.
pub proof fn lemma_packet_round_trip(p: Packet)
    requires
        packet_wf(p),
    ensures
        spec_read_packet(spec_packet_bytes(p), 0) == Ok::<(Packet, int), TraceError>(
            (p, spec_packet_bytes(p).len() as int),
        ),
{
    let bs = spec_packet_bytes(p);
    if p.is_compressed {
        let c = c_bits_of(p.c_header);
        let ts = (p.timestamp as u8);
        let b = (c + p.timestamp * 4) as u8;
        lemma_compressed_byte(b, c, ts);
        lemma_cast_shr2(b & 0xfc);
    } else {
        let f = f_bits_of(p.f_header);
        let t = trap_bits_of(p.trap_type);
        let b = (2 + f * 4 + t * 32) as u8;
        lemma_uncompressed_byte(b, f, t);
        match p.f_header {
            FHeader::FTb | FHeader::FNt | FHeader::FIj => {
                let vts = varint_bytes(p.timestamp);
                assert(bs.subrange(1, 1 + vts.len() as int) =~= vts);
                lemma_parse_varint_at(bs, 1, p.timestamp);
            },
            FHeader::FUj | FHeader::FSync => {
                let vt = varint_bytes(p.target_address);
                let vts = varint_bytes(p.timestamp);
                assert(bs.subrange(1, 1 + vt.len() as int) =~= vt);
                lemma_parse_varint_at(bs, 1, p.target_address);
                assert(bs.subrange(1 + vt.len() as int, 1 + vt.len() + vts.len() as int) =~= vts);
                lemma_parse_varint_at(bs, 1 + vt.len() as int, p.timestamp);
            },
            FHeader::FTrap => {
                let va = varint_bytes(p.trap_address);
                let vt = varint_bytes(p.target_address);
                let vts = varint_bytes(p.timestamp);
                assert(bs.subrange(1, 1 + va.len() as int) =~= va);
                lemma_parse_varint_at(bs, 1, p.trap_address);
                assert(bs.subrange(1 + va.len() as int, 1 + va.len() + vt.len() as int) =~= vt);
                lemma_parse_varint_at(bs, 1 + va.len() as int, p.target_address);
                assert(bs.subrange(
                    1 + va.len() + vt.len() as int,
                    1 + va.len() + vt.len() + vts.len() as int,
                ) =~= vts);
                lemma_parse_varint_at(bs, 1 + va.len() + vt.len() as int, p.timestamp);
            },
            _ => {},
        }
    }
}

} // verus!
