//! Bit-level decoding of EtherCAT frames.
//!
//! A link-layer frame carries, behind its Ethernet header, a 16-bit datagram
//! header (11-bit payload length, 4-bit protocol-type tag) followed by a chain
//! of PDUs (sub-messages). Each PDU holds a one-byte command code, the address
//! fields of that command, a sequence tag, a bit-packed flags word, a payload
//! and a trailing status (working-counter) word. All multi-byte fields are
//! little-endian.

use vstd::prelude::*;
use vstd::slice::{slice_subrange, slice_to_vec};

use crate::error::DecodeError;

verus! {

/// Mask of the 11-bit length fields in the datagram header and the PDU flags
/// word.
pub const LEN_MASK: u16 = 0x07FF;

/// The EtherCAT ethertype.
pub const ETHERCAT_ETHERTYPE_RAW: u16 = 0x88A4;

/// A 16-bit big-endian value read from two bytes (the ethertype field).
pub open spec fn spec_be_u16(b0: u8, b1: u8) -> u16 {
    (b0 * 0x100 + b1) as u16
}

/// Protocol-type tag of a datagram-carrying EtherCAT frame.
pub const DATAGRAM_PROTOCOL_TAG: u8 = 0x01;

/// A 16-bit little-endian value read from two bytes.
pub open spec fn spec_le_u16(b0: u8, b1: u8) -> u16 {
    (b0 + b1 * 0x100) as u16
}

/// A 32-bit little-endian value read from four bytes.
pub open spec fn spec_le_u32(b0: u8, b1: u8, b2: u8, b3: u8) -> u32 {
    (b0 + b1 * 0x100 + b2 * 0x10000 + b3 * 0x1000000) as u32
}

/// The EtherCAT datagram header: a raw 16-bit word holding an 11-bit payload
/// length and a 4-bit protocol-type tag.
#[derive(Copy, Clone, Debug, PartialEq, Eq, Structural)]
pub struct FrameHeader(pub u16);

/// The 11-bit payload length of a raw datagram header word.
pub open spec fn spec_header_len(raw: u16) -> u16 {
    raw & LEN_MASK
}

/// The 4-bit protocol-type tag of a raw datagram header word (bits 12 to 15).
pub open spec fn spec_header_protocol(raw: u16) -> u8 {
    ((raw >> 12) & 0xF) as u8
}

/// The raw datagram header word packing a payload length and a protocol tag.
pub open spec fn spec_pack_header(payload_len: u16, protocol: u8) -> u16 {
    (payload_len & LEN_MASK) | (((protocol & 0xF) as u16) << 12)
}

impl FrameHeader {
    /// The length of the payload contained in this frame.
    pub fn payload_len(&self) -> (r: u16)
        ensures
            r == spec_header_len(self.0),
            r <= 0x07FF,
    {
        proof {
            let raw = self.0;
            assert(raw & LEN_MASK <= 0x07FF) by (bit_vector);
        }
        self.0 & LEN_MASK
    }

    /// The protocol-type tag of this frame.
    pub fn protocol_type(&self) -> (r: u8)
        ensures
            r == spec_header_protocol(self.0),
    {
        proof {
            let raw = self.0;
            assert((raw >> 12) & 0xF < 0x100) by (bit_vector);
        }
        ((self.0 >> 12) & 0xF) as u8
    }

    /// Packs a payload length and a protocol-type tag into a datagram header.
    pub fn pack(payload_len: u16, protocol: u8) -> (r: FrameHeader)
        requires
            payload_len <= 0x07FF,
            protocol <= 0xF,
        ensures
            r.0 == spec_pack_header(payload_len, protocol),
    {
        FrameHeader((payload_len & LEN_MASK) | (((protocol & 0xF) as u16) << 12))
    }

    /// Parses a datagram header from the first two bytes of an EtherCAT
    /// payload, rejecting any protocol-type tag other than the datagram tag.
    pub fn parse(i: &[u8]) -> (r: Result<FrameHeader, DecodeError>)
        ensures
            r == spec_parse_header(i@),
    {
        if i.len() < 2 {
            return Err(DecodeError::FrameTooShort);
        }
        let header = FrameHeader(le_u16(i[0], i[1]));
        let protocol = header.protocol_type();
        if protocol != DATAGRAM_PROTOCOL_TAG {
            return Err(DecodeError::ProtocolTypeMismatch { found: protocol });
        }
        Ok(header)
    }
}

/// What `FrameHeader::parse` returns for a given payload.
pub open spec fn spec_parse_header(i: Seq<u8>) -> Result<FrameHeader, DecodeError> {
    if i.len() < 2 {
        Err(DecodeError::FrameTooShort)
    } else {
        let raw = spec_le_u16(i[0], i[1]);
        if spec_header_protocol(raw) != DATAGRAM_PROTOCOL_TAG {
            Err(DecodeError::ProtocolTypeMismatch { found: spec_header_protocol(raw) })
        } else {
            Ok(FrameHeader(raw))
        }
    }
}

/// Packing then unpacking the datagram header recovers every valid
/// (payload length, datagram protocol tag) pair.
pub proof fn lemma_header_round_trip(payload_len: u16, protocol: u8)
    requires
        payload_len <= 0x07FF,
        protocol == DATAGRAM_PROTOCOL_TAG,
    ensures
        spec_header_len(spec_pack_header(payload_len, protocol)) == payload_len,
        spec_header_protocol(spec_pack_header(payload_len, protocol)) == protocol,
{
    assert(payload_len <= 0x07FF ==> ((payload_len & 0x07FF) | (((protocol & 0xF) as u16) << 12))
        & 0x07FF == payload_len) by (bit_vector);
    assert(protocol <= 0xF ==> ((((payload_len & 0x07FF) | (((protocol & 0xF) as u16) << 12))
        >> 12) & 0xF) as u8 == protocol) by (bit_vector);
}

/// A 16-bit little-endian read, as executable code.
pub fn le_u16(b0: u8, b1: u8) -> (r: u16)
    ensures
        r == spec_le_u16(b0, b1),
{
    b0 as u16 + b1 as u16 * 0x100
}

/// A 32-bit little-endian read, as executable code.
pub fn le_u32(b0: u8, b1: u8, b2: u8, b3: u8) -> (r: u32)
    ensures
        r == spec_le_u32(b0, b1, b2, b3),
{
    b0 as u32 + b1 as u32 * 0x100 + b2 as u32 * 0x10000 + b3 as u32 * 0x1000000
}

/// The bit-packed flags word of a PDU: an 11-bit payload length, a circulated
/// bit (bit 14) and a continuation bit (bit 15).
#[derive(Default, Copy, Clone, Debug, PartialEq, Eq, Structural)]
pub struct PduFlags {
    /// Data length of this PDU.
    pub length: u16,
    /// Whether the frame has already circulated once.
    pub circulated: bool,
    /// Whether another PDU follows this one in the frame.
    pub is_not_last: bool,
}

/// The raw flags word packing a PDU's length and flag bits.
pub open spec fn spec_pack_flags(f: PduFlags) -> u16 {
    ((f.length & LEN_MASK) | (if f.circulated {
        0x4000u16
    } else {
        0u16
    }) | (if f.is_not_last {
        0x8000u16
    } else {
        0u16
    })) as u16
}

/// The flags decoded from a raw flags word.
pub open spec fn spec_unpack_flags(raw: u16) -> PduFlags {
    PduFlags {
        length: raw & LEN_MASK,
        circulated: (raw >> 14) & 0x01 == 0x01,
        is_not_last: (raw >> 15) & 0x01 == 0x01,
    }
}

impl PduFlags {
    /// Packs the flags into the two little-endian bytes of the wire format.
    pub fn pack(&self) -> (r: [u8; 2])
        ensures
            spec_le_u16(r[0], r[1]) == spec_pack_flags(*self),
    {
        let raw: u16 = (self.length & LEN_MASK) | (if self.circulated {
            0x4000u16
        } else {
            0u16
        }) | (if self.is_not_last {
            0x8000u16
        } else {
            0u16
        });
        let lo: u8 = (raw & 0xFF) as u8;
        let hi: u8 = (raw >> 8) as u8;
        proof {
            assert((raw & 0xFF) as u8 + ((raw >> 8) as u8) * 0x100 == raw) by (bit_vector);
        }
        [lo, hi]
    }

    /// Decodes the flags from the two little-endian bytes of the wire format.
    pub fn unpack(src: &[u8; 2]) -> (r: PduFlags)
        ensures
            r == spec_unpack_flags(spec_le_u16(src[0], src[1])),
    {
        let raw = le_u16(src[0], src[1]);
        PduFlags {
            length: raw & LEN_MASK,
            circulated: (raw >> 14) & 0x01 == 0x01,
            is_not_last: (raw >> 15) & 0x01 == 0x01,
        }
    }
}

/// Packing then unpacking the flags word recovers the declared length, the
/// circulated bit and the continuation bit exactly, for every declared length
/// that fits the 11-bit field.
pub proof fn lemma_flags_round_trip(f: PduFlags)
    requires
        f.length <= 0x07FF,
    ensures
        spec_unpack_flags(spec_pack_flags(f)) == f,
{
    let raw = spec_pack_flags(f);
    let l = f.length;
    let c = f.circulated;
    let n = f.is_not_last;
    let cbit: u16 = if c { 0x4000 } else { 0 };
    let nbit: u16 = if n { 0x8000 } else { 0 };
    assert(l <= 0x07FF ==> ((l & 0x07FF) | cbit | nbit) & 0x07FF == l) by (bit_vector)
        requires
            cbit == 0x4000 || cbit == 0,
            nbit == 0x8000 || nbit == 0,
    ;
    assert((((l & 0x07FF) | cbit | nbit) >> 14) & 0x01 == (if cbit == 0x4000 {
        0x01u16
    } else {
        0u16
    })) by (bit_vector)
        requires
            cbit == 0x4000 || cbit == 0,
            nbit == 0x8000 || nbit == 0,
    ;
    assert((((l & 0x07FF) | cbit | nbit) >> 15) & 0x01 == (if nbit == 0x8000 {
        0x01u16
    } else {
        0u16
    })) by (bit_vector)
        requires
            cbit == 0x4000 || cbit == 0,
            nbit == 0x8000 || nbit == 0,
    ;
    assert(spec_unpack_flags(raw).length == f.length);
    assert(spec_unpack_flags(raw).circulated == f.circulated);
    assert(spec_unpack_flags(raw).is_not_last == f.is_not_last);
}

/// Command code of a NOP PDU.
pub const NOP: u8 = 0x00;

/// Command code of an auto-increment (positional) read.
pub const APRD: u8 = 0x01;

/// Command code of an auto-increment (positional) write.
pub const APWR: u8 = 0x02;

/// Command code of a configured-address read.
pub const FPRD: u8 = 0x04;

/// Command code of a configured-address write.
pub const FPWR: u8 = 0x05;

/// Command code of a broadcast read.
pub const BRD: u8 = 0x07;

/// Command code of a broadcast write.
pub const BWR: u8 = 0x08;

/// Command code of a logical-memory read.
pub const LRD: u8 = 0x0A;

/// Command code of a logical-memory write.
pub const LWR: u8 = 0x0B;

/// Command code of a logical-memory read/write.
pub const LRW: u8 = 0x0C;

/// Command code of a configured-address read, multiple write.
pub const FRMW: u8 = 0x0E;

/// The command a PDU carries, with the address fields meaningful to it.
///
/// Addressed commands carry a 16-bit station address and a 16-bit register;
/// logical commands carry a single 32-bit logical address. Any command code
/// outside this table is a fatal decode error, never a silent `Nop`.
#[derive(Copy, Clone, Debug, PartialEq, Eq, Structural)]
pub enum Command {
    /// No operation.
    Nop,
    /// Auto-increment (positional) read.
    Aprd { address: u16, register: u16 },
    /// Auto-increment (positional) write.
    Apwr { address: u16, register: u16 },
    /// Configured-address read.
    Fprd { address: u16, register: u16 },
    /// Configured-address write.
    Fpwr { address: u16, register: u16 },
    /// Broadcast read.
    Brd { address: u16, register: u16 },
    /// Broadcast write.
    Bwr { address: u16, register: u16 },
    /// Configured-address read, multiple write.
    Frmw { address: u16, register: u16 },
    /// Logical-memory read.
    Lrd { address: u32 },
    /// Logical-memory write.
    Lwr { address: u32 },
    /// Logical-memory read/write.
    Lrw { address: u32 },
}

/// The mnemonic of a command, as recorded in exported rows.
pub open spec fn spec_command_description(c: Command) -> Seq<char> {
    match c {
        Command::Nop => "NOP"@,
        Command::Aprd { .. } => "APRD"@,
        Command::Apwr { .. } => "APWR"@,
        Command::Fprd { .. } => "FPRD"@,
        Command::Fpwr { .. } => "FPWR"@,
        Command::Brd { .. } => "BRD"@,
        Command::Bwr { .. } => "BWR"@,
        Command::Frmw { .. } => "FRMW"@,
        Command::Lrd { .. } => "LRD"@,
        Command::Lwr { .. } => "LWR"@,
        Command::Lrw { .. } => "LRW"@,
    }
}

impl Command {
    /// The mnemonic of this command.
    pub fn description(&self) -> (r: String)
        ensures
            r@ == spec_command_description(*self),
    {
        match self {
            Command::Nop => "NOP".to_owned(),
            Command::Aprd { .. } => "APRD".to_owned(),
            Command::Apwr { .. } => "APWR".to_owned(),
            Command::Fprd { .. } => "FPRD".to_owned(),
            Command::Fpwr { .. } => "FPWR".to_owned(),
            Command::Brd { .. } => "BRD".to_owned(),
            Command::Bwr { .. } => "BWR".to_owned(),
            Command::Frmw { .. } => "FRMW".to_owned(),
            Command::Lrd { .. } => "LRD".to_owned(),
            Command::Lwr { .. } => "LWR".to_owned(),
            Command::Lrw { .. } => "LRW".to_owned(),
        }
    }
}

/// The register a command addresses, where it addresses one: every
/// addressed command carries a register; logical commands and `Nop` do not.
pub open spec fn spec_command_register(c: Command) -> Option<u16> {
    match c {
        Command::Aprd { register, .. } => Some(register),
        Command::Apwr { register, .. } => Some(register),
        Command::Fprd { register, .. } => Some(register),
        Command::Fpwr { register, .. } => Some(register),
        Command::Brd { register, .. } => Some(register),
        Command::Bwr { register, .. } => Some(register),
        Command::Frmw { register, .. } => Some(register),
        _ => None,
    }
}

/// The station address a command addresses, where it addresses one.
pub open spec fn spec_command_subdevice_address(c: Command) -> Option<u16> {
    match c {
        Command::Aprd { address, .. } => Some(address),
        Command::Apwr { address, .. } => Some(address),
        Command::Fprd { address, .. } => Some(address),
        Command::Fpwr { address, .. } => Some(address),
        Command::Brd { address, .. } => Some(address),
        Command::Bwr { address, .. } => Some(address),
        Command::Frmw { address, .. } => Some(address),
        _ => None,
    }
}

impl Command {
    /// The register field of an addressed command; `None` for `Nop` and the
    /// logical-memory commands.
    pub fn register(&self) -> (r: Option<u16>)
        ensures
            r == spec_command_register(*self),
    {
        match self {
            Command::Aprd { register, .. } => Some(*register),
            Command::Apwr { register, .. } => Some(*register),
            Command::Fprd { register, .. } => Some(*register),
            Command::Fpwr { register, .. } => Some(*register),
            Command::Brd { register, .. } => Some(*register),
            Command::Bwr { register, .. } => Some(*register),
            Command::Frmw { register, .. } => Some(*register),
            _ => None,
        }
    }

    /// The station address of an addressed command; `None` for `Nop` and
    /// the logical-memory commands.
    pub fn subdevice_address(&self) -> (r: Option<u16>)
        ensures
            r == spec_command_subdevice_address(*self),
    {
        match self {
            Command::Aprd { address, .. } => Some(*address),
            Command::Apwr { address, .. } => Some(*address),
            Command::Fprd { address, .. } => Some(*address),
            Command::Fpwr { address, .. } => Some(*address),
            Command::Brd { address, .. } => Some(*address),
            Command::Bwr { address, .. } => Some(*address),
            Command::Frmw { address, .. } => Some(*address),
            _ => None,
        }
    }
}

/// One EtherCAT PDU (sub-message).
#[derive(Clone, Debug, PartialEq, Eq)]
pub struct Pdu {
    /// The sequence tag used to pair a command with its response.
    pub index: u8,
    /// The command and its address fields.
    pub command: Command,
    /// The bit-packed flags word: declared length, circulated, continuation.
    pub flags: PduFlags,
    /// The payload; exactly `flags.length` bytes.
    pub data: Vec<u8>,
    /// The trailing status (working-counter) word.
    pub working_counter: u16,
}

/// Spec-level image of a [`Pdu`], with the payload as a byte sequence.
pub struct PduModel {
    pub index: u8,
    pub command: Command,
    pub flags: PduFlags,
    pub data: Seq<u8>,
    pub working_counter: u16,
}

impl View for Pdu {
    type V = PduModel;

    open spec fn view(&self) -> PduModel {
        PduModel {
            index: self.index,
            command: self.command,
            flags: self.flags,
            data: self.data@,
            working_counter: self.working_counter,
        }
    }
}

/// One decoded EtherCAT frame.
#[derive(Clone, Debug, PartialEq, Eq)]
pub struct Frame {
    /// The datagram header word.
    pub header: FrameHeader,
    /// Whether the link-layer source address is the controller's identity.
    pub from_master: bool,
    /// Capture timestamp in nanoseconds; filled in by the capture reader.
    pub time: u64,
    /// Capture packet index; filled in by the capture reader.
    pub wireshark_packet_number: usize,
    /// The PDUs of the frame, in wire order.
    pub pdus: Vec<Pdu>,
}

/// Spec-level image of a [`Frame`].
pub struct FrameModel {
    pub header: FrameHeader,
    pub from_master: bool,
    pub time: u64,
    pub wireshark_packet_number: usize,
    pub pdus: Seq<PduModel>,
}

/// The spec-level images of a sequence of PDUs.
pub open spec fn pdus_view(s: Seq<Pdu>) -> Seq<PduModel> {
    s.map_values(|p: Pdu| p@)
}

impl View for Frame {
    type V = FrameModel;

    open spec fn view(&self) -> FrameModel {
        FrameModel {
            header: self.header,
            from_master: self.from_master,
            time: self.time,
            wireshark_packet_number: self.wireshark_packet_number,
            pdus: pdus_view(self.pdus@),
        }
    }
}

/// What parsing the address fields of command `code` from `rest` yields: the
/// command and the number of bytes its fields occupy, or the exact error.
pub open spec fn spec_parse_command(code: u8, rest: Seq<u8>) -> Result<(Command, int), DecodeError> {
    if code == NOP {
        Ok((Command::Nop, 0))
    } else if code == APRD || code == APWR || code == FPRD || code == FPWR || code == BRD
        || code == BWR || code == FRMW {
        if rest.len() < 4 {
            Err(DecodeError::TruncatedSubMessage)
        } else {
            let address = spec_le_u16(rest[0], rest[1]);
            let register = spec_le_u16(rest[2], rest[3]);
            let c = if code == APRD {
                Command::Aprd { address, register }
            } else if code == APWR {
                Command::Apwr { address, register }
            } else if code == FPRD {
                Command::Fprd { address, register }
            } else if code == FPWR {
                Command::Fpwr { address, register }
            } else if code == BRD {
                Command::Brd { address, register }
            } else if code == BWR {
                Command::Bwr { address, register }
            } else {
                Command::Frmw { address, register }
            };
            Ok((c, 4))
        }
    } else if code == LRD || code == LWR || code == LRW {
        if rest.len() < 4 {
            Err(DecodeError::TruncatedSubMessage)
        } else {
            let address = spec_le_u32(rest[0], rest[1], rest[2], rest[3]);
            let c = if code == LRD {
                Command::Lrd { address }
            } else if code == LWR {
                Command::Lwr { address }
            } else {
                Command::Lrw { address }
            };
            Ok((c, 4))
        }
    } else {
        Err(DecodeError::UnknownCommandCode { code })
    }
}

/// What parsing one PDU from the front of `r` yields: the PDU and the number
/// of bytes it occupies, or the exact error.
pub open spec fn spec_parse_pdu(r: Seq<u8>) -> Result<(PduModel, int), DecodeError> {
    if r.len() < 2 {
        Err(DecodeError::TruncatedSubMessage)
    } else {
        let code = r[0];
        let index = r[1];
        match spec_parse_command(code, r.skip(2)) {
            Err(e) => Err(e),
            Ok((command, alen)) => {
                let p = 2 + alen;
                if r.len() < p + 4 {
                    Err(DecodeError::TruncatedSubMessage)
                } else {
                    let flags = spec_unpack_flags(spec_le_u16(r[p], r[p + 1]));
                    let dlen = flags.length as int;
                    if r.len() < p + 4 + dlen + 2 {
                        Err(DecodeError::TruncatedSubMessage)
                    } else {
                        Ok(
                            (
                                PduModel {
                                    index,
                                    command,
                                    flags,
                                    data: r.subrange(p + 4, p + 4 + dlen),
                                    working_counter: spec_le_u16(
                                        r[p + 4 + dlen],
                                        r[p + 4 + dlen + 1],
                                    ),
                                },
                                p + 4 + dlen + 2,
                            ),
                        )
                    }
                }
            },
        }
    }
}

/// What parsing PDUs from `r` until it is exhausted yields. A sub-message
/// region that ends in the middle of a PDU is a truncation error; trailing
/// bytes never arise because each PDU's length is checked against `r`.
pub open spec fn spec_parse_pdus(r: Seq<u8>) -> Result<Seq<PduModel>, DecodeError>
    decreases r.len(),
{
    if r.len() == 0 {
        Ok(Seq::empty())
    } else {
        match spec_parse_pdu(r) {
            Err(e) => Err(e),
            Ok((p, used)) => {
                // A parsed PDU always occupies at least its fixed-width
                // fields; the guard keeps the recursion visibly decreasing.
                if used <= 0 || used > r.len() {
                    Err(DecodeError::TruncatedSubMessage)
                } else {
                    match spec_parse_pdus(r.skip(used)) {
                        Err(e) => Err(e),
                        Ok(rest) => Ok(seq![p] + rest),
                    }
                }
            },
        }
    }
}

/// What decoding a whole link-layer frame yields: the frame, or the exact
/// error. The originator is read from the locally-administered bit of the
/// source address, which tells the two fixed station identities apart; the
/// datagram header follows the 14-byte Ethernet header; exactly the declared
/// payload length is parsed as the sub-message region, and trailing bytes
/// after it are ignored.
pub open spec fn spec_decode_frame(b: Seq<u8>) -> Result<FrameModel, DecodeError> {
    if b.len() < 14 {
        Err(DecodeError::FrameTooShort)
    } else {
        let from_master = b[6] & 0x02 == 0;
        let payload = b.skip(14);
        match spec_parse_header(payload) {
            Err(e) => Err(e),
            Ok(h) => {
                let len = spec_header_len(h.0) as int;
                if payload.len() < 2 + len {
                    Err(DecodeError::TruncatedSubMessage)
                } else {
                    match spec_parse_pdus(payload.subrange(2, 2 + len)) {
                        Err(e) => Err(e),
                        Ok(pdus) => Ok(
                            FrameModel {
                                header: h,
                                from_master,
                                time: 0,
                                wireshark_packet_number: 0,
                                pdus,
                            },
                        ),
                    }
                }
            },
        }
    }
}

/// The spec-level image of a decode result.
pub open spec fn decode_result(r: Result<Frame, DecodeError>) -> Result<FrameModel, DecodeError> {
    match r {
        Ok(f) => Ok(f@),
        Err(e) => Err(e),
    }
}

/// A copy of the bytes of `b` from `from` (inclusive) to `to` (exclusive).
pub fn bytes_range(b: &Vec<u8>, from: usize, to: usize) -> (r: Vec<u8>)
    requires
        from <= to <= b@.len(),
    ensures
        r@ == b@.subrange(from as int, to as int),
{
    slice_to_vec(slice_subrange(b.as_slice(), from, to))
}

/// Parses the address fields of command `code` starting at `pos`, returning
/// the command and the position just past its fields.
fn parse_command(code: u8, b: &Vec<u8>, pos: usize) -> (r: Result<(Command, usize), DecodeError>)
    requires
        pos <= b@.len(),
    ensures
        match r {
            Ok((c, newpos)) => {
                &&& pos <= newpos <= b@.len()
                &&& spec_parse_command(code, b@.skip(pos as int)) == Ok::<_, DecodeError>(
                    (c, newpos - pos),
                )
            },
            Err(e) => spec_parse_command(code, b@.skip(pos as int)) == Err::<(Command, int), _>(e),
        },
{
    let ghost rest = b@.skip(pos as int);
    if code == NOP {
        return Ok((Command::Nop, pos));
    }
    if code == APRD || code == APWR || code == FPRD || code == FPWR || code == BRD || code == BWR
        || code == FRMW {
        if b.len() - pos < 4 {
            return Err(DecodeError::TruncatedSubMessage);
        }
        let address = le_u16(b[pos], b[pos + 1]);
        let register = le_u16(b[pos + 2], b[pos + 3]);
        proof {
            assert(rest[0] == b@[pos as int]);
            assert(rest[1] == b@[pos + 1]);
            assert(rest[2] == b@[pos + 2]);
            assert(rest[3] == b@[pos + 3]);
        }
        let c = if code == APRD {
            Command::Aprd { address, register }
        } else if code == APWR {
            Command::Apwr { address, register }
        } else if code == FPRD {
            Command::Fprd { address, register }
        } else if code == FPWR {
            Command::Fpwr { address, register }
        } else if code == BRD {
            Command::Brd { address, register }
        } else if code == BWR {
            Command::Bwr { address, register }
        } else {
            Command::Frmw { address, register }
        };
        return Ok((c, pos + 4));
    }
    if code == LRD || code == LWR || code == LRW {
        if b.len() - pos < 4 {
            return Err(DecodeError::TruncatedSubMessage);
        }
        let address = le_u32(b[pos], b[pos + 1], b[pos + 2], b[pos + 3]);
        proof {
            assert(rest[0] == b@[pos as int]);
            assert(rest[1] == b@[pos + 1]);
            assert(rest[2] == b@[pos + 2]);
            assert(rest[3] == b@[pos + 3]);
        }
        let c = if code == LRD {
            Command::Lrd { address }
        } else if code == LWR {
            Command::Lwr { address }
        } else {
            Command::Lrw { address }
        };
        return Ok((c, pos + 4));
    }
    Err(DecodeError::UnknownCommandCode { code })
}

/// Parses one PDU starting at `pos`, returning it and the position just past
/// its trailing status word.
fn parse_one_pdu(b: &Vec<u8>, pos: usize) -> (r: Result<(Pdu, usize), DecodeError>)
    requires
        pos <= b@.len(),
    ensures
        match r {
            Ok((pdu, newpos)) => {
                &&& pos < newpos <= b@.len()
                &&& spec_parse_pdu(b@.skip(pos as int)) == Ok::<_, DecodeError>(
                    (pdu@, newpos - pos),
                )
            },
            Err(e) => spec_parse_pdu(b@.skip(pos as int)) == Err::<(PduModel, int), _>(e),
        },
{
    let ghost r = b@.skip(pos as int);
    if b.len() - pos < 2 {
        return Err(DecodeError::TruncatedSubMessage);
    }
    let code = b[pos];
    let index = b[pos + 1];
    proof {
        assert(r[0] == b@[pos as int]);
        assert(r[1] == b@[pos + 1]);
        assert(r.skip(2) =~= b@.skip(pos + 2));
    }
    let (command, apos) = match parse_command(code, b, pos + 2) {
        Ok(v) => v,
        Err(e) => {
            return Err(e);
        },
    };
    let ghost p = 2 + (apos - (pos + 2));
    proof {
        assert(p == apos - pos);
    }
    if b.len() - apos < 4 {
        return Err(DecodeError::TruncatedSubMessage);
    }
    let flags = PduFlags::unpack(&[b[apos], b[apos + 1]]);
    proof {
        assert(r[p] == b@[apos as int]);
        assert(r[p + 1] == b@[apos + 1]);
    }
    let dlen = flags.length as usize;
    if b.len() - (apos + 4) < dlen {
        return Err(DecodeError::TruncatedSubMessage);
    }
    if b.len() - (apos + 4 + dlen) < 2 {
        return Err(DecodeError::TruncatedSubMessage);
    }
    let data = bytes_range(b, apos + 4, apos + 4 + dlen);
    let working_counter = le_u16(b[apos + 4 + dlen], b[apos + 4 + dlen + 1]);
    let newpos = apos + 4 + dlen + 2;
    proof {
        assert(r[p + 4 + dlen] == b@[apos + 4 + dlen]);
        assert(r[p + 4 + dlen + 1] == b@[apos + 4 + dlen + 1]);
        assert(r.subrange(p + 4, p + 4 + dlen) =~= b@.subrange(
            apos + 4,
            apos + 4 + dlen,
        ));
    }
    Ok(
        (
            Pdu { index, command, flags, data, working_counter },
            newpos,
        ),
    )
}

/// Parses the whole sub-message region into its chain of PDUs.
pub fn parse_pdus(region: &Vec<u8>) -> (r: Result<Vec<Pdu>, DecodeError>)
    ensures
        match r {
            Ok(pdus) => spec_parse_pdus(region@) == Ok::<_, DecodeError>(pdus_view(pdus@)),
            Err(e) => spec_parse_pdus(region@) == Err::<Seq<PduModel>, _>(e),
        },
{
    let mut pdus: Vec<Pdu> = Vec::new();
    let mut pos: usize = 0;
    proof {
        assert(region@.skip(0) =~= region@);
    }
    while pos < region.len()
        invariant
            pos <= region@.len(),
            spec_parse_pdus(region@) == (match spec_parse_pdus(region@.skip(pos as int)) {
                Ok(rest) => Ok::<_, DecodeError>(pdus_view(pdus@) + rest),
                Err(e) => Err::<Seq<PduModel>, _>(e),
            }),
        decreases region@.len() - pos,
    {
        let ghost suffix = region@.skip(pos as int);
        match parse_one_pdu(region, pos) {
            Err(e) => {
                proof {
                    assert(suffix.len() > 0);
                    assert(spec_parse_pdus(suffix) == Err::<Seq<PduModel>, _>(e));
                }
                return Err(e);
            },
            Ok((pdu, newpos)) => {
                proof {
                    let used = newpos - pos;
                    assert(suffix.skip(used) =~= region@.skip(newpos as int));
                    assert(spec_parse_pdus(suffix) == (match spec_parse_pdus(
                        region@.skip(newpos as int),
                    ) {
                        Ok(rest) => Ok::<_, DecodeError>(seq![pdu@] + rest),
                        Err(e) => Err::<Seq<PduModel>, _>(e),
                    }));
                    assert(pdus_view(pdus@.push(pdu)) =~= pdus_view(pdus@) + seq![pdu@]);
                    assert(forall|rest: Seq<PduModel>|
                        (pdus_view(pdus@) + seq![pdu@]) + rest =~= pdus_view(pdus@) + (
                        seq![pdu@] + rest));
                }
                pdus.push(pdu);
                pos = newpos;
            },
        }
    }
    proof {
        assert(region@.skip(pos as int).len() == 0);
        assert(spec_parse_pdus(region@.skip(pos as int)) == Ok::<_, DecodeError>(
            Seq::<PduModel>::empty(),
        ));
        assert(pdus_view(pdus@) + Seq::<PduModel>::empty() =~= pdus_view(pdus@));
    }
    Ok(pdus)
}

/// Decodes a raw link-layer frame into a [`Frame`].
///
/// Callers filter frames to the EtherCAT ethertype first: the decoder is for
/// EtherCAT traffic only, and anything else is rejected outright before it
/// reaches this function. The result, completed or failed, is a function of
/// the frame bytes alone: decoding the same buffer twice yields identical
/// structures. The returned frame has its capture timestamp and packet index
/// still zero; the capture reader fills them in.
pub fn parse_pdu(raw: &Vec<u8>) -> (r: Result<Frame, DecodeError>)
    requires
        raw@.len() >= 14 ==> spec_be_u16(raw@[12], raw@[13]) == ETHERCAT_ETHERTYPE_RAW,
    ensures
        decode_result(r) == spec_decode_frame(raw@),
{
    if raw.len() < 14 {
        return Err(DecodeError::FrameTooShort);
    }
    let from_master = raw[6] & 0x02 == 0;
    let ghost payload = raw@.skip(14);
    let header = match FrameHeader::parse(slice_subrange(raw.as_slice(), 14, raw.len())) {
        Ok(h) => h,
        Err(e) => {
            proof {
                assert(payload =~= raw@.subrange(14, raw@.len() as int));
            }
            return Err(e);
        },
    };
    proof {
        assert(payload =~= raw@.subrange(14, raw@.len() as int));
    }
    let len = header.payload_len() as usize;
    if raw.len() - 14 < 2 + len {
        return Err(DecodeError::TruncatedSubMessage);
    }
    let region = bytes_range(raw, 16, 16 + len);
    proof {
        assert(region@ =~= payload.subrange(2, 2 + len));
    }
    match parse_pdus(&region) {
        Err(e) => Err(e),
        Ok(pdus) => Ok(
            Frame { header, from_master, time: 0, wireshark_packet_number: 0, pdus },
        ),
    }
}

} // verus!

