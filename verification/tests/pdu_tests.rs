use dump_analyser::error::DecodeError;
use dump_analyser::pdu::{parse_pdu, Command, FrameHeader, PduFlags};

/// A link-layer frame: Ethernet header, EtherCAT datagram header, then the
/// given already-encoded PDU region.
fn frame_bytes(src_first_byte: u8, region: &[u8]) -> Vec<u8> {
    let mut out = Vec::new();
    out.extend_from_slice(&[0xFF; 6]); // destination
    out.push(src_first_byte); // source
    out.extend_from_slice(&[0x10; 5]);
    out.extend_from_slice(&[0x88, 0xA4]); // EtherCAT ethertype
    let header: u16 = (region.len() as u16) | 0x1000;
    out.extend_from_slice(&header.to_le_bytes());
    out.extend_from_slice(region);
    out
}

/// One encoded PDU with a four-byte address field.
fn pdu_bytes(code: u8, index: u8, addr: [u8; 4], data: &[u8], wkc: u16) -> Vec<u8> {
    let mut out = vec![code, index];
    out.extend_from_slice(&addr);
    let flags: u16 = data.len() as u16;
    out.extend_from_slice(&flags.to_le_bytes());
    out.extend_from_slice(&[0, 0]); // reserved/interrupt field
    out.extend_from_slice(data);
    out.extend_from_slice(&wkc.to_le_bytes());
    out
}

#[test]
fn header_pack_unpack_round_trip() {
    for len in [0u16, 1, 2, 0x07FE, 0x07FF] {
        let h = FrameHeader::pack(len, 1);
        assert_eq!(h.payload_len(), len);
        assert_eq!(h.protocol_type(), 1);
    }
}

#[test]
fn header_parse_rejects_wrong_protocol_tag() {
    // Tag 4 (network variables) instead of 1.
    let raw: u16 = 0x4000;
    let bytes = raw.to_le_bytes();
    assert_eq!(
        FrameHeader::parse(&bytes),
        Err(DecodeError::ProtocolTypeMismatch { found: 4 })
    );
}

#[test]
fn header_parse_too_short() {
    assert_eq!(FrameHeader::parse(&[0x12]), Err(DecodeError::FrameTooShort));
}

#[test]
fn flags_pack_unpack_round_trip() {
    for length in [0u16, 1, 0x400, 0x07FF] {
        for circulated in [false, true] {
            for is_not_last in [false, true] {
                let f = PduFlags { length, circulated, is_not_last };
                let packed = f.pack();
                assert_eq!(PduFlags::unpack(&packed), f);
            }
        }
    }
}

#[test]
fn flags_bit_layout() {
    let f = PduFlags { length: 3, circulated: true, is_not_last: true };
    let packed = f.pack();
    assert_eq!(packed, [0x03, 0xC0]);
}

#[test]
fn parse_single_fprd() {
    let region = pdu_bytes(0x04, 0x17, [0x34, 0x12, 0x20, 0x01], &[0xAA, 0xBB], 3);
    let raw = frame_bytes(0x10, &region);
    let frame = parse_pdu(&raw).expect("decode");
    assert!(frame.from_master);
    assert_eq!(frame.pdus.len(), 1);
    let p = &frame.pdus[0];
    assert_eq!(p.index, 0x17);
    assert_eq!(p.command, Command::Fprd { address: 0x1234, register: 0x0120 });
    assert_eq!(p.flags.length, 2);
    assert!(!p.flags.circulated);
    assert!(!p.flags.is_not_last);
    assert_eq!(p.data, vec![0xAA, 0xBB]);
    assert_eq!(p.working_counter, 3);
}

#[test]
fn parse_logical_command_address() {
    let region = pdu_bytes(0x0C, 0x01, [0x78, 0x56, 0x34, 0x12], &[], 0);
    let raw = frame_bytes(0x12, &region);
    let frame = parse_pdu(&raw).expect("decode");
    assert!(!frame.from_master);
    assert_eq!(frame.pdus[0].command, Command::Lrw { address: 0x12345678 });
}

#[test]
fn parse_nop_has_no_address_field() {
    // NOP: code, index, then directly flags, irq, data, wkc.
    let mut region = vec![0x00u8, 0x05];
    region.extend_from_slice(&0u16.to_le_bytes()); // flags: empty payload
    region.extend_from_slice(&[0, 0]);
    region.extend_from_slice(&0u16.to_le_bytes());
    let raw = frame_bytes(0x10, &region);
    let frame = parse_pdu(&raw).expect("decode");
    assert_eq!(frame.pdus[0].command, Command::Nop);
    assert_eq!(frame.pdus[0].index, 0x05);
}

#[test]
fn parse_two_chained_pdus() {
    let mut region = pdu_bytes(0x01, 0x01, [0, 0, 0, 0], &[0x01], 0);
    region.extend_from_slice(&pdu_bytes(0x05, 0x02, [1, 0, 2, 0], &[], 7));
    let raw = frame_bytes(0x10, &region);
    let frame = parse_pdu(&raw).expect("decode");
    assert_eq!(frame.pdus.len(), 2);
    assert_eq!(frame.pdus[0].command, Command::Aprd { address: 0, register: 0 });
    assert_eq!(frame.pdus[1].command, Command::Fpwr { address: 1, register: 2 });
    assert_eq!(frame.pdus[1].working_counter, 7);
}

#[test]
fn unknown_command_code_is_an_error() {
    // 0x0F is not in the command table: a decode error, not a NOP.
    let region = pdu_bytes(0x0F, 0x01, [0, 0, 0, 0], &[], 0);
    let raw = frame_bytes(0x10, &region);
    assert_eq!(
        parse_pdu(&raw),
        Err(DecodeError::UnknownCommandCode { code: 0x0F })
    );
}

#[test]
fn truncated_sub_message_is_an_error() {
    // The flags word declares 5 payload bytes, the region holds 1.
    let mut region = vec![0x04u8, 0x01, 0, 0, 0, 0];
    region.extend_from_slice(&5u16.to_le_bytes());
    region.extend_from_slice(&[0, 0]);
    region.push(0xAA);
    let raw = frame_bytes(0x10, &region);
    assert_eq!(parse_pdu(&raw), Err(DecodeError::TruncatedSubMessage));
}

#[test]
fn frame_too_short_is_an_error() {
    assert_eq!(parse_pdu(&vec![0u8; 10]), Err(DecodeError::FrameTooShort));
}

#[test]
fn trailing_bytes_after_declared_length_are_ignored() {
    let region = pdu_bytes(0x04, 0x01, [0, 0, 0, 0], &[], 1);
    let mut raw = frame_bytes(0x10, &region);
    raw.extend_from_slice(&[0xDE, 0xAD, 0xBE, 0xEF]); // capture padding
    let frame = parse_pdu(&raw).expect("decode");
    assert_eq!(frame.pdus.len(), 1);
}

#[test]
fn decode_determinism() {
    let mut region = pdu_bytes(0x04, 0x09, [9, 0, 8, 0], &[1, 2, 3], 2);
    region.extend_from_slice(&pdu_bytes(0x0A, 0x0A, [1, 2, 3, 4], &[], 0));
    let raw = frame_bytes(0x12, &region);
    let a = parse_pdu(&raw).expect("decode");
    let b = parse_pdu(&raw).expect("decode");
    assert_eq!(a, b);
}

#[test]
fn command_descriptions() {
    assert_eq!(Command::Nop.description(), "NOP");
    assert_eq!(Command::Fprd { address: 0, register: 0 }.description(), "FPRD");
    assert_eq!(Command::Lrw { address: 0 }.description(), "LRW");
}

#[test]
fn command_register_and_address_accessors() {
    let c = Command::Fprd { address: 0x1001, register: 0x0120 };
    assert_eq!(c.register(), Some(0x0120));
    assert_eq!(c.subdevice_address(), Some(0x1001));
    assert_eq!(Command::Nop.register(), None);
    assert_eq!(Command::Lrw { address: 5 }.register(), None);
    assert_eq!(Command::Lrd { address: 5 }.subdevice_address(), None);
}
