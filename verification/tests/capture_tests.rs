use std::borrow::Cow;
use std::time::Duration;

use pcap_file::pcapng::blocks::enhanced_packet::EnhancedPacketBlock;
use pcap_file::pcapng::blocks::interface_description::{
    InterfaceDescriptionBlock, InterfaceDescriptionOption,
};
use pcap_file::pcapng::blocks::simple_packet::SimplePacketBlock;
use pcap_file::pcapng::PcapNgWriter;
use pcap_file::DataLink;

use dump_analyser::capture::{process_data_frame, FilterPolicy, PcapFile};
use dump_analyser::error::{AnalyseError, DecodeError};

/// A link-layer frame: Ethernet header, EtherCAT datagram header, one PDU.
fn frame_bytes(from_master: bool, tag: u8) -> Vec<u8> {
    let mut out = Vec::new();
    out.extend_from_slice(&[0xFF; 6]);
    // The controller's source identity has the locally-administered bit
    // clear; the device reply identity has it set.
    out.push(if from_master { 0x10 } else { 0x12 });
    out.extend_from_slice(&[0x10; 5]);
    out.extend_from_slice(&[0x88, 0xA4]);
    let mut region = vec![0x04u8, tag]; // FPRD
    region.extend_from_slice(&[0, 0, 0, 0]); // address, register
    region.extend_from_slice(&0u16.to_le_bytes()); // flags: no payload
    region.extend_from_slice(&[0, 0]); // reserved
    region.extend_from_slice(&1u16.to_le_bytes()); // working counter
    let header: u16 = (region.len() as u16) | 0x1000;
    out.extend_from_slice(&header.to_le_bytes());
    out.extend_from_slice(&region);
    out
}

fn idb(options: Vec<InterfaceDescriptionOption<'static>>) -> InterfaceDescriptionBlock<'static> {
    InterfaceDescriptionBlock { linktype: DataLink::ETHERNET, snaplen: 0, options }
}

fn epb(data: Vec<u8>, t_ns: u64) -> EnhancedPacketBlock<'static> {
    EnhancedPacketBlock {
        interface_id: 0,
        timestamp: Duration::from_nanos(t_ns),
        original_len: data.len() as u32,
        data: Cow::Owned(data),
        options: vec![],
    }
}

#[test]
fn end_to_end_six_block_capture() {
    let mut writer = PcapNgWriter::new(Vec::new()).expect("writer");
    writer
        .write_pcapng_block(idb(vec![InterfaceDescriptionOption::IfTsResol(9)]))
        .expect("idb");
    writer.write_pcapng_block(epb(frame_bytes(true, 1), 0)).expect("epb");
    writer.write_pcapng_block(epb(frame_bytes(false, 1), 1_000)).expect("epb");
    writer.write_pcapng_block(epb(frame_bytes(true, 2), 2_000)).expect("epb");
    writer.write_pcapng_block(epb(frame_bytes(false, 2), 2_500)).expect("epb");
    let bytes = writer.into_inner();

    let mut reader = PcapFile::new(bytes, "six_blocks".to_string()).expect("open");
    assert_eq!(reader.timestamp_resolution, 9);
    let pairs = reader.match_tx_rx().expect("correlate");

    assert_eq!(pairs.len(), 2);
    assert_eq!(pairs[0].index, 1);
    assert_eq!(pairs[0].tx_time, 0);
    assert_eq!(pairs[0].rx_time, 1_000);
    assert_eq!(pairs[0].delta_time, 1_000);
    assert_eq!(pairs[1].index, 2);
    assert_eq!(pairs[1].tx_time, 2_000);
    assert_eq!(pairs[1].rx_time, 2_500);
    assert_eq!(pairs[1].delta_time, 500);
    assert_eq!(pairs[0].packet_number, 1);
    assert_eq!(pairs[1].packet_number, 3);
    assert!(pairs.iter().all(|p| p.scenario == "six_blocks"));
    assert!(pairs.iter().all(|p| p.command == "FPRD"));
}

#[test]
fn metadata_defaults_when_absent() {
    let mut writer = PcapNgWriter::new(Vec::new()).expect("writer");
    writer.write_pcapng_block(idb(vec![])).expect("idb");
    writer.write_pcapng_block(epb(frame_bytes(true, 1), 0)).expect("epb");
    let bytes = writer.into_inner();
    let reader = PcapFile::new(bytes, "s".to_string()).expect("open");
    assert_eq!(reader.cpu, "(unknown hardware)");
    assert_eq!(reader.os, "(unknown OS)");
    assert_eq!(reader.if_name, "(unnamed interface)");
    assert_eq!(reader.timestamp_resolution, 9);
    assert_eq!(reader.packet_number, 0);
}

#[test]
fn interface_metadata_is_recovered() {
    let mut writer = PcapNgWriter::new(Vec::new()).expect("writer");
    writer
        .write_pcapng_block(idb(vec![
            InterfaceDescriptionOption::IfName(Cow::Borrowed("eth7")),
            InterfaceDescriptionOption::IfTsResol(6),
        ]))
        .expect("idb");
    writer.write_pcapng_block(epb(frame_bytes(true, 1), 0)).expect("epb");
    let bytes = writer.into_inner();
    let reader = PcapFile::new(bytes, "s".to_string()).expect("open");
    assert_eq!(reader.if_name, "eth7");
    assert_eq!(reader.timestamp_resolution, 6);
}

#[test]
fn non_ethercat_frames_are_dropped() {
    // An IPv4 ethertype frame between the two EtherCAT frames is skipped
    // silently, but still counted in the packet numbering.
    let mut other = frame_bytes(true, 1);
    other[12] = 0x08;
    other[13] = 0x00;
    let mut writer = PcapNgWriter::new(Vec::new()).expect("writer");
    writer.write_pcapng_block(idb(vec![])).expect("idb");
    writer.write_pcapng_block(epb(frame_bytes(true, 1), 0)).expect("epb");
    writer.write_pcapng_block(epb(other, 10)).expect("epb");
    writer.write_pcapng_block(epb(frame_bytes(false, 1), 1_000)).expect("epb");
    let bytes = writer.into_inner();
    let mut reader = PcapFile::new(bytes, "s".to_string()).expect("open");
    let pairs = reader.match_tx_rx().expect("correlate");
    assert_eq!(pairs.len(), 1);
    assert_eq!(pairs[0].delta_time, 1_000);
}

#[test]
fn unmatched_response_aborts_the_file() {
    let mut writer = PcapNgWriter::new(Vec::new()).expect("writer");
    writer.write_pcapng_block(idb(vec![])).expect("idb");
    writer.write_pcapng_block(epb(frame_bytes(true, 1), 0)).expect("epb");
    writer.write_pcapng_block(epb(frame_bytes(false, 9), 50)).expect("epb");
    let bytes = writer.into_inner();
    let mut reader = PcapFile::new(bytes, "s".to_string()).expect("open");
    match reader.match_tx_rx() {
        Err(AnalyseError::Correlation(e)) => {
            assert_eq!(e.packet_number, 2);
            assert_eq!(e.sequence_tag, 9);
            assert_eq!(e.recent_open_tags, vec![1]);
        },
        other => panic!("expected a correlation error, got {:?}", other.map(|v| v.len())),
    }
}

#[test]
fn unexpected_block_is_a_decode_error() {
    let mut writer = PcapNgWriter::new(Vec::new()).expect("writer");
    writer.write_pcapng_block(idb(vec![])).expect("idb");
    writer.write_pcapng_block(epb(frame_bytes(true, 1), 0)).expect("epb");
    writer
        .write_pcapng_block(SimplePacketBlock {
            original_len: 4,
            data: Cow::Owned(vec![1, 2, 3, 4]),
        })
        .expect("spb");
    let bytes = writer.into_inner();
    let mut reader = PcapFile::new(bytes, "s".to_string()).expect("open");
    match reader.match_tx_rx() {
        Err(AnalyseError::Decode(DecodeError::UnexpectedBlock { packet_number })) => {
            assert_eq!(packet_number, 2);
        },
        other => panic!("expected a decode error, got {:?}", other.map(|v| v.len())),
    }
}

#[test]
fn garbage_bytes_are_a_container_error() {
    let bytes = vec![0xDEu8, 0xAD, 0xBE, 0xEF, 1, 2, 3, 4, 5, 6, 7, 8];
    match PcapFile::new(bytes, "s".to_string()) {
        Err(AnalyseError::Container(_)) => {},
        Err(other) => panic!("expected a container error, got {:?}", other),
        Ok(_) => panic!("expected an error"),
    }
}

#[test]
fn malformed_frame_is_a_decode_error() {
    // An EtherCAT ethertype frame whose datagram header declares a longer
    // sub-message region than the frame holds.
    let mut raw = Vec::new();
    raw.extend_from_slice(&[0xFF; 6]);
    raw.extend_from_slice(&[0x10; 6]);
    raw.extend_from_slice(&[0x88, 0xA4]);
    let header: u16 = 200 | 0x1000;
    raw.extend_from_slice(&header.to_le_bytes());
    raw.extend_from_slice(&[0; 8]);
    let mut writer = PcapNgWriter::new(Vec::new()).expect("writer");
    writer.write_pcapng_block(idb(vec![])).expect("idb");
    writer.write_pcapng_block(epb(raw, 0)).expect("epb");
    let bytes = writer.into_inner();
    let mut reader = PcapFile::new(bytes, "s".to_string()).expect("open");
    match reader.match_tx_rx() {
        Err(AnalyseError::Decode(DecodeError::TruncatedSubMessage)) => {},
        other => panic!("expected a decode error, got {:?}", other.map(|v| v.len())),
    }
}

#[test]
fn source_address_filter_policy() {
    // A frame from a third station: EtherCAT ethertype, foreign source.
    let mut foreign = frame_bytes(true, 1);
    foreign[6] = 0x20;
    // The ethertype policy keeps it; the source-address policy drops it.
    assert!(process_data_frame(&foreign, 0, 1, FilterPolicy::EtherType)
        .expect("decode")
        .is_some());
    assert!(process_data_frame(&foreign, 0, 1, FilterPolicy::SourceAddress)
        .expect("decode")
        .is_none());
    // Both fixed identities pass the source-address policy.
    for first in [0x10u8, 0x12u8] {
        let mut own = frame_bytes(true, 1);
        own[6] = first;
        assert!(process_data_frame(&own, 0, 1, FilterPolicy::SourceAddress)
            .expect("decode")
            .is_some());
    }
}

#[test]
fn filter_policy_is_a_construction_time_choice() {
    // With the source-address policy configured on the reader, a frame from
    // a third station is dropped silently instead of decoded.
    let mut foreign = frame_bytes(true, 3);
    foreign[6] = 0x20;
    let mut writer = PcapNgWriter::new(Vec::new()).expect("writer");
    writer.write_pcapng_block(idb(vec![])).expect("idb");
    writer.write_pcapng_block(epb(frame_bytes(true, 1), 0)).expect("epb");
    writer.write_pcapng_block(epb(foreign, 10)).expect("epb");
    writer.write_pcapng_block(epb(frame_bytes(false, 1), 1_000)).expect("epb");
    let bytes = writer.into_inner();
    let mut reader =
        PcapFile::with_filter(bytes, "s".to_string(), FilterPolicy::SourceAddress).expect("open");
    let pairs = reader.match_tx_rx().expect("correlate");
    assert_eq!(pairs.len(), 1);
    assert_eq!(pairs[0].index, 1);
}

#[test]
fn data_frame_before_interface_description_is_fatal() {
    // The preamble expects interface metadata before any data block; a
    // capture that opens straight with a data frame is malformed. The
    // writer refuses to produce such a capture, so splice the blocks of a
    // well-formed one: keep its section header, drop the interface
    // description, keep the packet block.
    let mut writer = PcapNgWriter::new(Vec::new()).expect("writer");
    writer.write_pcapng_block(idb(vec![])).expect("idb");
    writer.write_pcapng_block(epb(frame_bytes(true, 1), 0)).expect("epb");
    let good = writer.into_inner();
    let block_len = |at: usize| u32::from_le_bytes(good[at + 4..at + 8].try_into().unwrap()) as usize;
    let shb_len = block_len(0);
    let idb_len = block_len(shb_len);
    let mut spliced = Vec::new();
    spliced.extend_from_slice(&good[..shb_len]);
    spliced.extend_from_slice(&good[shb_len + idb_len..]);
    match PcapFile::new(spliced, "s".to_string()) {
        Err(AnalyseError::Container(_)) => {},
        Err(other) => panic!("expected a container error, got {:?}", other),
        Ok(_) => panic!("expected an error"),
    }
}

#[test]
fn capture_without_interface_description_uses_defaults() {
    // A container holding only the section header: the preamble reaches a
    // clean end and every metadata field keeps its sentinel.
    let writer = PcapNgWriter::new(Vec::new()).expect("writer");
    let bytes = writer.into_inner();
    let mut reader = PcapFile::new(bytes, "s".to_string()).expect("open");
    assert_eq!(reader.timestamp_resolution, 9);
    assert_eq!(reader.if_name, "(unnamed interface)");
    let pairs = reader.match_tx_rx().expect("correlate");
    assert!(pairs.is_empty());
}
