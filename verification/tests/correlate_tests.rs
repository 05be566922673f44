use dump_analyser::correlate::{correlate, PduStat, RECENT_OPEN_TAGS};
use dump_analyser::pdu::{Command, Frame, FrameHeader, Pdu, PduFlags};

fn pdu(tag: u8) -> Pdu {
    Pdu {
        index: tag,
        command: Command::Fprd { address: 0, register: 0x0900 },
        flags: PduFlags { length: 0, circulated: false, is_not_last: false },
        data: vec![],
        working_counter: 0,
    }
}

fn frame(from_master: bool, time: u64, packet_number: usize, tags: &[u8]) -> Frame {
    Frame {
        header: FrameHeader(0x1000),
        from_master,
        time,
        wireshark_packet_number: packet_number,
        pdus: tags.iter().map(|t| pdu(*t)).collect(),
    }
}

fn scenario() -> String {
    "bench".to_string()
}

#[test]
fn conservation_two_pairs_in_order() {
    let frames = vec![
        frame(true, 100, 1, &[1]),
        frame(false, 1_100, 2, &[1]),
        frame(true, 2_100, 3, &[2]),
        frame(false, 2_600, 4, &[2]),
    ];
    let pairs = correlate(&frames, &scenario(), RECENT_OPEN_TAGS).expect("correlate");
    assert_eq!(pairs.len(), 2);
    for p in &pairs {
        assert!(p.rx_time != 0, "every record is completed");
        assert_eq!(p.delta_time, p.rx_time - p.tx_time);
    }
    assert_eq!(pairs[0].tx_time, 0);
    assert_eq!(pairs[0].rx_time, 1_000);
    assert_eq!(pairs[0].delta_time, 1_000);
    assert_eq!(pairs[1].tx_time, 2_000);
    assert_eq!(pairs[1].delta_time, 500);
}

#[test]
fn conservation_interleaved_same_tag() {
    // Two commands with the same tag in flight; each response closes the
    // most recent still-open record with that tag.
    let frames = vec![
        frame(true, 0, 1, &[7]),
        frame(true, 10, 2, &[7]),
        frame(false, 30, 3, &[7]),
        frame(false, 50, 4, &[7]),
    ];
    let pairs = correlate(&frames, &scenario(), RECENT_OPEN_TAGS).expect("correlate");
    assert_eq!(pairs.len(), 2);
    // The first response closed the second (most recent) command.
    assert_eq!(pairs[1].tx_time, 10);
    assert_eq!(pairs[1].rx_time, 30);
    assert_eq!(pairs[1].delta_time, 20);
    assert_eq!(pairs[0].tx_time, 0);
    assert_eq!(pairs[0].rx_time, 50);
    assert_eq!(pairs[0].delta_time, 50);
}

#[test]
fn multiple_pdus_per_frame() {
    let frames = vec![
        frame(true, 0, 1, &[1, 2]),
        frame(false, 40, 2, &[1, 2]),
    ];
    let pairs = correlate(&frames, &scenario(), RECENT_OPEN_TAGS).expect("correlate");
    assert_eq!(pairs.len(), 2);
    assert_eq!(pairs[0].index, 1);
    assert_eq!(pairs[1].index, 2);
    assert!(pairs.iter().all(|p| p.rx_time == 40));
}

#[test]
fn first_packet_response_is_skipped() {
    // A device response as the very first capture packet: tolerated, no
    // record, no error.
    let frames = vec![frame(false, 5, 1, &[9])];
    let pairs = correlate(&frames, &scenario(), RECENT_OPEN_TAGS).expect("correlate");
    assert!(pairs.is_empty());
}

#[test]
fn later_unmatched_response_is_an_error() {
    let frames = vec![
        frame(true, 0, 1, &[1]),
        frame(false, 10, 2, &[2]),
    ];
    let err = correlate(&frames, &scenario(), RECENT_OPEN_TAGS).unwrap_err();
    assert_eq!(err.packet_number, 2);
    assert_eq!(err.sequence_tag, 2);
    assert_eq!(err.recent_open_tags, vec![1]);
}

#[test]
fn error_reports_recent_open_tags_newest_first() {
    let frames = vec![
        frame(true, 0, 1, &[1]),
        frame(true, 1, 2, &[2]),
        frame(true, 2, 3, &[3]),
        frame(false, 3, 4, &[3]),
        frame(false, 4, 5, &[9]),
    ];
    let err = correlate(&frames, &scenario(), RECENT_OPEN_TAGS).unwrap_err();
    assert_eq!(err.sequence_tag, 9);
    assert_eq!(err.packet_number, 5);
    // Tag 3 was closed; the still-open tags come newest first.
    assert_eq!(err.recent_open_tags, vec![2, 1]);
}

#[test]
fn recent_open_tags_are_limited() {
    let mut frames: Vec<Frame> = Vec::new();
    for k in 0..10u64 {
        frames.push(frame(true, k, (k + 1) as usize, &[k as u8]));
    }
    frames.push(frame(false, 100, 11, &[77]));
    let err = correlate(&frames, &scenario(), 4).unwrap_err();
    assert_eq!(err.recent_open_tags, vec![9, 8, 7, 6]);
}

#[test]
fn record_carries_scenario_and_command() {
    let frames = vec![frame(true, 0, 1, &[1])];
    let pairs = correlate(&frames, &scenario(), RECENT_OPEN_TAGS).expect("correlate");
    let p: &PduStat = &pairs[0];
    assert_eq!(p.scenario, "bench");
    assert_eq!(p.command, "FPRD");
    assert_eq!(p.packet_number, 1);
    assert_eq!(p.rx_time, 0, "still open");
    assert_eq!(p.delta_time, 0);
}

#[test]
fn start_offset_is_first_frame_time() {
    // The first frame carries no PDUs but still sets the epoch.
    let frames = vec![
        frame(true, 500, 1, &[]),
        frame(true, 700, 2, &[4]),
    ];
    let pairs = correlate(&frames, &scenario(), RECENT_OPEN_TAGS).expect("correlate");
    assert_eq!(pairs.len(), 1);
    assert_eq!(pairs[0].tx_time, 200);
}
