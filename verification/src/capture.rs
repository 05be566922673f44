//! Reading a pcapng capture into decoded frames.
//!
//! The pcapng container is parsed by the `pcap_file` crate behind a small
//! trusted boundary. The parse of an in-memory buffer is a pure function of
//! its bytes, so the boundary names it: `spec_container` stands for what
//! opening the buffer yields — whether the section header parses, the
//! section's options, the well-formed block prefix, and whether the stream
//! ends cleanly — and `spec_reader_rest` stands for what an open reader has
//! left to yield. Everything downstream — recovering the section and
//! interface metadata, filtering and decoding frames, numbering capture
//! packets, correlating — is verified exactly against those names, so every
//! result is pinned to the capture's content.

use vstd::prelude::*;

use crate::correlate::{correlate, correlate_result, spec_correlate, stats_view, PduStat, RECENT_OPEN_TAGS};
use crate::error::{AnalyseError, ContainerFormatError, DecodeError};
use crate::pdu::{parse_pdu, spec_be_u16, spec_decode_frame, Frame, FrameModel, ETHERCAT_ETHERTYPE_RAW};

verus! {

/// A section-header option, reduced to the plain values the reader uses.
#[derive(Clone, Debug, PartialEq, Eq)]
pub enum ShbOption {
    /// Description of the capturing hardware.
    Hardware(String),
    /// Name of the capturing operating system.
    Os(String),
    /// Any other option; carried only so that positions are kept.
    Other,
}

/// Spec-level image of a [`ShbOption`].
pub enum ShbOptionModel {
    Hardware(Seq<char>),
    Os(Seq<char>),
    Other,
}

impl View for ShbOption {
    type V = ShbOptionModel;

    open spec fn view(&self) -> ShbOptionModel {
        match self {
            ShbOption::Hardware(h) => ShbOptionModel::Hardware(h@),
            ShbOption::Os(s) => ShbOptionModel::Os(s@),
            ShbOption::Other => ShbOptionModel::Other,
        }
    }
}

/// The spec-level images of a sequence of section-header options.
pub open spec fn shb_view(s: Seq<ShbOption>) -> Seq<ShbOptionModel> {
    s.map_values(|o: ShbOption| o@)
}

/// An interface-description option, reduced to the plain values the reader
/// uses.
#[derive(Clone, Debug, PartialEq, Eq)]
pub enum IdbOption {
    /// Name of the capture interface.
    Name(String),
    /// Timestamp-resolution exponent of the interface.
    TsResol(u8),
    /// Any other option.
    Other,
}

/// Spec-level image of an [`IdbOption`].
pub enum IdbOptionModel {
    Name(Seq<char>),
    TsResol(u8),
    Other,
}

impl View for IdbOption {
    type V = IdbOptionModel;

    open spec fn view(&self) -> IdbOptionModel {
        match self {
            IdbOption::Name(n) => IdbOptionModel::Name(n@),
            IdbOption::TsResol(t) => IdbOptionModel::TsResol(*t),
            IdbOption::Other => IdbOptionModel::Other,
        }
    }
}

/// The spec-level images of a sequence of interface-description options.
pub open spec fn idb_view(s: Seq<IdbOption>) -> Seq<IdbOptionModel> {
    s.map_values(|o: IdbOption| o@)
}

/// One block of the capture container, reduced to plain values.
#[derive(Clone, Debug)]
pub enum CaptureBlock {
    /// A section header (beyond the leading one the reader consumed).
    Section,
    /// An interface description, with its options.
    InterfaceDescription(Vec<IdbOption>),
    /// Interface statistics; skipped wherever it turns up.
    InterfaceStatistics,
    /// A captured link-layer frame and its timestamp in nanoseconds.
    DataFrame(Vec<u8>, u64),
    /// Any other block type.
    Other,
}

/// Spec-level image of a [`CaptureBlock`].
pub enum CaptureBlockModel {
    Section,
    InterfaceDescription(Seq<IdbOptionModel>),
    InterfaceStatistics,
    DataFrame(Seq<u8>, u64),
    Other,
}

impl View for CaptureBlock {
    type V = CaptureBlockModel;

    open spec fn view(&self) -> CaptureBlockModel {
        match self {
            CaptureBlock::Section => CaptureBlockModel::Section,
            CaptureBlock::InterfaceDescription(opts) => CaptureBlockModel::InterfaceDescription(
                idb_view(opts@),
            ),
            CaptureBlock::InterfaceStatistics => CaptureBlockModel::InterfaceStatistics,
            CaptureBlock::DataFrame(bytes, time) => CaptureBlockModel::DataFrame(bytes@, *time),
            CaptureBlock::Other => CaptureBlockModel::Other,
        }
    }
}

/// The container reader over an in-memory buffer, together with the buffer
/// it owns. Verus refuses a declaration of the underlying reader type (its
/// `Read` bound has no specification here), so the pairing is held whole
/// behind this opaque struct; the two names below describe its contents.
#[verifier::external_body]
pub struct CaptureReader {
    inner: pcap_file::pcapng::PcapNgReader<std::io::Cursor<Vec<u8>>>,
}

#[verifier::external_type_specification]
#[verifier::external_body]
pub struct ExBlock<'a>(pcap_file::pcapng::Block<'a>);

#[verifier::external_type_specification]
#[verifier::external_body]
pub struct ExSectionHeaderOption<'a>(
    pcap_file::pcapng::blocks::section_header::SectionHeaderOption<'a>,
);

#[verifier::external_type_specification]
#[verifier::external_body]
pub struct ExInterfaceDescriptionOption<'a>(
    pcap_file::pcapng::blocks::interface_description::InterfaceDescriptionOption<'a>,
);

/// What opening a pcapng buffer yields. The parse of an in-memory buffer is
/// a function of its bytes alone. The components: whether the leading
/// section header parses; the section's options; the prefix of well-formed
/// blocks the reader then yields, in order; and whether the stream ends
/// cleanly right after them (rather than in a malformed or truncated block).
pub uninterp spec fn spec_container(data: Seq<u8>) -> (bool, Seq<ShbOptionModel>, Seq<CaptureBlockModel>, bool);

/// What an open reader has left to yield: the remaining well-formed blocks,
/// and whether the stream ends cleanly after them.
pub uninterp spec fn spec_reader_rest(r: CaptureReader) -> (Seq<CaptureBlockModel>, bool);

/// Relies on `SectionHeaderOption`'s variants: tells them apart and moves the
/// hardware and operating-system strings out.
#[verifier::external_body]
fn convert_shb_option(
    o: &pcap_file::pcapng::blocks::section_header::SectionHeaderOption<'_>,
) -> (r: ShbOption) {
    match o {
        pcap_file::pcapng::blocks::section_header::SectionHeaderOption::Hardware(h) => {
            ShbOption::Hardware(h.to_string())
        },
        pcap_file::pcapng::blocks::section_header::SectionHeaderOption::OS(s) => {
            ShbOption::Os(s.to_string())
        },
        _ => ShbOption::Other,
    }
}

/// Relies on `InterfaceDescriptionOption`'s variants: tells them apart and
/// moves the interface name and timestamp resolution out.
#[verifier::external_body]
fn convert_idb_option(
    o: &pcap_file::pcapng::blocks::interface_description::InterfaceDescriptionOption<'_>,
) -> (r: IdbOption) {
    match o {
        pcap_file::pcapng::blocks::interface_description::InterfaceDescriptionOption::IfName(n) => {
            IdbOption::Name(n.to_string())
        },
        pcap_file::pcapng::blocks::interface_description::InterfaceDescriptionOption::IfTsResol(t) => {
            IdbOption::TsResol(*t)
        },
        _ => IdbOption::Other,
    }
}

/// Relies on `pcap_file::pcapng::Block`'s variants: converts a parsed block
/// to its plain-value image, one arm per variant. An enhanced-packet block
/// yields its bytes and its timestamp in nanoseconds, as `pcap_file` stores
/// it.
#[verifier::external_body]
fn convert_block(b: pcap_file::pcapng::Block<'_>) -> (r: CaptureBlock) {
    match b {
        pcap_file::pcapng::Block::EnhancedPacket(e) => {
            CaptureBlock::DataFrame(e.data.to_vec(), e.timestamp.as_nanos() as u64)
        },
        pcap_file::pcapng::Block::InterfaceDescription(i) => {
            CaptureBlock::InterfaceDescription(i.options.iter().map(convert_idb_option).collect())
        },
        pcap_file::pcapng::Block::InterfaceStatistics(_) => CaptureBlock::InterfaceStatistics,
        pcap_file::pcapng::Block::SectionHeader(_) => CaptureBlock::Section,
        _ => CaptureBlock::Other,
    }
}

/// Relies on `pcap_file::pcapng::PcapNgReader::new` and `section`: opens the
/// buffer, parsing its leading section header — success exactly when that
/// header parses — and hands back the reader with the section's options
/// converted one for one. The reader then yields the buffer's well-formed
/// block prefix; every block occupies at least its 12-byte envelope, which
/// bounds how many there are.
#[verifier::external_body]
fn reader_open(data: Vec<u8>) -> (r: Result<(CaptureReader, Vec<ShbOption>), ContainerFormatError>)
    ensures
        r is Ok <==> spec_container(data@).0,
        r matches Ok((rd, shb)) ==> {
            &&& shb_view(shb@) == spec_container(data@).1
            &&& spec_reader_rest(rd) == (spec_container(data@).2, spec_container(data@).3)
            &&& 12 * spec_container(data@).2.len() <= data@.len()
        },
{
    let rd = match pcap_file::pcapng::PcapNgReader::new(std::io::Cursor::new(data)) {
        Ok(rd) => rd,
        Err(e) => return Err(ContainerFormatError { detail: format!("{e:?}") }),
    };
    let shb = rd.section().options.iter().map(convert_shb_option).collect();
    Ok((CaptureReader { inner: rd }, shb))
}

/// Relies on `pcap_file::pcapng::PcapNgReader::next_block`: yields the next
/// well-formed block, converted to plain values; `None` exactly at a clean
/// end of the stream; an error exactly when the remaining bytes do not form
/// a block.
#[verifier::external_body]
fn reader_next(rd: &mut CaptureReader) -> (r: Result<Option<CaptureBlock>, ContainerFormatError>)
    ensures
        spec_reader_rest(*old(rd)).0.len() > 0 ==> (r matches Ok(Some(b)) && b@
            == spec_reader_rest(*old(rd)).0[0] && spec_reader_rest(*final(rd)) == (
        spec_reader_rest(*old(rd)).0.skip(1),
        spec_reader_rest(*old(rd)).1,
        )),
        spec_reader_rest(*old(rd)).0.len() == 0 && spec_reader_rest(*old(rd)).1 ==> (r matches Ok(
            None,
        ) && spec_reader_rest(*final(rd)) == spec_reader_rest(*old(rd))),
        spec_reader_rest(*old(rd)).0.len() == 0 && !spec_reader_rest(*old(rd)).1 ==> r is Err,
{
    match rd.inner.next_block() {
        None => Ok(None),
        Some(Ok(block)) => Ok(Some(convert_block(block))),
        Some(Err(e)) => Err(ContainerFormatError { detail: format!("{e:?}") }),
    }
}

/// The first hardware string among a section header's options.
pub open spec fn spec_first_hardware(opts: Seq<ShbOptionModel>) -> Option<Seq<char>>
    decreases opts.len(),
{
    if opts.len() == 0 {
        None
    } else {
        match opts[0] {
            ShbOptionModel::Hardware(h) => Some(h),
            _ => spec_first_hardware(opts.skip(1)),
        }
    }
}

/// The first operating-system string among a section header's options.
pub open spec fn spec_first_os(opts: Seq<ShbOptionModel>) -> Option<Seq<char>>
    decreases opts.len(),
{
    if opts.len() == 0 {
        None
    } else {
        match opts[0] {
            ShbOptionModel::Os(s) => Some(s),
            _ => spec_first_os(opts.skip(1)),
        }
    }
}

/// The first interface name among an interface description's options.
pub open spec fn spec_first_if_name(opts: Seq<IdbOptionModel>) -> Option<Seq<char>>
    decreases opts.len(),
{
    if opts.len() == 0 {
        None
    } else {
        match opts[0] {
            IdbOptionModel::Name(n) => Some(n),
            _ => spec_first_if_name(opts.skip(1)),
        }
    }
}

/// The first timestamp-resolution exponent among an interface description's
/// options.
pub open spec fn spec_first_ts_resol(opts: Seq<IdbOptionModel>) -> Option<u8>
    decreases opts.len(),
{
    if opts.len() == 0 {
        None
    } else {
        match opts[0] {
            IdbOptionModel::TsResol(t) => Some(t),
            _ => spec_first_ts_resol(opts.skip(1)),
        }
    }
}

/// Finds the first hardware string among the options.
pub fn first_hardware(opts: &Vec<ShbOption>) -> (r: Option<String>)
    ensures
        match r {
            Some(s) => spec_first_hardware(shb_view(opts@)) == Some(s@),
            None => spec_first_hardware(shb_view(opts@)) == None::<Seq<char>>,
        },
{
    let ghost v = shb_view(opts@);
    proof {
        assert(v.skip(0) =~= v);
    }
    let mut i: usize = 0;
    while i < opts.len()
        invariant
            i <= opts@.len(),
            v == shb_view(opts@),
            spec_first_hardware(v) == spec_first_hardware(v.skip(i as int)),
        decreases opts@.len() - i,
    {
        proof {
            assert(v.skip(i as int)[0] == v[i as int]);
            assert(v[i as int] == opts@[i as int]@);
            assert(v.skip(i as int).skip(1) =~= v.skip(i + 1));
        }
        match &opts[i] {
            ShbOption::Hardware(h) => {
                return Some(h.clone());
            },
            _ => {},
        }
        i = i + 1;
    }
    None
}

/// Finds the first operating-system string among the options.
pub fn first_os(opts: &Vec<ShbOption>) -> (r: Option<String>)
    ensures
        match r {
            Some(s) => spec_first_os(shb_view(opts@)) == Some(s@),
            None => spec_first_os(shb_view(opts@)) == None::<Seq<char>>,
        },
{
    let ghost v = shb_view(opts@);
    proof {
        assert(v.skip(0) =~= v);
    }
    let mut i: usize = 0;
    while i < opts.len()
        invariant
            i <= opts@.len(),
            v == shb_view(opts@),
            spec_first_os(v) == spec_first_os(v.skip(i as int)),
        decreases opts@.len() - i,
    {
        proof {
            assert(v.skip(i as int)[0] == v[i as int]);
            assert(v[i as int] == opts@[i as int]@);
            assert(v.skip(i as int).skip(1) =~= v.skip(i + 1));
        }
        match &opts[i] {
            ShbOption::Os(s) => {
                return Some(s.clone());
            },
            _ => {},
        }
        i = i + 1;
    }
    None
}

/// Finds the first interface name among the options.
pub fn first_if_name(opts: &Vec<IdbOption>) -> (r: Option<String>)
    ensures
        match r {
            Some(s) => spec_first_if_name(idb_view(opts@)) == Some(s@),
            None => spec_first_if_name(idb_view(opts@)) == None::<Seq<char>>,
        },
{
    let ghost v = idb_view(opts@);
    proof {
        assert(v.skip(0) =~= v);
    }
    let mut i: usize = 0;
    while i < opts.len()
        invariant
            i <= opts@.len(),
            v == idb_view(opts@),
            spec_first_if_name(v) == spec_first_if_name(v.skip(i as int)),
        decreases opts@.len() - i,
    {
        proof {
            assert(v.skip(i as int)[0] == v[i as int]);
            assert(v[i as int] == opts@[i as int]@);
            assert(v.skip(i as int).skip(1) =~= v.skip(i + 1));
        }
        match &opts[i] {
            IdbOption::Name(n) => {
                return Some(n.clone());
            },
            _ => {},
        }
        i = i + 1;
    }
    None
}

/// Finds the first timestamp-resolution exponent among the options.
pub fn first_ts_resol(opts: &Vec<IdbOption>) -> (r: Option<u8>)
    ensures
        match r {
            Some(t) => spec_first_ts_resol(idb_view(opts@)) == Some(t),
            None => spec_first_ts_resol(idb_view(opts@)) == None::<u8>,
        },
{
    let ghost v = idb_view(opts@);
    proof {
        assert(v.skip(0) =~= v);
    }
    let mut i: usize = 0;
    while i < opts.len()
        invariant
            i <= opts@.len(),
            v == idb_view(opts@),
            spec_first_ts_resol(v) == spec_first_ts_resol(v.skip(i as int)),
        decreases opts@.len() - i,
    {
        proof {
            assert(v.skip(i as int)[0] == v[i as int]);
            assert(v[i as int] == opts@[i as int]@);
            assert(v.skip(i as int).skip(1) =~= v.skip(i + 1));
        }
        match &opts[i] {
            IdbOption::TsResol(t) => {
                return Some(*t);
            },
            _ => {},
        }
        i = i + 1;
    }
    None
}

/// Which frames the reader keeps. Chosen once, at construction.
#[derive(Copy, Clone, Debug, PartialEq, Eq, Structural)]
pub enum FilterPolicy {
    /// Keep every frame with the EtherCAT ethertype.
    EtherType,
    /// Keep EtherCAT-ethertype frames whose source address is one of the two
    /// fixed station identities (controller or device reply).
    SourceAddress,
}

/// Whether a link-layer frame of at least 14 bytes passes the filter. Both
/// policies keep EtherCAT-ethertype traffic only; the source-address policy
/// additionally restricts to the two fixed station identities.
pub open spec fn spec_frame_accepted(b: Seq<u8>, policy: FilterPolicy) -> bool {
    spec_be_u16(b[12], b[13]) == ETHERCAT_ETHERTYPE_RAW && match policy {
        FilterPolicy::EtherType => true,
        FilterPolicy::SourceAddress => b.subrange(6, 12) == seq![
            0x10u8,
            0x10u8,
            0x10u8,
            0x10u8,
            0x10u8,
            0x10u8,
        ] || b.subrange(6, 12) == seq![0x12u8, 0x10u8, 0x10u8, 0x10u8, 0x10u8, 0x10u8],
    }
}

/// What one data-carrying block yields: the decoded frame stamped with its
/// capture time and packet index, nothing if the filter drops it, or the
/// exact decode error.
pub open spec fn spec_process_data_frame(
    b: Seq<u8>,
    time: u64,
    packet_number: usize,
    policy: FilterPolicy,
) -> Result<Option<FrameModel>, DecodeError> {
    if b.len() < 14 {
        Err(DecodeError::FrameTooShort)
    } else if !spec_frame_accepted(b, policy) {
        Ok(None)
    } else {
        match spec_decode_frame(b) {
            Err(e) => Err(e),
            Ok(f) => Ok(
                Some(
                    FrameModel {
                        header: f.header,
                        from_master: f.from_master,
                        time,
                        wireshark_packet_number: packet_number,
                        pdus: f.pdus,
                    },
                ),
            ),
        }
    }
}

/// The spec-level image of a processed data frame.
pub open spec fn processed_result(r: Result<Option<Frame>, DecodeError>) -> Result<
    Option<FrameModel>,
    DecodeError,
> {
    match r {
        Ok(Some(f)) => Ok(Some(f@)),
        Ok(None) => Ok(None),
        Err(e) => Err(e),
    }
}

/// Filters and decodes one captured link-layer frame, stamping it with its
/// capture timestamp and packet index.
pub fn process_data_frame(
    bytes: &Vec<u8>,
    time: u64,
    packet_number: usize,
    policy: FilterPolicy,
) -> (r: Result<Option<Frame>, DecodeError>)
    ensures
        processed_result(r) == spec_process_data_frame(bytes@, time, packet_number, policy),
{
    if bytes.len() < 14 {
        return Err(DecodeError::FrameTooShort);
    }
    let ethertype_ok: bool = bytes[12] as u16 * 0x100 + bytes[13] as u16 == ETHERCAT_ETHERTYPE_RAW;
    let accepted: bool = ethertype_ok && match policy {
        FilterPolicy::EtherType => true,
        FilterPolicy::SourceAddress => {
            let first = bytes[6];
            let tail_fixed = bytes[7] == 0x10 && bytes[8] == 0x10 && bytes[9] == 0x10 && bytes[10]
                == 0x10 && bytes[11] == 0x10;
            proof {
                assert(bytes@.subrange(6, 12) =~= seq![
                    bytes@[6],
                    bytes@[7],
                    bytes@[8],
                    bytes@[9],
                    bytes@[10],
                    bytes@[11],
                ]);
            }
            (first == 0x10 || first == 0x12) && tail_fixed
        },
    };
    if !accepted {
        return Ok(None);
    }
    match parse_pdu(bytes) {
        Err(e) => Err(e),
        Ok(f) => {
            let mut f = f;
            f.time = time;
            f.wireshark_packet_number = packet_number;
            Ok(Some(f))
        },
    }
}

/// Whether no data frame turns up before the first interface description:
/// the block ordering the capture header is expected to have.
pub open spec fn spec_preamble_ok(blocks: Seq<CaptureBlockModel>) -> bool
    decreases blocks.len(),
{
    if blocks.len() == 0 {
        true
    } else {
        match blocks[0] {
            CaptureBlockModel::InterfaceDescription(_) => true,
            CaptureBlockModel::DataFrame(_, _) => false,
            _ => spec_preamble_ok(blocks.skip(1)),
        }
    }
}

/// The options of the first interface description, if one precedes the data.
pub open spec fn spec_preamble_idb(blocks: Seq<CaptureBlockModel>) -> Option<Seq<IdbOptionModel>>
    decreases blocks.len(),
{
    if blocks.len() == 0 {
        None
    } else {
        match blocks[0] {
            CaptureBlockModel::InterfaceDescription(opts) => Some(opts),
            CaptureBlockModel::DataFrame(_, _) => None,
            _ => spec_preamble_idb(blocks.skip(1)),
        }
    }
}

/// How many blocks the preamble scan consumes: everything up to and
/// including the first interface description, or the whole stream if there
/// is none.
pub open spec fn spec_preamble_len(blocks: Seq<CaptureBlockModel>) -> int
    decreases blocks.len(),
{
    if blocks.len() == 0 {
        0
    } else {
        match blocks[0] {
            CaptureBlockModel::InterfaceDescription(_) => 1,
            CaptureBlockModel::DataFrame(_, _) => 0,
            _ => 1 + spec_preamble_len(blocks.skip(1)),
        }
    }
}

/// The hardware string of a section, or its sentinel.
pub open spec fn spec_hardware_or_default(opts: Seq<ShbOptionModel>) -> Seq<char> {
    match spec_first_hardware(opts) {
        Some(h) => h,
        None => "(unknown hardware)"@,
    }
}

/// The operating-system string of a section, or its sentinel.
pub open spec fn spec_os_or_default(opts: Seq<ShbOptionModel>) -> Seq<char> {
    match spec_first_os(opts) {
        Some(s) => s,
        None => "(unknown OS)"@,
    }
}

/// The interface name recovered by the preamble scan, or its sentinel.
pub open spec fn spec_if_name_or_default(blocks: Seq<CaptureBlockModel>) -> Seq<char> {
    match spec_preamble_idb(blocks) {
        Some(opts) => match spec_first_if_name(opts) {
            Some(n) => n,
            None => "(unnamed interface)"@,
        },
        None => "(unnamed interface)"@,
    }
}

/// The timestamp-resolution exponent recovered by the preamble scan, or the
/// nanosecond default.
pub open spec fn spec_ts_resol_or_default(blocks: Seq<CaptureBlockModel>) -> u8 {
    match spec_preamble_idb(blocks) {
        Some(opts) => match spec_first_ts_resol(opts) {
            Some(t) => t,
            None => 9,
        },
        None => 9,
    }
}

/// How one read past the preamble ends.
pub enum ScanOutcome {
    /// A kept frame, decoded and stamped.
    Frame(FrameModel),
    /// A clean end of the capture.
    End,
    /// A frame or block failed to decode.
    Decode(DecodeError),
    /// The remaining bytes do not form a block.
    Malformed,
}

/// One read past the preamble: its outcome, and how many blocks it consumed.
pub struct ScanResult {
    pub outcome: ScanOutcome,
    pub consumed: int,
}

/// What reading forward from the given block suffix yields: blocks are
/// consumed — each one counted — until a data frame passes the filter and
/// decodes (or fails to), the stream ends, or a block other than a data
/// frame or interface metadata turns up.
pub open spec fn spec_scan(
    blocks: Seq<CaptureBlockModel>,
    clean: bool,
    pn: usize,
    policy: FilterPolicy,
) -> ScanResult
    decreases blocks.len(),
{
    if blocks.len() == 0 {
        ScanResult {
            outcome: if clean {
                ScanOutcome::End
            } else {
                ScanOutcome::Malformed
            },
            consumed: 0,
        }
    } else {
        let pn1 = ((pn + 1) as usize);
        match blocks[0] {
            CaptureBlockModel::DataFrame(bytes, time) => {
                match spec_process_data_frame(bytes, time, pn1, policy) {
                    Err(e) => ScanResult { outcome: ScanOutcome::Decode(e), consumed: 1 },
                    Ok(Some(f)) => ScanResult { outcome: ScanOutcome::Frame(f), consumed: 1 },
                    Ok(None) => {
                        let rec = spec_scan(blocks.skip(1), clean, pn1, policy);
                        ScanResult { outcome: rec.outcome, consumed: rec.consumed + 1 }
                    },
                }
            },
            CaptureBlockModel::InterfaceDescription(_) => {
                let rec = spec_scan(blocks.skip(1), clean, pn1, policy);
                ScanResult { outcome: rec.outcome, consumed: rec.consumed + 1 }
            },
            CaptureBlockModel::InterfaceStatistics => {
                let rec = spec_scan(blocks.skip(1), clean, pn1, policy);
                ScanResult { outcome: rec.outcome, consumed: rec.consumed + 1 }
            },
            _ => ScanResult {
                outcome: ScanOutcome::Decode(DecodeError::UnexpectedBlock { packet_number: pn1 }),
                consumed: 1,
            },
        }
    }
}

/// A scan consumes between zero and all of the blocks, at least one when it
/// yields a frame.
pub proof fn lemma_scan_bounds(
    blocks: Seq<CaptureBlockModel>,
    clean: bool,
    pn: usize,
    policy: FilterPolicy,
)
    ensures
        0 <= spec_scan(blocks, clean, pn, policy).consumed <= blocks.len(),
        spec_scan(blocks, clean, pn, policy).outcome is Frame ==> spec_scan(
            blocks,
            clean,
            pn,
            policy,
        ).consumed >= 1,
    decreases blocks.len(),
{
    if blocks.len() > 0 {
        lemma_scan_bounds(blocks.skip(1), clean, ((pn + 1) as usize), policy);
    }
}

/// The decoded frame stream of the capture from a given point: every kept
/// frame in order until a clean end, or the first failure.
pub open spec fn spec_capture_frames(
    blocks: Seq<CaptureBlockModel>,
    clean: bool,
    pn: usize,
    policy: FilterPolicy,
) -> Result<Seq<FrameModel>, ScanOutcome>
    decreases blocks.len(),
{
    let s = spec_scan(blocks, clean, pn, policy);
    match s.outcome {
        ScanOutcome::End => Ok(Seq::empty()),
        ScanOutcome::Frame(f) => {
            // A frame outcome always consumes at least one block; the guard
            // keeps the recursion visibly decreasing.
            if s.consumed < 1 || s.consumed > blocks.len() {
                Err(ScanOutcome::Malformed)
            } else {
                match spec_capture_frames(
                    blocks.skip(s.consumed),
                    clean,
                    ((pn + s.consumed) as usize),
                    policy,
                ) {
                    Ok(rest) => Ok(seq![f] + rest),
                    Err(e) => Err(e),
                }
            }
        },
        ScanOutcome::Decode(e) => Err(ScanOutcome::Decode(e)),
        ScanOutcome::Malformed => Err(ScanOutcome::Malformed),
    }
}

/// A pcapng capture opened for analysis: the container reader, the metadata
/// recovered from the section header and the first interface description,
/// and ghost images — fixed at opening — of the capture bytes and of the
/// block stream they parse to, which the method contracts are stated over.
pub struct PcapFile {
    /// The container reader; opaque to the verified logic, it owns the
    /// capture bytes. After a method has returned an error the reader is
    /// dead: no further method may be called.
    pub reader: CaptureReader,
    /// Ghost image of the capture bytes the reader was opened on.
    pub data: Ghost<Seq<u8>>,
    /// Ghost image of the container's well-formed block stream.
    pub blocks: Ghost<Seq<CaptureBlockModel>>,
    /// Ghost flag: the container ends cleanly after those blocks.
    pub clean: Ghost<bool>,
    /// Ghost count of the blocks the preamble scan consumed.
    pub preamble: Ghost<int>,
    /// Capture packet index of the last block read past the preamble; the
    /// first such block is packet 1.
    pub packet_number: usize,
    /// Name of the capture, carried into every exported row.
    pub scenario: String,
    /// Hardware string of the section header.
    pub cpu: String,
    /// Name of the capture interface.
    pub if_name: String,
    /// Timestamp-resolution exponent; nanoseconds unless the capture says
    /// otherwise.
    pub timestamp_resolution: u8,
    /// Operating-system string of the section header.
    pub os: String,
    /// Which frames are kept; fixed at construction.
    pub filter: FilterPolicy,
}

impl PcapFile {
    /// The reader's consistency: its remaining blocks are exactly the ghost
    /// block stream past the preamble and the packets already read, and the
    /// counts stay within the capture's size.
    pub open spec fn wf(&self) -> bool {
        &&& 0 <= self.preamble@
        &&& self.preamble@ + self.packet_number <= self.blocks@.len()
        &&& 12 * self.blocks@.len() <= self.data@.len() <= usize::MAX
        &&& spec_reader_rest(self.reader) == (
            self.blocks@.skip(self.preamble@ + self.packet_number),
            self.clean@,
        )
    }

    /// What `new` and `with_filter` promise of a successfully opened reader.
    pub open spec fn opened(
        &self,
        data: Seq<u8>,
        scenario: Seq<char>,
        filter: FilterPolicy,
    ) -> bool {
        &&& self.wf()
        &&& self.data@ == data
        &&& self.blocks@ == spec_container(data).2
        &&& self.clean@ == spec_container(data).3
        &&& self.preamble@ == spec_preamble_len(self.blocks@)
        &&& self.packet_number == 0
        &&& self.scenario@ == scenario
        &&& self.filter == filter
        &&& self.cpu@ == spec_hardware_or_default(spec_container(data).1)
        &&& self.os@ == spec_os_or_default(spec_container(data).1)
        &&& self.if_name@ == spec_if_name_or_default(self.blocks@)
        &&& self.timestamp_resolution == spec_ts_resol_or_default(self.blocks@)
    }

    /// Whether a capture opens: the section header parses, no data frame
    /// precedes the first interface description, and the preamble either
    /// finds that description or reaches a clean end.
    pub open spec fn spec_opens(data: Seq<u8>) -> bool {
        &&& spec_container(data).0
        &&& spec_preamble_ok(spec_container(data).2)
        &&& (spec_preamble_idb(spec_container(data).2) is Some || spec_container(data).3)
    }

    /// Opens a capture held in memory, keeping frames by ethertype.
    pub fn new(data: Vec<u8>, scenario: String) -> (r: Result<PcapFile, AnalyseError>)
        ensures
            r is Ok <==> Self::spec_opens(data@),
            r matches Err(e) ==> e is Container,
            r matches Ok(pf) ==> pf.opened(data@, scenario@, FilterPolicy::EtherType),
    {
        Self::with_filter(data, scenario, FilterPolicy::EtherType)
    }

    /// Opens a capture held in memory with the given filter policy.
    ///
    /// Reads the section header for the hardware and operating-system
    /// strings, then scans forward to the first interface description for
    /// the interface name and timestamp resolution, stopping there; a data
    /// frame before it is a fatal container error (the capture is assumed
    /// well-formed once past the header). Missing metadata falls back to
    /// sentinel strings and to nanosecond resolution.
    pub fn with_filter(data: Vec<u8>, scenario: String, filter: FilterPolicy) -> (r: Result<
        PcapFile,
        AnalyseError,
    >)
        ensures
            r is Ok <==> Self::spec_opens(data@),
            r matches Err(e) ==> e is Container,
            r matches Ok(pf) ==> pf.opened(data@, scenario@, filter),
    {
        let ghost data_view = data@;
        let n = data.len();
        let (reader, shb_opts) = match reader_open(data) {
            Ok(v) => v,
            Err(e) => {
                return Err(AnalyseError::Container(e));
            },
        };
        let mut reader = reader;
        let ghost blocks = spec_container(data_view).2;
        let ghost clean = spec_container(data_view).3;
        let cpu = match first_hardware(&shb_opts) {
            Some(h) => h,
            None => "(unknown hardware)".to_owned(),
        };
        let os = match first_os(&shb_opts) {
            Some(o) => o,
            None => "(unknown OS)".to_owned(),
        };
        let mut if_name = "(unnamed interface)".to_owned();
        let mut timestamp_resolution: u8 = 9;
        let ghost mut i: int = 0;
        proof {
            assert(blocks.skip(0) =~= blocks);
        }
        loop
            invariant
                0 <= i <= blocks.len(),
                data_view == data@,
                spec_container(data_view).0,
                blocks == spec_container(data_view).2,
                clean == spec_container(data_view).3,
                12 * blocks.len() <= data_view.len(),
                data_view.len() == n <= usize::MAX,
                spec_reader_rest(reader) == (blocks.skip(i), clean),
                spec_preamble_ok(blocks) == spec_preamble_ok(blocks.skip(i)),
                spec_preamble_idb(blocks) == spec_preamble_idb(blocks.skip(i)),
                spec_preamble_len(blocks) == i + spec_preamble_len(blocks.skip(i)),
                cpu@ == spec_hardware_or_default(spec_container(data_view).1),
                os@ == spec_os_or_default(spec_container(data_view).1),
                if_name@ == "(unnamed interface)"@,
                timestamp_resolution == 9,
            decreases blocks.len() - i,
        {
            let ghost rest = blocks.skip(i);
            match reader_next(&mut reader) {
                Err(e) => {
                    proof {
                        assert(rest.len() == 0 && !clean);
                        assert(spec_preamble_idb(blocks) is None);
                    }
                    return Err(AnalyseError::Container(e));
                },
                Ok(None) => {
                    proof {
                        assert(rest.len() == 0 && clean);
                        assert(spec_preamble_idb(blocks) is None);
                        assert(spec_preamble_ok(blocks));
                        assert(spec_preamble_len(blocks) == i);
                    }
                    return Ok(
                        PcapFile {
                            reader,
                            data: Ghost(data_view),
                            blocks: Ghost(blocks),
                            clean: Ghost(clean),
                            preamble: Ghost(i),
                            packet_number: 0,
                            scenario,
                            cpu,
                            if_name,
                            timestamp_resolution,
                            os,
                            filter,
                        },
                    );
                },
                Ok(Some(cb)) => {
                    proof {
                        assert(rest.len() > 0);
                        assert(cb@ == rest[0]);
                        assert(rest[0] == blocks[i]);
                        assert(rest.skip(1) =~= blocks.skip(i + 1));
                    }
                    match cb {
                        CaptureBlock::InterfaceDescription(opts) => {
                            proof {
                                assert(blocks[i] == CaptureBlockModel::InterfaceDescription(
                                    idb_view(opts@),
                                ));
                                assert(spec_preamble_idb(blocks) == Some(idb_view(opts@)));
                                assert(spec_preamble_ok(blocks));
                                assert(spec_preamble_len(blocks) == i + 1);
                            }
                            match first_if_name(&opts) {
                                Some(name) => {
                                    if_name = name;
                                },
                                None => {},
                            }
                            match first_ts_resol(&opts) {
                                Some(t) => {
                                    timestamp_resolution = t;
                                },
                                None => {},
                            }
                            return Ok(
                                PcapFile {
                                    reader,
                                    data: Ghost(data_view),
                                    blocks: Ghost(blocks),
                                    clean: Ghost(clean),
                                    preamble: Ghost(i + 1),
                                    packet_number: 0,
                                    scenario,
                                    cpu,
                                    if_name,
                                    timestamp_resolution,
                                    os,
                                    filter,
                                },
                            );
                        },
                        CaptureBlock::DataFrame(_, _) => {
                            proof {
                                assert(!spec_preamble_ok(blocks));
                            }
                            return Err(
                                AnalyseError::Container(
                                    ContainerFormatError {
                                        detail: "data frame before any interface description".to_owned(),
                                    },
                                ),
                            );
                        },
                        _ => {
                            proof {
                                i = i + 1;
                            }
                        },
                    }
                },
            }
        }
    }

    /// Reads forward to the next kept frame, decodes it and stamps it with
    /// its timestamp and capture packet index.
    ///
    /// The result is exactly what scanning the capture's block stream from
    /// the current position yields: every block consumed is counted in the
    /// packet index; interface metadata is skipped; the next data frame the
    /// filter keeps comes back decoded, stamped with its block's timestamp
    /// and packet index; a dropped frame is passed over silently; a clean
    /// end of the capture gives `Ok(None)`; and a decode failure, an
    /// unexpected block type or a malformed container each give their exact
    /// error.
    pub fn next_line(&mut self) -> (r: Result<Option<Frame>, AnalyseError>)
        requires
            old(self).wf(),
        ensures
            r is Ok ==> final(self).wf(),
            final(self).data@ == old(self).data@,
            final(self).blocks@ == old(self).blocks@,
            final(self).clean@ == old(self).clean@,
            final(self).preamble@ == old(self).preamble@,
            final(self).scenario@ == old(self).scenario@,
            final(self).cpu@ == old(self).cpu@,
            final(self).os@ == old(self).os@,
            final(self).if_name@ == old(self).if_name@,
            final(self).timestamp_resolution == old(self).timestamp_resolution,
            final(self).filter == old(self).filter,
            ({
                let scan = spec_scan(
                    old(self).blocks@.skip(old(self).preamble@ + old(self).packet_number),
                    old(self).clean@,
                    old(self).packet_number,
                    old(self).filter,
                );
                &&& final(self).packet_number == old(self).packet_number + scan.consumed
                &&& match scan.outcome {
                    ScanOutcome::Frame(f) => r matches Ok(Some(g)) && g@ == f,
                    ScanOutcome::End => r matches Ok(None),
                    ScanOutcome::Decode(e) => r matches Err(a) && a matches AnalyseError::Decode(d)
                        && d == e,
                    ScanOutcome::Malformed => r matches Err(a) && a is Container,
                }
            }),
    {
        let ghost blocks = self.blocks@;
        let ghost clean = self.clean@;
        let ghost pre = self.preamble@;
        let ghost pn0 = self.packet_number;
        loop
            invariant
                self.wf(),
                blocks == self.blocks@,
                clean == self.clean@,
                pre == self.preamble@,
                self.data@ == old(self).data@,
                self.blocks@ == old(self).blocks@,
                self.clean@ == old(self).clean@,
                self.preamble@ == old(self).preamble@,
                self.scenario@ == old(self).scenario@,
                self.cpu@ == old(self).cpu@,
                self.os@ == old(self).os@,
                self.if_name@ == old(self).if_name@,
                self.timestamp_resolution == old(self).timestamp_resolution,
                self.filter == old(self).filter,
                pn0 == old(self).packet_number,
                pn0 <= self.packet_number,
                ({
                    let s0 = spec_scan(blocks.skip(pre + pn0), clean, pn0, self.filter);
                    let sc = spec_scan(
                        blocks.skip(pre + self.packet_number),
                        clean,
                        self.packet_number,
                        self.filter,
                    );
                    s0.outcome == sc.outcome && s0.consumed == (self.packet_number - pn0)
                        + sc.consumed
                }),
            decreases blocks.len() - (pre + self.packet_number),
        {
            let ghost pos = pre + self.packet_number;
            let ghost rest = blocks.skip(pos);
            match reader_next(&mut self.reader) {
                Err(e) => {
                    proof {
                        assert(rest.len() == 0 && !clean);
                    }
                    return Err(AnalyseError::Container(e));
                },
                Ok(None) => {
                    proof {
                        assert(rest.len() == 0 && clean);
                    }
                    return Ok(None);
                },
                Ok(Some(cb)) => {
                    proof {
                        assert(rest.len() > 0);
                        assert(cb@ == rest[0]);
                        assert(rest[0] == blocks[pos]);
                        assert(rest.skip(1) =~= blocks.skip(pos + 1));
                    }
                    self.packet_number = self.packet_number + 1;
                    match cb {
                        CaptureBlock::DataFrame(bytes, time) => {
                            proof {
                                assert(blocks[pos] == CaptureBlockModel::DataFrame(bytes@, time));
                            }
                            match process_data_frame(&bytes, time, self.packet_number, self.filter) {
                                Err(e) => {
                                    return Err(AnalyseError::Decode(e));
                                },
                                Ok(None) => {},
                                Ok(Some(f)) => {
                                    return Ok(Some(f));
                                },
                            }
                        },
                        CaptureBlock::InterfaceDescription(_) => {
                            proof {
                                assert(blocks[pos] matches CaptureBlockModel::InterfaceDescription(
                                    _,
                                ));
                            }
                        },
                        CaptureBlock::InterfaceStatistics => {
                            proof {
                                assert(blocks[pos] == CaptureBlockModel::InterfaceStatistics);
                            }
                        },
                        CaptureBlock::Section => {
                            proof {
                                assert(blocks[pos] == CaptureBlockModel::Section);
                            }
                            return Err(
                                AnalyseError::Decode(
                                    DecodeError::UnexpectedBlock {
                                        packet_number: self.packet_number,
                                    },
                                ),
                            );
                        },
                        CaptureBlock::Other => {
                            proof {
                                assert(blocks[pos] == CaptureBlockModel::Other);
                            }
                            return Err(
                                AnalyseError::Decode(
                                    DecodeError::UnexpectedBlock {
                                        packet_number: self.packet_number,
                                    },
                                ),
                            );
                        },
                    }
                },
            }
        }
    }

    /// Runs the whole capture through decoding and correlation: every kept
    /// frame is decoded, then controller commands are paired with the
    /// device responses carrying the same sequence tag.
    ///
    /// The record list is exactly the correlation — under this reader's
    /// scenario name — of the capture's decoded frame stream from the
    /// current position; a decode failure, an unexpected block or a
    /// malformed container aborts with its exact error instead.
    pub fn match_tx_rx(&mut self) -> (r: Result<Vec<PduStat>, AnalyseError>)
        requires
            old(self).wf(),
        ensures
            r is Ok ==> final(self).wf(),
            final(self).scenario@ == old(self).scenario@,
            ({
                let stream = spec_capture_frames(
                    old(self).blocks@.skip(old(self).preamble@ + old(self).packet_number),
                    old(self).clean@,
                    old(self).packet_number,
                    old(self).filter,
                );
                match stream {
                    Ok(fs) => (match spec_correlate(
                        fs,
                        old(self).scenario@,
                        RECENT_OPEN_TAGS as usize,
                    ) {
                        Ok(ps) => r matches Ok(pairs) && stats_view(pairs@) == ps,
                        Err(ce) => r matches Err(a) && a matches AnalyseError::Correlation(c)
                            && c@ == ce,
                    }),
                    Err(ScanOutcome::Decode(e)) => r matches Err(a) && a matches
                        AnalyseError::Decode(d) && d == e,
                    Err(_) => r matches Err(a) && a is Container,
                }
            }),
    {
        let ghost blocks = self.blocks@;
        let ghost clean = self.clean@;
        let ghost pre = self.preamble@;
        let ghost goal = spec_capture_frames(
            blocks.skip(pre + self.packet_number),
            clean,
            self.packet_number,
            self.filter,
        );
        let mut frames: Vec<Frame> = Vec::new();
        proof {
            assert(crate::correlate::frames_view(frames@) =~= Seq::<FrameModel>::empty());
        }
        loop
            invariant
                self.wf(),
                blocks == self.blocks@,
                clean == self.clean@,
                pre == self.preamble@,
                blocks == old(self).blocks@,
                clean == old(self).clean@,
                pre == old(self).preamble@,
                self.scenario@ == old(self).scenario@,
                self.filter == old(self).filter,
                goal == spec_capture_frames(
                    blocks.skip(pre + old(self).packet_number),
                    clean,
                    old(self).packet_number,
                    old(self).filter,
                ),
                ({
                    let cur = spec_capture_frames(
                        blocks.skip(pre + self.packet_number),
                        clean,
                        self.packet_number,
                        self.filter,
                    );
                    match cur {
                        Ok(rest) => goal == Ok::<_, ScanOutcome>(
                            crate::correlate::frames_view(frames@) + rest,
                        ),
                        Err(e) => goal == Err::<Seq<FrameModel>, _>(e),
                    }
                }),
            decreases blocks.len() - (pre + self.packet_number),
        {
            let ghost pn_before = self.packet_number;
            let ghost suffix = blocks.skip(pre + pn_before);
            let ghost scan = spec_scan(suffix, clean, pn_before, self.filter);
            proof {
                lemma_scan_bounds(suffix, clean, pn_before, self.filter);
            }
            match self.next_line() {
                Err(e) => {
                    proof {
                        assert(spec_capture_frames(suffix, clean, pn_before, self.filter)
                            matches Err(o) && o == scan.outcome);
                        assert(goal == Err::<Seq<FrameModel>, _>(scan.outcome));
                    }
                    return Err(e);
                },
                Ok(None) => {
                    proof {
                        assert(scan.outcome is End);
                        assert(spec_capture_frames(suffix, clean, pn_before, self.filter)
                            == Ok::<_, ScanOutcome>(Seq::<FrameModel>::empty()));
                        assert(crate::correlate::frames_view(frames@) + Seq::<
                            FrameModel,
                        >::empty() =~= crate::correlate::frames_view(frames@));
                    }
                    let ghost fv = crate::correlate::frames_view(frames@);
                    match correlate(&frames, &self.scenario, RECENT_OPEN_TAGS) {
                        Ok(pairs) => {
                            proof {
                                assert(goal == Ok::<_, ScanOutcome>(fv));
                                assert(correlate_result(Ok(pairs)) == spec_correlate(
                                    fv,
                                    old(self).scenario@,
                                    RECENT_OPEN_TAGS as usize,
                                ));
                            }
                            return Ok(pairs);
                        },
                        Err(ce) => {
                            proof {
                                assert(goal == Ok::<_, ScanOutcome>(fv));
                                assert(spec_correlate(
                                    fv,
                                    old(self).scenario@,
                                    RECENT_OPEN_TAGS as usize,
                                ) == Err::<Seq<crate::correlate::PduStatModel>, _>(ce@));
                            }
                            return Err(AnalyseError::Correlation(ce));
                        },
                    }
                },
                Ok(Some(f)) => {
                    proof {
                        assert(scan.outcome matches ScanOutcome::Frame(fm) && f@ == fm);
                        assert(1 <= scan.consumed <= suffix.len());
                        assert(self.packet_number == pn_before + scan.consumed);
                        assert(suffix.skip(scan.consumed) =~= blocks.skip(
                            pre + self.packet_number,
                        ));
                        let before = crate::correlate::frames_view(frames@);
                        assert(crate::correlate::frames_view(frames@.push(f)) =~= before.push(f@));
                        assert(forall|rest: Seq<FrameModel>|
                            (before.push(f@)) + rest =~= before + (seq![f@] + rest));
                    }
                    frames.push(f);
                },
            }
        }
    }
}

} // verus!
