//! Error taxonomy of the analysis pipeline.
//!
//! Every error is fatal for the capture file it arose in: once framing or
//! correlation is lost, the derived timing numbers are meaningless.

use vstd::prelude::*;

verus! {

/// A frame failed to decode. Fatal for the whole capture.
#[derive(Clone, Copy, Debug, PartialEq, Eq, Structural)]
pub enum DecodeError {
    /// The link-layer buffer is too short to contain an Ethernet header,
    /// or too short for the EtherCAT datagram header behind it.
    FrameTooShort,
    /// The 4-bit protocol-type field of the datagram header is not the
    /// expected datagram tag.
    ProtocolTypeMismatch { found: u8 },
    /// A sub-message carries a command code outside the command table.
    UnknownCommandCode { code: u8 },
    /// The sub-message region ended in the middle of a fixed-width field or
    /// of a declared payload.
    TruncatedSubMessage,
    /// A block that is neither a data frame nor interface metadata turned up
    /// where a data frame was expected.
    UnexpectedBlock { packet_number: usize },
}

/// The capture container itself is malformed. Fatal at open time or on the
/// block where it is noticed.
#[derive(Clone, Debug)]
pub struct ContainerFormatError {
    pub detail: String,
}

/// A device-originated response found no open request with its sequence tag.
///
/// Reported with enough context to diagnose the capture: the capture packet
/// index, the tag searched for, and the most recent still-open tags.
#[derive(Clone, Debug)]
pub struct CorrelationError {
    /// Capture packet index of the offending response.
    pub packet_number: usize,
    /// The sequence tag that was searched for.
    pub sequence_tag: u8,
    /// Sequence tags of the most recent still-open requests, newest first.
    pub recent_open_tags: Vec<u8>,
}

/// Spec-level image of a `CorrelationError`.
pub struct CorrelationErrorModel {
    pub packet_number: usize,
    pub sequence_tag: u8,
    pub recent_open_tags: Seq<u8>,
}

impl View for CorrelationError {
    type V = CorrelationErrorModel;

    open spec fn view(&self) -> CorrelationErrorModel {
        CorrelationErrorModel {
            packet_number: self.packet_number,
            sequence_tag: self.sequence_tag,
            recent_open_tags: self.recent_open_tags@,
        }
    }
}

/// Any of the errors that abort the analysis of one capture file.
#[derive(Clone, Debug)]
pub enum AnalyseError {
    Container(ContainerFormatError),
    Decode(DecodeError),
    Correlation(CorrelationError),
}

} // verus!
