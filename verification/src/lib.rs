//! Analysis of packet captures of EtherCAT-style cyclic fieldbus traffic.
//!
//! The crate reads a pcapng capture, decodes each EtherCAT frame into its
//! datagram header and chain of PDUs (sub-messages), pairs every
//! controller-originated PDU with the device response carrying the same
//! sequence tag, and derives latency statistics from the resulting series.
//!
//! All times are carried as integer nanoseconds.
pub mod capture;
pub mod correlate;
pub mod error;
pub mod pdu;
pub mod stats;
