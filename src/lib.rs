//! Framing checks for MPEG transport streams: the stream is cut into
//! fixed-size packets, each packet's marker byte is checked, and each packet's
//! identifier is reported.
use vstd::prelude::*;

pub mod header;
pub mod text;
pub mod scan;
pub mod laws;

pub use header::{SyncIdPacket, PACKET_LEN, SYNC_BYTE};
pub use scan::{first_packet_misaligned, parse_packets, report_line, FramingError};
