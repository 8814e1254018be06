//! The descriptor read from the first three bytes of a packet.
use vstd::prelude::*;

verus! {

/// The marker byte that opens every transport packet.
pub const SYNC_BYTE: u8 = 0x47;

/// The size of one transport packet, in bytes.
pub const PACKET_LEN: usize = 188;

/// The 13-bit packet identifier held in the second and third header bytes:
/// the top three bits of the second byte are flags and are not part of it.
pub open spec fn packet_id_of(b1: u8, b2: u8) -> nat {
    ((b1 as nat) % 32) * 256 + b2 as nat
}

/// Marker byte and identifier of one candidate packet.
#[derive(Debug, Clone, Copy, PartialEq, Eq)]
pub struct SyncIdPacket {
    pub sync: u8,
    pub packet_id: u16,
}

impl SyncIdPacket {
    /// Reads the descriptor from the first three bytes of `bytes`.
    pub fn new(bytes: &[u8]) -> (r: SyncIdPacket)
        requires
            bytes@.len() >= 3,
        ensures
            r.sync == bytes@[0],
            r.packet_id as nat == packet_id_of(bytes@[1], bytes@[2]),
    {
        let b1 = bytes[1];
        let b2 = bytes[2];
        let id: u16 = (((b1 & 0x1F) as u16) << 8u16) | (b2 as u16);
        assert(((((b1 & 0x1F) as u16) << 8u16) | (b2 as u16)) as nat == ((b1 as nat) % 32) * 256
            + b2 as nat) by (bit_vector);
        SyncIdPacket { sync: bytes[0], packet_id: id }
    }

    /// Whether the packet opens with the marker byte.
    pub fn is_valid(&self) -> (r: bool)
        ensures
            r == (self.sync == SYNC_BYTE),
    {
        self.sync == SYNC_BYTE
    }
}

} // verus!
