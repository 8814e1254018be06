//! The packet scanner: cuts a fully buffered stream into packets, recovers
//! once from a misaligned start, and fails on any later framing loss.
use vstd::prelude::*;
use vstd::slice::slice_subrange;

use crate::header::{packet_id_of, SyncIdPacket, PACKET_LEN, SYNC_BYTE};
use crate::text::{dec_text, hex_text, push_dec, push_hex};

verus! {

/// The first offset `i` or later, inside the first packet window, that holds
/// the marker byte; `PACKET_LEN` if there is none.
pub open spec fn first_marker(data: Seq<u8>, i: int) -> int
    decreases PACKET_LEN - i,
{
    if i < 0 || i >= PACKET_LEN || i >= data.len() {
        PACKET_LEN as int
    } else if data[i] == SYNC_BYTE {
        i
    } else {
        first_marker(data, i + 1)
    }
}

/// The first window is full and does not open with the marker byte, so the
/// scanner realigns to the first marker inside it.
pub open spec fn misaligned_start(data: Seq<u8>) -> bool {
    data.len() >= PACKET_LEN && data[0] != SYNC_BYTE
}

/// The first window is full and holds no marker byte at all.
pub open spec fn no_marker_in_first_window(data: Seq<u8>) -> bool {
    data.len() >= PACKET_LEN && first_marker(data, 0) == PACKET_LEN
}

/// Where the packets start once the first window has been realigned.
pub open spec fn frame_start(data: Seq<u8>) -> int {
    if data.len() < PACKET_LEN {
        0
    } else {
        first_marker(data, 0)
    }
}

/// How many full packet windows follow the start; a shorter tail is dropped.
pub open spec fn frame_count(data: Seq<u8>) -> int {
    (data.len() - frame_start(data)) / (PACKET_LEN as int)
}

/// Offset of the window of packet `j`.
pub open spec fn window_at(data: Seq<u8>, j: int) -> int {
    frame_start(data) + PACKET_LEN * j
}

/// The first packet index `j` or later, below `frame_count`, whose window does
/// not open with the marker byte; `frame_count` if there is none.
pub open spec fn first_unsynced(data: Seq<u8>, j: int) -> int
    decreases frame_count(data) - j,
{
    if j < 0 || j >= frame_count(data) {
        frame_count(data)
    } else if data[window_at(data, j)] != SYNC_BYTE {
        j
    } else {
        first_unsynced(data, j + 1)
    }
}

/// The bytes counted as read before the realigned packets: a whole window
/// when the first one was misaligned.
pub open spec fn realign_cost(data: Seq<u8>) -> int {
    if misaligned_start(data) {
        PACKET_LEN as int
    } else {
        0
    }
}

/// The identifier of packet `j`.
pub open spec fn packet_id_at(data: Seq<u8>, j: int) -> nat {
    packet_id_of(data[window_at(data, j) + 1], data[window_at(data, j) + 2])
}

/// The report line of the packet with index `index` and identifier `id`.
pub open spec fn report_text(index: nat, id: nat, verbose: bool) -> Seq<char> {
    if verbose {
        dec_text(index) + seq![':', ' ', '0', 'x'] + hex_text(id)
    } else {
        seq!['0', 'x'] + hex_text(id)
    }
}

/// What a scan of `data` gives: every report line, or the failing packet's
/// index and the bytes read before it.
pub open spec fn scan_outcome(data: Seq<u8>, verbose: bool) -> Result<
    Seq<Seq<char>>,
    (nat, nat),
> {
    if no_marker_in_first_window(data) {
        Err((0, 0))
    } else if first_unsynced(data, 0) < frame_count(data) {
        let k = first_unsynced(data, 0);
        Err((k as nat, (PACKET_LEN * k + realign_cost(data)) as nat))
    } else {
        Ok(
            Seq::new(
                frame_count(data) as nat,
                |j: int| report_text(j as nat, packet_id_at(data, j), verbose),
            ),
        )
    }
}

/// The text of each line.
pub open spec fn line_views(lines: Seq<String>) -> Seq<Seq<char>> {
    lines.map_values(|l: String| l@)
}

/// A framing failure: no marker byte where a packet had to start.
#[derive(Debug, Clone, Copy, PartialEq, Eq)]
pub struct FramingError {
    /// Index of the packet that failed, counting valid packets only.
    pub packet: usize,
    /// Bytes read from the stream before the failing window.
    pub offset: usize,
}

impl FramingError {
    /// The error's message.
    pub fn message(&self) -> (r: String)
        ensures
            r@ == "No sync byte present in packet "@ + dec_text(self.packet as nat) + ", offset "@
                + dec_text(self.offset as nat),
    {
        let mut s = String::from_str("No sync byte present in packet ");
        push_dec(&mut s, self.packet as u64);
        s.append(", offset ");
        push_dec(&mut s, self.offset as u64);
        s
    }
}

/// The report line of one packet: `"{index}: 0x{id}"` when verbose,
/// `"0x{id}"` otherwise, the identifier in lower-case hexadecimal.
pub fn report_line(index: usize, packet_id: u16, verbose: bool) -> (r: String)
    ensures
        r@ == report_text(index as nat, packet_id as nat, verbose),
{
    let mut s = String::new();
    if verbose {
        push_dec(&mut s, index as u64);
        s.append(": 0x");
        proof {
            reveal_strlit(": 0x");
        }
    } else {
        s.append("0x");
        proof {
            reveal_strlit("0x");
        }
    }
    push_hex(&mut s, packet_id as u64);
    assert(s@ =~= report_text(index as nat, packet_id as nat, verbose));
    s
}

/// Whether the first window is full and misaligned, so that the scan will
/// realign to the first marker byte inside it.
pub fn first_packet_misaligned(data: &[u8]) -> (r: bool)
    ensures
        r == misaligned_start(data@),
{
    data.len() >= PACKET_LEN && data[0] != SYNC_BYTE
}

/// Offset of the first marker byte in the first window, if any.
fn find_sync(data: &[u8]) -> (r: Option<usize>)
    requires
        data@.len() >= PACKET_LEN,
    ensures
        match r {
            Some(k) => k < PACKET_LEN && k == first_marker(data@, 0),
            None => first_marker(data@, 0) == PACKET_LEN,
        },
{
    let mut i: usize = 0;
    while i < PACKET_LEN
        invariant
            i <= PACKET_LEN <= data@.len(),
            first_marker(data@, 0) == first_marker(data@, i as int),
        decreases PACKET_LEN - i,
    {
        if data[i] == SYNC_BYTE {
            return Some(i);
        }
        i = i + 1;
    }
    None
}

/// Scans `data` packet by packet. Every full 188-byte window must open with
/// the marker byte; a shorter tail is dropped. Only the first window may be
/// misaligned: the scan then restarts at the first marker byte inside it.
/// Returns one report line per packet, or the first framing failure.
pub fn parse_packets(data: &[u8], verbose: bool) -> (r: Result<Vec<String>, FramingError>)
    ensures
        match r {
            Ok(lines) => scan_outcome(data@, verbose) == Ok::<Seq<Seq<char>>, (nat, nat)>(
                line_views(lines@),
            ),
            Err(e) => scan_outcome(data@, verbose) == Err::<Seq<Seq<char>>, (nat, nat)>(
                (e.packet as nat, e.offset as nat),
            ),
        },
{
    let mut output: Vec<String> = Vec::new();
    if data.len() < PACKET_LEN {
        assert(line_views(output@) =~= scan_outcome(data@, verbose)->Ok_0);
        return Ok(output);
    }
    let mut start: usize = 0;
    let mut skipped: usize = 0;
    let first = SyncIdPacket::new(slice_subrange(data, 0, 3));
    if !first.is_valid() {
        match find_sync(data) {
            Some(k) => {
                start = k;
                skipped = PACKET_LEN;
            },
            None => {
                return Err(FramingError { packet: 0, offset: 0 });
            },
        }
    }
    assert(start as int == frame_start(data@));
    let ghost d = data@;
    let count: usize = (data.len() - start) / PACKET_LEN;
    let mut packet_num: usize = 0;
    let mut pos: usize = start;
    while packet_num < count
        invariant
            d == data@,
            !no_marker_in_first_window(d),
            start as int == frame_start(d),
            count as int == frame_count(d),
            packet_num <= count,
            pos as int == window_at(d, packet_num as int),
            skipped as int == realign_cost(d),
            start + PACKET_LEN * count <= d.len(),
            first_unsynced(d, 0) == first_unsynced(d, packet_num as int),
            line_views(output@) =~= Seq::new(
                packet_num as nat,
                |j: int| report_text(j as nat, packet_id_at(d, j), verbose),
            ),
        decreases count - packet_num,
    {
        assert(pos + PACKET_LEN <= data.len()) by {
            assert(PACKET_LEN * (packet_num + 1) <= PACKET_LEN * count);
        }
        let header = SyncIdPacket::new(slice_subrange(data, pos, pos + 3));
        if !header.is_valid() {
            return Err(FramingError { packet: packet_num, offset: pos - start + skipped });
        }
        let line = report_line(packet_num, header.packet_id, verbose);
        let ghost prev = output@;
        output.push(line);
        assert(line_views(output@) =~= line_views(prev).push(line@));
        packet_num = packet_num + 1;
        pos = pos + PACKET_LEN;
    }
    Ok(output)
}

} // verus!
