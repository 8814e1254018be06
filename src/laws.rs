//! Laws of the scanner, stated over `scan_outcome` and proved.
use vstd::prelude::*;

use crate::header::{packet_id_of, PACKET_LEN, SYNC_BYTE};
use crate::scan::{
    first_marker, first_unsynced, frame_count, frame_start, no_marker_in_first_window,
    report_text, scan_outcome, window_at,
};

verus! {

/// Every packet window of `data`, counted from offset zero, opens with the
/// marker byte, and nothing trails the last packet.
pub open spec fn well_formed(data: Seq<u8>) -> bool {
    &&& data.len() as int % PACKET_LEN as int == 0
    &&& forall|j: int|
        0 <= j < data.len() as int / PACKET_LEN as int ==> #[trigger] data[PACKET_LEN * j] == SYNC_BYTE
}

/// The marker search from `i` stops at `k` when nothing before `k` is a marker.
proof fn lemma_first_marker(data: Seq<u8>, i: int, k: int)
    requires
        0 <= i <= k <= PACKET_LEN <= data.len(),
        forall|m: int| i <= m < k ==> data[m] != SYNC_BYTE,
        k == PACKET_LEN || data[k] == SYNC_BYTE,
    ensures
        first_marker(data, i) == k,
    decreases k - i,
{
    if i < k {
        lemma_first_marker(data, i + 1, k);
    }
}

/// The window search from `j` stops at `k` when every window before `k` is
/// in sync.
proof fn lemma_first_unsynced(data: Seq<u8>, j: int, k: int)
    requires
        0 <= j <= k <= frame_count(data),
        forall|i: int| j <= i < k ==> data[#[trigger] window_at(data, i)] == SYNC_BYTE,
        k == frame_count(data) || data[window_at(data, k)] != SYNC_BYTE,
    ensures
        first_unsynced(data, j) == k,
    decreases k - j,
{
    if j < k {
        lemma_first_unsynced(data, j + 1, k);
    }
}

/// A well-formed stream of `n` whole packets gives `n` report lines, the
/// line of packet `j` carrying index `j` and that packet's identifier.
pub proof fn lemma_well_formed_reports_every_packet(data: Seq<u8>, verbose: bool)
    requires
        well_formed(data),
    ensures
        scan_outcome(data, verbose) is Ok,
        scan_outcome(data, verbose)->Ok_0.len() == data.len() as int / PACKET_LEN as int,
        forall|j: int|
            0 <= j < data.len() as int / PACKET_LEN as int ==> #[trigger] scan_outcome(
                data,
                verbose,
            )->Ok_0[j] == report_text(
                j as nat,
                packet_id_of(data[PACKET_LEN * j + 1], data[PACKET_LEN * j + 2]),
                verbose,
            ),
{
    let n = data.len() as int / PACKET_LEN as int;
    if data.len() >= PACKET_LEN {
        assert(data[PACKET_LEN * 0] == SYNC_BYTE);
        lemma_first_marker(data, 0, 0);
    }
    assert(frame_start(data) == 0);
    assert(frame_count(data) == n);
    assert forall|i: int| 0 <= i < n implies data[#[trigger] window_at(data, i)] == SYNC_BYTE by {
        assert(data[PACKET_LEN * i] == SYNC_BYTE);
    }
    lemma_first_unsynced(data, 0, n);
}

/// Bytes after the last whole packet are dropped: appending fewer than a
/// packet's worth of bytes to whole packets that start aligned changes
/// nothing.
pub proof fn lemma_short_tail_is_dropped(body: Seq<u8>, tail: Seq<u8>, verbose: bool)
    requires
        body.len() as int % PACKET_LEN as int == 0,
        body.len() == 0 || body[0] == SYNC_BYTE,
        tail.len() < PACKET_LEN,
    ensures
        scan_outcome(body + tail, verbose) == scan_outcome(body, verbose),
{
    let data = body + tail;
    let n = body.len() as int / PACKET_LEN as int;
    if body.len() >= PACKET_LEN {
        lemma_first_marker(body, 0, 0);
        lemma_first_marker(data, 0, 0);
    }
    assert(frame_start(data) == 0 && frame_start(body) == 0);
    assert(frame_count(data) == n && frame_count(body) == n);
    assert forall|i: int| 0 <= i < n implies #[trigger] data[window_at(data, i)] == body[window_at(body, i)]
        && data[window_at(data, i) + 1] == body[window_at(body, i) + 1]
        && data[window_at(data, i) + 2] == body[window_at(body, i) + 2] by {
        assert(PACKET_LEN * i + 2 < body.len()) by {
            assert(PACKET_LEN * (i + 1) <= PACKET_LEN * n);
        }
    }
    let k = first_unsynced(body, 0);
    lemma_unsynced_bounds(body, 0);
    if k < n {
        assert forall|i: int| 0 <= i < k implies data[#[trigger] window_at(data, i)] == SYNC_BYTE by {
            lemma_before_first_unsynced(body, 0, i);
        }
        lemma_first_unsynced(data, 0, k);
    } else {
        assert forall|i: int| 0 <= i < n implies data[#[trigger] window_at(data, i)] == SYNC_BYTE by {
            lemma_before_first_unsynced(body, 0, i);
        }
        lemma_first_unsynced(data, 0, n);
        assert(scan_outcome(data, verbose)->Ok_0 =~= scan_outcome(body, verbose)->Ok_0);
    }
}

/// The window search from `j` ends between `j` and `frame_count`.
proof fn lemma_unsynced_bounds(data: Seq<u8>, j: int)
    requires
        0 <= j <= frame_count(data),
    ensures
        j <= first_unsynced(data, j) <= frame_count(data),
        first_unsynced(data, j) < frame_count(data) ==> data[window_at(
            data,
            first_unsynced(data, j),
        )] != SYNC_BYTE,
    decreases frame_count(data) - j,
{
    if j < frame_count(data) && data[window_at(data, j)] == SYNC_BYTE {
        lemma_unsynced_bounds(data, j + 1);
    }
}

/// Every window between `j` and the result of the search from `j` is in sync.
proof fn lemma_before_first_unsynced(data: Seq<u8>, j: int, i: int)
    requires
        0 <= j <= i < first_unsynced(data, j),
    ensures
        data[window_at(data, i)] == SYNC_BYTE,
    decreases i - j,
{
    if j < i {
        lemma_before_first_unsynced(data, j + 1, i);
    }
}

/// Starting a well-formed stream of at least two packets `s` bytes late, where
/// no marker byte lies between offset `s` and the second packet, costs
/// exactly one report line: the scan realigns to the second packet.
pub proof fn lemma_late_start_loses_one_packet(data: Seq<u8>, s: int, verbose: bool)
    requires
        well_formed(data),
        data.len() >= 2 * PACKET_LEN,
        0 < s < PACKET_LEN,
        forall|i: int| s <= i < PACKET_LEN ==> data[i] != SYNC_BYTE,
    ensures
        scan_outcome(data, verbose) is Ok,
        scan_outcome(data.subrange(s, data.len() as int), verbose) is Ok,
        scan_outcome(data.subrange(s, data.len() as int), verbose)->Ok_0.len() + 1 == scan_outcome(
            data,
            verbose,
        )->Ok_0.len(),
{
    lemma_well_formed_reports_every_packet(data, verbose);
    let late = data.subrange(s, data.len() as int);
    let n = data.len() as int / PACKET_LEN as int;
    let k = PACKET_LEN - s;
    assert(data[PACKET_LEN * 1] == SYNC_BYTE);
    assert(late[k] == SYNC_BYTE);
    lemma_first_marker(late, 0, k);
    assert(frame_start(late) == k);
    assert(frame_count(late) == n - 1);
    assert forall|i: int| 0 <= i < n - 1 implies late[#[trigger] window_at(late, i)] == SYNC_BYTE by {
        assert(window_at(late, i) + s == PACKET_LEN * (i + 1));
        assert(data[PACKET_LEN * (i + 1)] == SYNC_BYTE);
    }
    lemma_first_unsynced(late, 0, n - 1);
}

/// When the first window is full and holds no marker byte, the scan fails at
/// packet zero, having counted no bytes.
pub proof fn lemma_no_marker_fails_at_first_packet(data: Seq<u8>, verbose: bool)
    requires
        data.len() >= PACKET_LEN,
        forall|i: int| 0 <= i < PACKET_LEN ==> data[i] != SYNC_BYTE,
    ensures
        scan_outcome(data, verbose) == Err::<Seq<Seq<char>>, (nat, nat)>((0, 0)),
{
    lemma_first_marker(data, 0, PACKET_LEN as int);
    assert(no_marker_in_first_window(data));
}

/// Corrupting the marker byte of packet `k > 0` of a well-formed stream makes
/// the scan fail at packet `k`, after `188 * k` bytes.
pub proof fn lemma_corrupt_marker_fails_at_packet(data: Seq<u8>, k: int, b: u8, verbose: bool)
    requires
        well_formed(data),
        0 < k < data.len() as int / PACKET_LEN as int,
        b != SYNC_BYTE,
    ensures
        scan_outcome(data.update(PACKET_LEN * k, b), verbose) == Err::<Seq<Seq<char>>, (nat, nat)>(
            (k as nat, (PACKET_LEN * k) as nat),
        ),
{
    let bad = data.update(PACKET_LEN * k, b);
    let n = data.len() as int / PACKET_LEN as int;
    assert(PACKET_LEN * k < data.len()) by {
        assert(PACKET_LEN * (k + 1) <= PACKET_LEN * n);
    }
    assert(data[PACKET_LEN * 0] == SYNC_BYTE);
    assert(bad[0] == SYNC_BYTE);
    lemma_first_marker(bad, 0, 0);
    assert(frame_start(bad) == 0);
    assert(frame_count(bad) == n);
    assert forall|i: int| 0 <= i < k implies bad[#[trigger] window_at(bad, i)] == SYNC_BYTE by {
        assert(data[PACKET_LEN * i] == SYNC_BYTE);
    }
    lemma_first_unsynced(bad, 0, k);
}

} // verus!
