use ts_packets::{
    first_packet_misaligned, parse_packets, report_line, FramingError, SyncIdPacket, PACKET_LEN,
    SYNC_BYTE,
};

/// A well-formed capture of `n` packets. Packet `j` carries identifier
/// `j % 0x2000` with all three flag bits set; payload bytes are never the
/// marker byte.
fn capture(n: usize) -> Vec<u8> {
    let mut data = Vec::with_capacity(n * PACKET_LEN);
    for j in 0..n {
        let id = (j % 0x2000) as u16;
        data.push(SYNC_BYTE);
        data.push(0xE0 | (id >> 8) as u8);
        data.push((id & 0xFF) as u8);
        for _ in 3..PACKET_LEN {
            data.push(0xFF);
        }
    }
    data
}

#[test]
fn test_success_case() {
    let test_data = capture(53191);
    let output = parse_packets(&test_data, false).unwrap();
    assert_eq!(output.len(), 53191, "Number of output lines should match");
}

#[test]
fn test_failure_case() {
    let mut test_data = capture(53191);
    test_data[20535 * PACKET_LEN] = 0x00;
    match parse_packets(&test_data, false) {
        Err(e) => {
            assert_eq!(
                e.message(),
                "No sync byte present in packet 20535, offset 3860580",
                "Output did not match expected results."
            );
        }
        _ => panic!("Unexpected success"),
    }
}

#[test]
fn test_incomplete_first_packet() {
    let test_data = capture(53191);
    let output = parse_packets(&test_data[1..], false).unwrap();
    assert_eq!(output.len(), 53190, "Number of output lines should match");
}

#[test]
fn header_masks_flag_bits() {
    let p = SyncIdPacket::new(&[0x47, 0xE1, 0x00]);
    assert_eq!(p.packet_id, 0x100);
    assert_eq!(p.sync, 0x47);
    assert!(p.is_valid());
}

#[test]
fn header_reads_largest_identifier() {
    let p = SyncIdPacket::new(&[0x47, 0x1F, 0xFF, 0x12]);
    assert_eq!(p.packet_id, 0x1FFF);
}

#[test]
fn header_without_marker_is_invalid() {
    let p = SyncIdPacket::new(&[0x46, 0x00, 0x11]);
    assert!(!p.is_valid());
    assert_eq!(p.packet_id, 0x11);
}

#[test]
fn report_lines_are_formatted() {
    assert_eq!(report_line(5, 0x100, true), "5: 0x100");
    assert_eq!(report_line(0, 0, true), "0: 0x0");
    assert_eq!(report_line(1234, 0xabc, false), "0xabc");
    assert_eq!(report_line(10, 0x1fff, false), "0x1fff");
    assert_eq!(report_line(53190, 0xf, true), "53190: 0xf");
}

#[test]
fn error_message_is_formatted() {
    let e = FramingError { packet: 0, offset: 0 };
    assert_eq!(e.message(), "No sync byte present in packet 0, offset 0");
    let e = FramingError { packet: 7, offset: 1316 };
    assert_eq!(e.message(), "No sync byte present in packet 7, offset 1316");
}

#[test]
fn empty_and_short_inputs_give_no_lines() {
    assert_eq!(parse_packets(&[], true).unwrap(), Vec::<String>::new());
    assert_eq!(parse_packets(&[0u8; 187], false).unwrap(), Vec::<String>::new());
}

#[test]
fn whole_packets_give_one_line_each_in_order() {
    let data = capture(4);
    let lines = parse_packets(&data, true).unwrap();
    assert_eq!(lines, vec!["0: 0x0", "1: 0x1", "2: 0x2", "3: 0x3"]);
    let terse = parse_packets(&data, false).unwrap();
    assert_eq!(terse, vec!["0x0", "0x1", "0x2", "0x3"]);
}

#[test]
fn short_tail_is_dropped() {
    let mut data = capture(3);
    let whole = parse_packets(&data, true).unwrap();
    data.extend_from_slice(&[0x47; 187]);
    assert_eq!(parse_packets(&data, true).unwrap(), whole);
    assert_eq!(whole.len(), 3);
}

#[test]
fn late_start_loses_one_packet() {
    let data = capture(6);
    for s in [1usize, 100, 187] {
        let lines = parse_packets(&data[s..], false).unwrap();
        assert_eq!(lines, vec!["0x1", "0x2", "0x3", "0x4", "0x5"]);
    }
    let verbose = parse_packets(&data[1..], true).unwrap();
    assert_eq!(verbose[0], "0: 0x1");
}

#[test]
fn misaligned_start_with_no_full_packet_after_it() {
    let data = capture(1);
    let mut longer = data[5..].to_vec();
    longer.extend_from_slice(&[0x47, 0x00, 0x05]);
    longer.extend_from_slice(&[0x00; 10]);
    assert!(first_packet_misaligned(&longer));
    assert_eq!(parse_packets(&longer, false).unwrap(), Vec::<String>::new());
}

#[test]
fn first_window_without_marker_fails_at_packet_zero() {
    let data = vec![0u8; 400];
    let e = parse_packets(&data, true).unwrap_err();
    assert_eq!(e, FramingError { packet: 0, offset: 0 });
    assert_eq!(e.message(), "No sync byte present in packet 0, offset 0");
}

#[test]
fn corrupt_marker_fails_at_its_packet() {
    let mut data = capture(5);
    data[3 * PACKET_LEN] = 0x48;
    let e = parse_packets(&data, false).unwrap_err();
    assert_eq!(e, FramingError { packet: 3, offset: 564 });
}

#[test]
fn failure_after_realignment_counts_the_skipped_window() {
    let mut data = capture(5);
    data[3 * PACKET_LEN] = 0x00;
    let e = parse_packets(&data[1..], false).unwrap_err();
    assert_eq!(e, FramingError { packet: 2, offset: 564 });
}

#[test]
fn misalignment_is_reported_only_for_a_full_bad_first_window() {
    let data = capture(2);
    assert!(!first_packet_misaligned(&data));
    assert!(first_packet_misaligned(&data[1..]));
    assert!(!first_packet_misaligned(&data[1..188]));
    assert!(!first_packet_misaligned(&[]));
}
