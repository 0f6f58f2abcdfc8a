use inverter_api::checksum::{crc16, escape_byte, frame_checksum, FrameChecksum};
use inverter_api::decode::{decode_energy_total, decode_telemetry, format_kwh};
use inverter_api::frame::{frame_blocks, frame_command, request_blocks};
use inverter_api::poll::{energy_command, status_command, ResponseCollector};
use inverter_api::clock::CalendarDate;

fn echo(payload: &[u8]) -> Vec<u8> {
    let mut r = vec![0x28u8];
    r.extend_from_slice(&frame_command(payload));
    r
}

#[test]
fn status_query_checksum_golden() {
    assert_eq!(crc16(b"QPGS1"), 0x2ffb);
    assert_eq!(frame_checksum(b"QPGS1"), FrameChecksum { high: 0x2f, low: 0xfb });
}

#[test]
fn known_general_status_checksum() {
    assert_eq!(frame_checksum(b"QPIGS"), FrameChecksum { high: 0xb7, low: 0xa9 });
}

#[test]
fn checksum_is_deterministic() {
    let a = frame_checksum(b"QED20240101");
    let b = frame_checksum(b"QED20240101");
    assert_eq!(a, b);
    assert_eq!(a, FrameChecksum { high: 0xf6, low: 0xb5 });
}

#[test]
fn empty_command_checksum_is_zero() {
    assert_eq!(crc16(b""), 0);
    assert_eq!(frame_checksum(b""), FrameChecksum { high: 0, low: 0 });
}

#[test]
fn reserved_bytes_are_escaped() {
    assert_eq!(escape_byte(0x28), 0x29);
    assert_eq!(escape_byte(0x0D), 0x0E);
    assert_eq!(escape_byte(0x0A), 0x0B);
    assert_eq!(escape_byte(0x27), 0x27);
    assert_eq!(escape_byte(0x29), 0x29);
}

#[test]
fn escaped_high_byte_start_marker() {
    assert_eq!(crc16(b"F"), 0x2802);
    assert_eq!(frame_checksum(b"F"), FrameChecksum { high: 0x29, low: 0x02 });
}

#[test]
fn escaped_low_byte_line_feed() {
    assert_eq!(crc16(b"N"), 0xa90a);
    assert_eq!(frame_checksum(b"N"), FrameChecksum { high: 0xa9, low: 0x0b });
}

#[test]
fn escaped_high_byte_terminator() {
    assert_eq!(frame_checksum(b"B5"), FrameChecksum { high: 0x0e, low: 0x58 });
}

#[test]
fn checksum_bytes_never_reserved() {
    for a in 0u8..128 {
        for b in [b'0', b'A', b'Q', b' '] {
            let c = frame_checksum(&[a, b]);
            for x in [c.high, c.low] {
                assert!(x != 0x28 && x != 0x0D && x != 0x0A);
            }
        }
    }
}

#[test]
fn frame_appends_checksum_and_terminator() {
    assert_eq!(
        frame_command(b"QPGS1"),
        vec![b'Q', b'P', b'G', b'S', b'1', 0x2f, 0xfb, 0x0d]
    );
}

#[test]
fn eight_byte_frame_is_one_block() {
    let blocks = request_blocks(b"QPGS1");
    assert_eq!(blocks, vec![vec![0, b'Q', b'P', b'G', b'S', b'1', 0x2f, 0xfb, 0x0d]]);
}

#[test]
fn long_frame_is_padded_in_last_block() {
    let blocks = request_blocks(b"QED20240101");
    assert_eq!(blocks.len(), 2);
    assert_eq!(blocks[0], vec![0, b'Q', b'E', b'D', b'2', b'0', b'2', b'4', b'0']);
    assert_eq!(blocks[1], vec![0, b'1', b'0', b'1', 0xf6, 0xb5, 0x0d, 0, 0]);
}

#[test]
fn empty_frame_has_no_block() {
    assert!(frame_blocks(&[]).is_empty());
    assert_eq!(frame_blocks(&[1, 2, 3, 4, 5, 6, 7, 8, 9]).len(), 2);
}

#[test]
fn commands_are_built_from_id_and_date() {
    assert_eq!(status_command(1), b"QPGS1".to_vec());
    assert_eq!(status_command(12), b"QPGS12".to_vec());
    assert_eq!(status_command(0), b"QPGS0".to_vec());
    let d = CalendarDate { year: 2024, month: 1, day: 1 };
    assert_eq!(energy_command(d), b"QED20240101".to_vec());
    let d = CalendarDate { year: 987, month: 11, day: 30 };
    assert_eq!(energy_command(d), b"QED09871130".to_vec());
}

#[test]
fn echo_round_trip_recovers_tokens() {
    let fields = decode_telemetry(&echo(b"230.0 50.0 AB")).unwrap();
    assert_eq!(fields, vec!["230.0".to_string(), "50.0".to_string(), "AB".to_string()]);
    let fields = decode_telemetry(&echo(b"1")).unwrap();
    assert_eq!(fields, vec!["1".to_string()]);
}

#[test]
fn telemetry_tokens_are_sanitized() {
    let resp = b"junk(1.5 #x@y  abc\x01 ## 7\xfe\xff\r";
    let fields = decode_telemetry(resp).unwrap();
    assert_eq!(
        fields,
        vec!["1.5".to_string(), "xy".to_string(), "abc".to_string(), "".to_string(), "7".to_string()]
    );
}

#[test]
fn telemetry_needs_both_markers() {
    assert_eq!(decode_telemetry(b"1 2 3xx\r"), None);
    assert_eq!(decode_telemetry(b"(1 2 3xx"), None);
    assert_eq!(decode_telemetry(b"\r(1 2 3xx"), None);
    assert_eq!(decode_telemetry(b""), None);
}

#[test]
fn telemetry_empty_payload_fails() {
    assert_eq!(decode_telemetry(b"(ab\r"), None);
    assert_eq!(decode_telemetry(b"(\r"), None);
    assert_eq!(decode_telemetry(b"(1ab\r").unwrap(), vec!["1".to_string()]);
}

#[test]
fn telemetry_whitespace_only_payload_has_no_tokens() {
    assert_eq!(decode_telemetry(b"(   \tab\r").unwrap(), Vec::<String>::new());
}

#[test]
fn energy_total_eight_digits() {
    // the reply to QED20240101: eight digits of watt-hours
    let resp = echo(b"01234560");
    assert_eq!(decode_energy_total(&resp), Some("1234.56".to_string()));
}

#[test]
fn energy_total_any_run_length() {
    assert_eq!(decode_energy_total(&echo(b"123")), Some("0.12".to_string()));
    assert_eq!(decode_energy_total(&echo(b"5")), Some("0.01".to_string()));
    assert_eq!(decode_energy_total(&echo(b"1234567")), Some("1234.57".to_string()));
    assert_eq!(decode_energy_total(&echo(b"123456789")), Some("123456.79".to_string()));
    assert_eq!(
        decode_energy_total(&echo(b"20240101001234560")),
        Some("20240101001234.56".to_string())
    );
    assert_eq!(
        decode_energy_total(&echo(b"999999999999999999")),
        Some("1000000000000000.00".to_string())
    );
}

#[test]
fn energy_total_rejected() {
    // no digit at the start, a run longer than eighteen digits, no markers
    assert_eq!(decode_energy_total(&echo(b"x123")), None);
    assert_eq!(decode_energy_total(&echo(b" 123")), None);
    assert_eq!(decode_energy_total(&echo(b"1234567890123456789")), None);
    assert_eq!(decode_energy_total(b"01234560xx"), None);
    assert_eq!(decode_energy_total(b"(12\r"), None);
}

#[test]
fn energy_total_stops_at_first_non_digit() {
    assert_eq!(decode_energy_total(&echo(b"00012345 rest")), Some("12.35".to_string()));
    assert_eq!(decode_energy_total(&echo(b"0001234.5")), Some("1.23".to_string()));
}

#[test]
fn kwh_formatting_rounds_to_hundredths() {
    assert_eq!(format_kwh(0), "0.00");
    assert_eq!(format_kwh(1005), "1.01");
    assert_eq!(format_kwh(1004), "1.00");
    assert_eq!(format_kwh(99_999_999), "100000.00");
    assert_eq!(format_kwh(123_456), "123.46");
    assert_eq!(format_kwh(u64::MAX), "18446744073709551.62");
}

#[test]
fn reader_with_nothing_read_gives_no_reply() {
    let c = ResponseCollector::new();
    assert!(c.keep_reading(0));
    assert!(c.keep_reading(1499));
    assert!(!c.keep_reading(1500));
    assert_eq!(c.finish(), None);
}

#[test]
fn reader_stops_at_terminator() {
    let mut c = ResponseCollector::new();
    c.accept(b"(0123");
    assert!(!c.complete());
    assert!(c.keep_reading(10));
    c.accept(b"45\r");
    assert!(c.complete());
    assert!(!c.keep_reading(10));
    assert_eq!(c.finish(), Some(b"(012345\r".to_vec()));
}

#[test]
fn reader_keeps_partial_reply_at_deadline() {
    let mut c = ResponseCollector::new();
    c.accept(b"(01");
    assert!(!c.keep_reading(1500));
    assert_eq!(c.finish(), Some(b"(01".to_vec()));
}

#[test]
fn full_blocks_are_not_padded() {
    let frame: Vec<u8> = (1..=16).collect();
    let blocks = frame_blocks(&frame);
    assert_eq!(blocks.len(), 2);
    assert_eq!(blocks[0], vec![0, 1, 2, 3, 4, 5, 6, 7, 8]);
    assert_eq!(blocks[1], vec![0, 9, 10, 11, 12, 13, 14, 15, 16]);
}

#[test]
fn empty_command_frames_to_one_block() {
    assert_eq!(request_blocks(b""), vec![vec![0, 0, 0, 0x0d, 0, 0, 0, 0, 0]]);
}

#[test]
fn largest_unit_id_command() {
    assert_eq!(status_command(255), b"QPGS255".to_vec());
}

#[test]
fn no_break_space_separates_tokens() {
    let resp = b"(12\xC2\xA034AB\r";
    assert_eq!(decode_telemetry(resp).unwrap(), vec!["12".to_string(), "34".to_string()]);
}

#[test]
fn unicode_whitespace_separates_tokens() {
    let resp = b"(a\xE3\x80\x80b\xE2\x80\xA8c\xC2\x85d\xE1\x9A\x80e\xE2\x80\x8Af\xE2\x81\x9Fg\xE2\x80\xAFhXY\r";
    let want: Vec<String> = ["a", "b", "c", "d", "e", "f", "g", "h"].iter().map(|s| s.to_string()).collect();
    assert_eq!(decode_telemetry(resp).unwrap(), want);
}

#[test]
fn non_whitespace_bytes_stay_inside_a_token() {
    // a lone lead byte and a zero-width space (not whitespace) are dropped, not split on
    assert_eq!(decode_telemetry(b"(1\xC22XY\r").unwrap(), vec!["12".to_string()]);
    assert_eq!(decode_telemetry(b"(1\xE2\x80\x8B2XY\r").unwrap(), vec!["12".to_string()]);
    // a whitespace form cut short by the checksum stays part of the token
    assert_eq!(decode_telemetry(b"(1\xE2\x80XY\r").unwrap(), vec!["1".to_string()]);
}

#[test]
fn framing_is_repeatable() {
    assert_eq!(request_blocks(b"QPGS2"), request_blocks(b"QPGS2"));
    assert_eq!(frame_checksum(b"QPGS2"), FrameChecksum { high: 0x1f, low: 0x98 });
}
