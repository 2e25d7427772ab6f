use melsec_mc::mc_define::MC_SUBHEADER_REQUEST;
use melsec_mc::mc_frame::{detect_frame, parse_frame};

#[test]
fn test_detect_frame_incomplete_small() {
    let buf: Vec<u8> = vec![MC_SUBHEADER_REQUEST[0]];
    let res = detect_frame(&buf).expect("detect_frame call");
    assert!(res.is_none(), "expected None for too-small buffer");
}

#[test]
fn test_detect_frame_mc4e_header_present() {
    let buf = vec![
        MC_SUBHEADER_REQUEST[0],
        MC_SUBHEADER_REQUEST[1],
        1,
        0,
        0,
        0,
        0,
        0,
        0,
        0,
        0,
        6,
        0,
        0,
        0,
    ];
    let res = detect_frame(&buf).expect("detect_frame returned Err");
    assert!(res.is_some(), "expected detect_frame to return Some for full header");
    let (frame_len, header_len, serial_opt) = res.expect("frame length/result should be present");
    assert_eq!(header_len, 15);
    assert_eq!(frame_len, 19);
    assert_eq!(serial_opt, Some(1u16));
}

#[test]
fn test_parse_frame_end_code_zero_truncation() {
    let mut payload = vec![
        MC_SUBHEADER_REQUEST[0],
        MC_SUBHEADER_REQUEST[1],
        2,
        0,
        0,
        0,
        0,
        0,
        0,
        0,
        0,
        6,
        0,
        0,
        0,
    ];
    payload[13] = 0x00;
    payload[14] = 0x00;
    let pr = parse_frame(&payload).expect("parse_frame should accept truncated with end_code 0");
    assert!(pr.has_end_code);
    assert_eq!(pr.end_code, Some(0));
    assert_eq!(pr.data_bytes, 4);
    assert_eq!(pr.data_offset, 15);
}

#[test]
fn test_parse_frame_too_short_error() {
    let payload: Vec<u8> = vec![0x50];
    assert!(parse_frame(&payload).is_err());
}

#[test]
fn test_subheader_mc3e_parse_monitor_timer() {
    let buf = vec![
        0x50, 0x00, // subheader
        0x00, 0xFF, 0xFF, 0x03, 0x00, // access_route
        0x0C, 0x00, // data_len = 12
        0x0A, 0x00, // monitor_timer = 10
        0x01, 0x04, 0x00, 0x00, 0x00, 0x00, 0x00, 0xA8, 0x01, 0x00,
    ];
    let pr = parse_frame(&buf).expect("parse_frame should handle subheader+mc3e");
    assert_eq!(pr.subheader, [0x50, 0x00]);
    assert_eq!(pr.access_route, [0x00, 0xFF, 0xFF, 0x03, 0x00]);
    assert_eq!(pr.request_data_len, 12);
    assert_eq!(pr.monitor_timer, Some(10u16));
    assert_eq!(pr.data_bytes, 10usize);
    assert_eq!(pr.data_offset, 11usize);
}

#[test]
fn detect_frame_rejects_extended_length_under_two() {
    let mut buf = vec![0u8; 15];
    buf[0] = 0xD4;
    buf[11] = 1;
    assert!(detect_frame(&buf).is_err());
}

#[test]
fn detect_frame_compact_layouts() {
    // Subheader 0x50 with the length field at offsets 7 and 8.
    let buf = vec![0x50, 0x00, 0x00, 0xFF, 0xFF, 0x03, 0x00, 0x05, 0x00, 0x00, 0x00];
    assert_eq!(detect_frame(&buf).unwrap(), Some((14, 11, None)));
    // No subheader: the length field at offsets 5 and 6.
    let buf = vec![0x00, 0xFF, 0xFF, 0x03, 0x00, 0x04, 0x00, 0x00, 0x00];
    assert_eq!(detect_frame(&buf).unwrap(), Some((11, 9, None)));
    // Eight bytes show no layout.
    let buf = vec![0x00, 0xFF, 0xFF, 0x03, 0x00, 0x04, 0x00, 0x00];
    assert_eq!(detect_frame(&buf).unwrap(), None);
}

#[test]
fn parse_frame_rejects_truncated_extended_frame_with_error_end_code() {
    let mut payload = vec![0u8; 15];
    payload[0] = 0xD4;
    payload[11] = 6;
    payload[13] = 0x59;
    payload[14] = 0xC0;
    assert!(parse_frame(&payload).is_err());
    payload.extend_from_slice(&[1, 2, 3, 4]);
    let pr = parse_frame(&payload).expect("complete frame");
    assert_eq!(pr.end_code, Some(0xC059));
    assert_eq!(pr.serial_number, Some(0));
}

#[test]
fn parse_frame_without_layout_takes_all_after_two_bytes() {
    let pr = parse_frame(&[0x50, 0x00, 0x07]).expect("raw payload");
    assert_eq!(pr.subheader, [0x50, 0x00]);
    assert_eq!(pr.access_route, [0u8; 5]);
    assert_eq!(pr.request_data_len, 1);
    assert_eq!(pr.data_offset, 2);
    assert_eq!(pr.data_bytes, 1);
    assert!(!pr.has_end_code);
    assert_eq!(pr.end_code, None);
}
