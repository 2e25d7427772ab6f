use melsec_mc::mc_define::{AccessRoute, McFrameFormat, MC_SUBHEADER_REQUEST};
use melsec_mc::mc_frame::detect_frame;
use melsec_mc::request::{next_serial, serial_after, McRequest, SerialCounter};
use melsec_mc::response::parse_mc_payload;

#[test]
fn test_try_from_payload_subheader_mc3e_monitor_timer() {
    let buf = vec![
        0x50, 0x00, // subheader
        0x00, 0xFF, 0xFF, 0x03, 0x00, // access_route
        0x0C, 0x00, // data_len = 12
        0x0A, 0x00, // monitor_timer = 10
        0x01, 0x04, 0x00, 0x00, 0x00, 0x00, 0x00, 0xA8, 0x01, 0x00,
    ];
    let r = McRequest::try_from_payload(&buf).expect("should parse subheader+mc3e request");
    assert_eq!(r.subheader, [0x50, 0x00]);
    assert_eq!(r.access_route.to_bytes(), [0x00, 0xFF, 0xFF, 0x03, 0x00]);
    assert_eq!(r.request_data_len, 12);
    assert_eq!(r.monitoring_timer, 10u16);
    assert_eq!(r.request_data.len(), 10usize);
}

#[test]
fn test_try_from_payload_mc3e_no_subheader() {
    let buf = vec![
        0x00, 0xFF, 0xFF, 0x03, 0x00, // access_route
        0x04, 0x00, // data_len = 4 -> data_bytes = 2
        0x00, 0x00, // end_code
        0x11, 0x22, // 2 bytes data
    ];
    let r = McRequest::try_from_payload(&buf).expect("should parse mc3e frame without subheader");
    assert_eq!(r.subheader, [0xD0, 0x00]);
    assert_eq!(r.access_route.to_bytes(), [0x00, 0xFF, 0xFF, 0x03, 0x00]);
    assert_eq!(r.request_data_len, 4);
    assert_eq!(r.monitoring_timer, 0x1000);
    assert_eq!(r.request_data, vec![0x11u8, 0x22u8]);
}

#[test]
fn test_try_from_payload_mc4e_serial_and_data() {
    let mut buf = vec![
        MC_SUBHEADER_REQUEST[0],
        MC_SUBHEADER_REQUEST[1],
        0x02,
        0x00,
        0x00,
        0x00,
        0x00,
        0xFF,
        0xFF,
        0x03,
        0x00,
        0x06,
        0x00,
        0x00,
        0x00,
    ];
    buf.extend_from_slice(&[0xAA, 0xBB, 0xCC, 0xDD]);
    let r = McRequest::try_from_payload(&buf).expect("should parse mc4e frame");
    assert_eq!(r.subheader, MC_SUBHEADER_REQUEST);
    assert_eq!(r.serial_number, 2u16);
    assert_eq!(r.access_route.to_bytes(), [0x00, 0xFF, 0xFF, 0x03, 0x00]);
    assert_eq!(r.request_data_len, 6);
    assert_eq!(r.request_data, vec![0xAAu8, 0xBBu8, 0xCCu8, 0xDDu8]);
    assert_eq!(r.monitoring_timer, 0x1000);
}

#[test]
fn test_build_with_format_mc4e_includes_monitoring_timer_be_and_offsets() {
    let mut counter = SerialCounter::new();
    let req = McRequest::new(&mut counter)
        .with_subheader(MC_SUBHEADER_REQUEST)
        .with_serial_number(0x1234)
        .with_monitoring_timer(0x0A0B);
    let req = req.try_with_request_data(&[0xAAu8, 0xBBu8]).expect("set data");
    let payload = req.build_with_format(McFrameFormat::MC4E);

    assert_eq!(payload[0], MC_SUBHEADER_REQUEST[0]);
    assert_eq!(payload[1], MC_SUBHEADER_REQUEST[1]);
    assert_eq!(u16::from_le_bytes([payload[2], payload[3]]), 0x1234);
    assert_eq!(payload[4], 0x00);
    assert_eq!(payload[5], 0x00);
    let data_len = u16::from_le_bytes([payload[11], payload[12]]);
    assert_eq!(data_len, 4u16);
    assert_eq!([payload[13], payload[14]], 0x0A0B_u16.to_be_bytes());
    assert_eq!(&payload[15..], &[0xAAu8, 0xBBu8]);
}

#[test]
fn test_build_with_format_mc3e_includes_monitoring_timer_le_and_offsets() {
    let mut counter = SerialCounter::new();
    let req = McRequest::new(&mut counter)
        .with_subheader(MC_SUBHEADER_REQUEST)
        .with_monitoring_timer(0x0A0B);
    let req = req.try_with_request_data(&[0x11u8, 0x22u8, 0x33u8]).expect("set data");
    let payload = req.build_with_format(McFrameFormat::MC3E);

    assert_eq!(payload[0], MC_SUBHEADER_REQUEST[0]);
    assert_eq!(payload[1], MC_SUBHEADER_REQUEST[1]);
    let data_len = u16::from_le_bytes([payload[7], payload[8]]);
    assert_eq!(data_len, 5u16);
    assert_eq!(u16::from_le_bytes([payload[9], payload[10]]), 0x0A0B);
    assert_eq!(&payload[11..], &[0x11u8, 0x22u8, 0x33u8]);
}

#[test]
fn parse_simple() {
    let p = vec![0x50, 0x00, 0x00, 0x00];
    let r = parse_mc_payload(&p).expect("parse_mc_payload should succeed for simple payload");
    assert_eq!(r.subheader, [0x50, 0x00]);
}

#[test]
fn serials_start_at_one_and_skip_zero() {
    let mut counter = SerialCounter::new();
    assert_eq!(counter.peek(), 1);
    assert_eq!(next_serial(&mut counter), 1);
    assert_eq!(next_serial(&mut counter), 2);
    assert_eq!(counter.peek(), 3);
    assert_eq!(serial_after(0xFFFE), 0xFFFF);
    assert_eq!(serial_after(0xFFFF), 1);
    assert_eq!(serial_after(0), 1);
}

#[test]
fn serials_of_a_burst_are_distinct_and_not_zero() {
    let mut counter = SerialCounter::new();
    let mut seen = vec![false; 65536];
    for _ in 0..65535 {
        let s = McRequest::new(&mut counter).serial_number;
        assert_ne!(s, 0);
        assert!(!seen[s as usize]);
        seen[s as usize] = true;
    }
    // The next serial is the first one again.
    assert_eq!(McRequest::new(&mut counter).serial_number, 1);
}

#[test]
fn new_request_has_default_fields() {
    let mut counter = SerialCounter::new();
    let req = McRequest::new(&mut counter);
    assert_eq!(req.subheader, [0x54, 0x00]);
    assert_eq!(req.access_route, AccessRoute::default());
    assert_eq!(req.access_route.to_bytes(), [0x00, 0xFF, 0xFF, 0x03, 0x00]);
    assert_eq!(req.monitoring_timer, 0x1000);
    assert!(req.request_data.is_empty());
    assert_eq!(req.request_data_len, 2);
}

#[test]
fn request_data_over_the_length_field_is_rejected() {
    let mut counter = SerialCounter::new();
    let data = vec![0u8; 65534];
    assert!(McRequest::new(&mut counter).try_with_request_data(&data).is_err());
    let data = vec![0u8; 65533];
    let req = McRequest::new(&mut counter).try_with_request_data(&data).expect("fits");
    assert_eq!(req.request_data_len, 0xFFFF);
}

#[test]
fn built_frames_announce_their_own_length() {
    let mut counter = SerialCounter::new();
    for n in [0usize, 1, 3, 4, 200] {
        let body = vec![0x5Au8; n];
        let frame = McRequest::new(&mut counter)
            .try_with_request_data(&body)
            .expect("body")
            .build_with_format(McFrameFormat::MC4E);
        assert_eq!(frame.len(), 15 + n);
        assert_eq!(u16::from_le_bytes([frame[11], frame[12]]) as usize, n + 2);
        let (frame_len, header_len, _) = detect_frame(&frame).unwrap().expect("frame");
        assert_eq!(frame_len, frame.len());
        assert_eq!(header_len, 15);

        let frame = McRequest::new(&mut counter)
            .with_subheader([0x50, 0x00])
            .try_with_request_data(&body)
            .expect("body")
            .build_with_format(McFrameFormat::MC3E);
        assert_eq!(frame.len(), 11 + n);
        assert_eq!(u16::from_le_bytes([frame[7], frame[8]]) as usize, n + 2);
        let (frame_len, header_len, serial) = detect_frame(&frame).unwrap().expect("frame");
        assert_eq!(frame_len, frame.len());
        assert_eq!(header_len, 11);
        assert_eq!(serial, None);
    }
}

#[test]
fn build_uses_the_extended_dialect() {
    let mut counter = SerialCounter::new();
    let frame = McRequest::new(&mut counter)
        .with_serial_number(7)
        .with_access_route(AccessRoute::default().with_station_number(9))
        .try_with_request_data(&[1])
        .expect("body")
        .build();
    assert_eq!(
        frame,
        vec![0x54, 0x00, 7, 0, 0, 0, 0x00, 0xFF, 0xFF, 0x03, 9, 3, 0, 0x10, 0x00, 1]
    );
}
