use melsec_mc::command_registry::CommandRegistry;
use melsec_mc::commands::Command;
use melsec_mc::device::DeviceCatalog;
use melsec_mc::endpoint::ConnectionTarget;
use melsec_mc::error_codes::{ErrorCatalog, ErrorCategory, ErrorEntryOwned, ErrorRegistry};
use melsec_mc::mc_client::{echo_reply, echo_request, McClient};
use melsec_mc::mc_define::{AccessRoute, McFrameFormat, Protocol};
use melsec_mc::mc_frame::detect_frame;
use melsec_mc::once::OnceSlot;
use melsec_mc::operations::flat_words;
use melsec_mc::plc_series::PLCSeries;
use melsec_mc::request::SerialCounter;
use melsec_mc::response::McResponse;
use melsec_mc::value::Value;
use melsec_mc::{init_defaults, MelsecError};

fn response(serial: u16, end_code: u16, body: &[u8]) -> Vec<u8> {
    let mut f = vec![0xD4, 0x00];
    f.extend_from_slice(&serial.to_le_bytes());
    f.extend_from_slice(&[0x00, 0x00, 0x00, 0xFF, 0xFF, 0x03, 0x00]);
    f.extend_from_slice(&((body.len() + 2) as u16).to_le_bytes());
    f.extend_from_slice(&end_code.to_le_bytes());
    f.extend_from_slice(body);
    f
}

fn errors() -> ErrorCatalog {
    let mut catalog = ErrorCatalog::new();
    ErrorRegistry::from_entries(vec![
        ErrorEntryOwned {
            code: 0xC051,
            name: Some("MC_ERR_C051".to_string()),
            description: Some("too many points".to_string()),
            category: Some(ErrorCategory::BufferRange),
        },
        ErrorEntryOwned { code: 0xC059, name: Some("MC_ERR_C059".to_string()), description: None, category: None },
        ErrorEntryOwned { code: 0x0055, name: None, description: Some("write while running".to_string()), category: None },
    ])
    .register_codes(&mut catalog)
    .expect("register");
    catalog
}

#[test]
fn echo_empty_payload_is_rejected() {
    assert!(echo_request("").is_err());
}

#[test]
fn echo_too_long_payload_is_rejected() {
    let payload = "A".repeat(961);
    assert!(echo_request(&payload).is_err());
}

#[test]
fn echo_invalid_character_is_rejected() {
    assert!(echo_request("12G4").is_err());
    assert!(echo_request("12 4").is_err());
    assert!(echo_request("é").is_err());
}

#[test]
fn echo_of_maximal_length_goes_out_and_comes_back() {
    let payload = "abcdef0123456789".repeat(60);
    assert_eq!(payload.len(), 960);
    let body = echo_request(&payload).expect("accepted");
    assert_eq!(&body[..4], &[0x19, 0x06, 0x00, 0x00]);
    assert_eq!(&body[4..], payload.as_bytes());
    assert_eq!(echo_reply(body[4..].to_vec()).expect("text"), payload);
}

#[test]
fn echo_through_frames() {
    let client = McClient::new();
    let mut counter = SerialCounter::new();
    let frame = client.prepare_echo("1234", &mut counter).expect("frame");
    assert_eq!(
        frame,
        vec![
            0x54, 0x00, 0x01, 0x00, 0x00, 0x00, 0x00, 0xFF, 0xFF, 0x03, 0x00, 0x0A, 0x00, 0x10,
            0x00, 0x19, 0x06, 0x00, 0x00, b'1', b'2', b'3', b'4',
        ]
    );
    let reply = response(1, 0, b"1234");
    assert_eq!(McClient::finish_echo(&reply, &errors()).expect("echo"), "1234");
    let failing = response(1, 0xC059, b"");
    assert!(McClient::finish_echo(&failing, &errors()).is_err());
    let not_text = response(1, 0, &[0xFF, 0xFE]);
    assert!(McClient::finish_echo(&not_text, &errors()).is_err());
    assert!(echo_reply(vec![0xC3]).is_err());
    assert_eq!(echo_reply(vec![0xC3, 0xA9]).unwrap(), "é");
    let before = counter.peek();
    assert!(client.prepare_echo("xyz", &mut counter).is_err());
    assert_eq!(counter.peek(), before);
}

#[test]
fn end_code_message_names_what_is_known() {
    let catalog = errors();
    let check = |code: u16| {
        let r = McResponse::try_new(&response(1, code, &[])).expect("frame");
        McClient::check_response_end_code(&r, &catalog)
    };
    assert_eq!(check(0), Ok(()));
    assert_eq!(
        check(0xC051),
        Err(MelsecError::Protocol(
            "device end code: 0xC051 (MC_ERR_C051: too many points)".to_string()
        ))
    );
    assert_eq!(
        check(0xC059),
        Err(MelsecError::Protocol("device end code: 0xC059 (MC_ERR_C059)".to_string()))
    );
    assert_eq!(
        check(0x0055),
        Err(MelsecError::Protocol("device end code: 0x0055 (write while running)".to_string()))
    );
    assert_eq!(
        check(0x00AB),
        Err(MelsecError::Protocol("device end code: 0x00AB".to_string()))
    );
    // A compact frame with a subheader reports no end code.
    let compact = [0x50, 0x00, 0x00, 0xFF, 0xFF, 0x03, 0x00, 0x02, 0x00, 0x51, 0xC0];
    let r = McResponse::try_new(&compact).expect("frame");
    assert!(!r.has_end_code);
    assert!(r.is_success());
    assert_eq!(McClient::check_response_end_code(&r, &catalog), Ok(()));
    let r = McResponse::try_new(&response(1, 5, &[])).expect("frame");
    assert!(!r.is_success());
}

#[test]
fn client_settings() {
    let client = McClient::new();
    assert_eq!(client.target.addr, "127.0.0.1:5000");
    assert_eq!(client.plc_series, PLCSeries::R);
    assert_eq!(client.protocol, Protocol::Tcp);
    assert_eq!(client.monitoring_timer, 5);
    assert_eq!(client.client_name, "client");
    assert_eq!(client.mc_format, McFrameFormat::MC4E);
    assert_eq!(client.timeout_secs(), Some(5));
    let client = client
        .with_mc_format(McFrameFormat::MC3E)
        .with_target(ConnectionTarget::direct("10.0.0.7", 1025))
        .with_plc_series(PLCSeries::Q)
        .with_protocol(Protocol::Udp)
        .with_monitoring_timer(0)
        .with_client_name("line 3");
    assert_eq!(client.target.addr, "10.0.0.7:1025");
    assert_eq!(client.plc_series, PLCSeries::Q);
    assert_eq!(client.protocol, Protocol::Udp);
    assert_eq!(client.client_name, "line 3");
    assert_eq!(client.mc_format, McFrameFormat::MC3E);
    assert_eq!(client.timeout_secs(), None);
    assert_eq!(McClient::default().monitoring_timer, 5);
}

#[test]
fn connection_target_writes_its_address() {
    let t = ConnectionTarget::new();
    assert_eq!((t.ip.as_str(), t.port, t.addr.as_str()), ("127.0.0.1", 5000, "127.0.0.1:5000"));
    assert_eq!(t.access_route, AccessRoute::default());
    let t = t.with_port(0);
    assert_eq!(t.addr, "127.0.0.1:0");
    let t = t.with_ip("plc.example").with_port(65535);
    assert_eq!(t.addr, "plc.example:65535");
    let route = AccessRoute::default().with_network_number(1).with_pc_number(2).with_io_number(0x0304);
    let t = t.with_access_route(route).build();
    assert_eq!(t.access_route.to_bytes(), [1, 2, 0x04, 0x03, 0]);
    assert_eq!(t.duplicate().addr, t.addr);
    assert_eq!(ConnectionTarget::default().addr, "127.0.0.1:5000");
    assert_eq!(AccessRoute::from_bytes(&[1, 2, 0x04, 0x03, 9]), route.with_station_number(9));
}

#[test]
fn read_words_goes_out_and_comes_back() {
    let catalog = DeviceCatalog::baseline();
    let registry = CommandRegistry::builtin();
    let mut counter = SerialCounter::new();
    let client = McClient::new().with_plc_series(PLCSeries::Q);
    let exchange = client.read_words("D100", 2, &registry, &catalog, &mut counter).expect("plan");
    assert_eq!(exchange.command, Command::ReadWords);
    assert_eq!(
        exchange.frame,
        vec![
            0x54, 0x00, 0x01, 0x00, 0x00, 0x00, 0x00, 0xFF, 0xFF, 0x03, 0x00, 0x0C, 0x00, 0x10,
            0x00, 0x01, 0x04, 0x00, 0x00, 100, 0, 0, 0xA8, 2, 0,
        ]
    );
    let (frame_len, _, serial) = detect_frame(&exchange.frame).unwrap().unwrap();
    assert_eq!((frame_len, serial), (exchange.frame.len(), Some(1)));
    let reply = response(1, 0, &[0x34, 0x12, 0x78, 0x56]);
    let parsed =
        McClient::complete(&exchange, &reply, &registry, &errors(), &catalog).expect("parsed");
    assert_eq!(flat_words(&parsed).unwrap(), vec![0x1234, 0x5678]);
    let values: Vec<u32> = McClient::typed_values(&parsed, 1).unwrap();
    assert_eq!(values, vec![0x5678_1234]);
    let failing = response(1, 0xC051, &[]);
    let err = McClient::complete(&exchange, &failing, &registry, &errors(), &catalog).unwrap_err();
    assert!(err.message().contains("0xC051"));
    let short = response(1, 0, &[0x34, 0x12, 0x78]);
    assert!(McClient::complete(&exchange, &short, &registry, &errors(), &catalog).is_err());
}

#[test]
fn operations_on_series_r() {
    let catalog = DeviceCatalog::baseline();
    let registry = CommandRegistry::builtin();
    let mut counter = SerialCounter::new();
    let client = McClient::new();
    let exchange = client.write_bits("M20", &[true, false, true], &registry, &catalog, &mut counter).expect("plan");
    assert_eq!(
        &exchange.frame[15..],
        &[0x01, 0x14, 0x03, 0x00, 20, 0, 0, 0, 0x90, 0x00, 3, 0, 0x10, 0x10]
    );
    let exchange = client.read_bits("M20", 3, &registry, &catalog, &mut counter).expect("plan");
    assert_eq!(&exchange.frame[15..], &[0x01, 0x04, 0x03, 0x00, 20, 0, 0, 0, 0x90, 0x00, 3, 0]);
    assert_eq!(&exchange.frame[2..4], &[2, 0]);
    let parsed = McClient::complete(&exchange, &response(2, 0, &[0x10, 0x10]), &registry, &errors(), &catalog).expect("parsed");
    assert_eq!(
        parsed.get("data_blocks"),
        Some(&Value::Array(vec![Value::Array(vec![
            Value::Bool(true),
            Value::Bool(false),
            Value::Bool(true)
        ])]))
    );
    let exchange = client.write_words("W1F", &[0x1234], &registry, &catalog, &mut counter).expect("plan");
    assert_eq!(
        &exchange.frame[15..],
        &[0x01, 0x14, 0x02, 0x00, 0x1F, 0, 0, 0, 0xB4, 0x00, 1, 0, 0x34, 0x12]
    );
    let exchange = client.write_words_as::<i32>("D0", &[-2, 0x0001_0002], &registry, &catalog, &mut counter).expect("plan");
    assert_eq!(&exchange.frame[25..], &[4, 0, 0xFE, 0xFF, 0xFF, 0xFF, 0x02, 0x00, 0x01, 0x00]);
    // Read bits is for bit devices.
    assert!(client.read_bits("D0", 1, &registry, &catalog, &mut counter).is_err());
    // A device that the catalog does not know leaves the request without its fields.
    assert!(client.read_words("QQ1", 1, &registry, &catalog, &mut counter).is_err());
    // A symbol alone stands for address 0.
    let exchange = client.read_words("d", 1, &registry, &catalog, &mut counter).expect("plan");
    assert_eq!(&exchange.frame[19..], &[0, 0, 0, 0, 0xA8, 0x00, 1, 0]);
    let before = counter.peek();
    assert!(client.read_words_as::<u32>("D0", 40000, &registry, &catalog, &mut counter).is_err());
    assert_eq!(counter.peek(), before);
    let exchange = client.read_words_as::<u32>("D0", 3, &registry, &catalog, &mut counter).expect("plan");
    assert_eq!(&exchange.frame[25..], &[6, 0]);
}

#[test]
fn plan_fails_without_a_spec() {
    let catalog = DeviceCatalog::baseline();
    let registry = CommandRegistry::from_raw(&Vec::new()).expect("empty");
    let mut counter = SerialCounter::new();
    let client = McClient::new();
    assert!(client.read_words("D0", 1, &registry, &catalog, &mut counter).is_err());
    assert_eq!(counter.peek(), 1);
}

#[test]
fn defaults_are_set_up_once() {
    let mut commands: OnceSlot<CommandRegistry> = OnceSlot::new();
    let mut errors = ErrorCatalog::new();
    init_defaults(&mut commands, &mut errors).expect("first");
    init_defaults(&mut commands, &mut errors).expect("second");
    assert!(commands.is_set());
    assert!(errors.is_registered());
    assert!(CommandRegistry::global(&commands).unwrap().get(Command::Echo).is_some());
}

#[test]
fn words_under_data_blocks() {
    let v = Value::Object(vec![(
        "data_blocks".to_string(),
        Value::Array(vec![
            Value::Array(vec![Value::UInt(1), Value::Bool(true), Value::UInt(0xFFFF)]),
            Value::UInt(7),
            Value::Array(vec![Value::UInt(2)]),
        ]),
    )]);
    assert_eq!(flat_words(&v).unwrap(), vec![1, 0xFFFF, 2]);
    let wide = Value::Object(vec![(
        "data_blocks".to_string(),
        Value::Array(vec![Value::Array(vec![Value::UInt(0x1_0000)])]),
    )]);
    assert!(flat_words(&wide).is_err());
    assert_eq!(flat_words(&Value::Null).unwrap(), Vec::<u16>::new());
    assert_eq!(
        flat_words(&Value::Object(vec![("data_blocks".to_string(), Value::UInt(1))])).unwrap(),
        Vec::<u16>::new()
    );
}

#[test]
fn default_client_points_to_the_default_target() {
    for client in [McClient::new(), McClient::default()] {
        assert_eq!(client.target.ip, "127.0.0.1");
        assert_eq!(client.target.port, 5000);
        assert_eq!(client.target.addr, "127.0.0.1:5000");
        assert_eq!(client.target.access_route, AccessRoute::default());
        assert_eq!(client.plc_series, PLCSeries::R);
        assert_eq!(client.protocol, Protocol::Tcp);
        assert_eq!(client.monitoring_timer, 5);
        assert_eq!(client.client_name, "client");
        assert_eq!(client.mc_format, McFrameFormat::MC4E);
    }
}
