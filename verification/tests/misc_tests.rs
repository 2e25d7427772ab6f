use melsec_mc::commands::Command;
use melsec_mc::config::Config;
use melsec_mc::mc_define::{
    end_code_name, high_byte, low_byte, u16_from_le, McFrameFormat, MC_ACCESS_PATH_DEFAULT,
    MC_END_OK, MC_HEADER_SIZE, MC_SUBHEADER_RESPONSE,
};
use melsec_mc::plc_series::PLCSeries;
use melsec_mc::toml_helpers::extract_line_col_from_msg;
use melsec_mc::value::{find_named, put_named, Value};
use melsec_mc::MelsecError;

#[test]
fn command_names() {
    let all = [
        (Command::ReadWords, "read_words"),
        (Command::WriteWords, "write_words"),
        (Command::ReadBits, "read_bits"),
        (Command::WriteBits, "write_bits"),
        (Command::Echo, "echo"),
        (Command::ReadRandomWords, "read_random_words"),
        (Command::WriteRandomWords, "write_random_words"),
        (Command::WriteRandomBits, "write_random_bits"),
        (Command::ReadBlocks, "read_blocks"),
        (Command::WriteBlocks, "write_blocks"),
    ];
    for (c, name) in all {
        assert_eq!(c.as_str(), name);
        assert_eq!(Command::from_str(name), Ok(c));
        assert_eq!(name.parse::<Command>(), Ok(c));
    }
    assert_eq!(Command::from_str("Read_Words"), Err("unknown command id: Read_Words".to_string()));
    assert_eq!(Command::from_str(""), Err("unknown command id: ".to_string()));
}

#[test]
fn command_classes() {
    assert!(Command::ReadWords.is_read() && Command::ReadBits.is_read());
    assert!(Command::ReadBlocks.is_read() && !Command::ReadRandomWords.is_read());
    assert!(!Command::WriteWords.is_read() && !Command::Echo.is_read());
    assert!(Command::WriteWords.is_write() && Command::WriteBits.is_write());
    assert!(Command::WriteBlocks.is_write() && !Command::WriteRandomBits.is_write());
    assert!(!Command::ReadWords.is_write());
    assert!(Command::ReadBlocks.is_block_command() && Command::WriteBlocks.is_block_command());
    assert!(!Command::ReadWords.is_block_command());
    assert!(Command::ReadWords.is_word_command() && Command::WriteWords.is_word_command());
    assert!(!Command::ReadBits.is_word_command());
}

#[test]
fn series_names() {
    assert_eq!(PLCSeries::from_str("Q"), Some(PLCSeries::Q));
    assert_eq!(PLCSeries::from_str("q"), Some(PLCSeries::Q));
    assert_eq!(PLCSeries::from_str("R"), Some(PLCSeries::R));
    assert_eq!(PLCSeries::from_str("r"), Some(PLCSeries::R));
    assert_eq!(PLCSeries::from_str("QR"), None);
    assert_eq!(PLCSeries::from_str(""), None);
    assert_eq!(PLCSeries::Q.as_str(), "Q");
    assert_eq!(PLCSeries::R.as_str(), "R");
    assert_eq!("r".parse::<PLCSeries>(), Ok(PLCSeries::R));
    assert_eq!("x".parse::<PLCSeries>(), Err(()));
}

#[test]
fn protocol_constants() {
    assert_eq!(MC_HEADER_SIZE, 15);
    assert_eq!(MC_SUBHEADER_RESPONSE, [0xD4, 0x00]);
    assert_eq!(MC_ACCESS_PATH_DEFAULT, [0x00, 0xFF, 0xFF, 0x03, 0x00]);
    assert_eq!(end_code_name(MC_END_OK), Some("OK"));
    assert_eq!(end_code_name(1), None);
    assert_eq!(McFrameFormat::default(), McFrameFormat::MC4E);
    assert_eq!((low_byte(0x1234), high_byte(0x1234)), (0x34, 0x12));
    assert_eq!(u16_from_le(0x34, 0x12), 0x1234);
    assert_eq!(u16_from_le(0xFF, 0xFF), 0xFFFF);
}

#[test]
fn error_messages() {
    assert_eq!(MelsecError::Io("refused".to_string()).message(), "IO error: refused");
    assert_eq!(MelsecError::Timeout.message(), "timeout");
    assert_eq!(MelsecError::protocol("bad frame").message(), "protocol error: bad frame");
    assert_eq!(MelsecError::AlreadyRegistered.message(), "already registered");
    assert_eq!(MelsecError::NoTarget.message(), "no connection target set on client");
}

#[test]
fn settings_from_the_environment() {
    let c = Config::from_values(None, None, None, None, None, None);
    assert_eq!(c, Config::default());
    assert_eq!(
        (c.melsec_conn_idle_secs, c.melsec_udp_recv_attempts, c.melsec_tcp_retry_attempts),
        (300, 3, 3)
    );
    assert_eq!(c.melsec_tcp_retry_backoff_ms, 100);
    assert!(!c.melsec_dump_on_error && !c.log_mc_payloads);
    let c = Config::from_values(Some("10"), Some("0"), Some("1"), Some("true"), Some("+7"), Some("250"));
    assert_eq!(c.melsec_conn_idle_secs, 10);
    assert_eq!(c.melsec_udp_recv_attempts, 0);
    assert!(c.melsec_dump_on_error);
    assert!(!c.log_mc_payloads);
    assert_eq!(c.melsec_tcp_retry_attempts, 7);
    assert_eq!(c.melsec_tcp_retry_backoff_ms, 250);
    let c = Config::from_values(Some(" 10"), Some("-1"), Some("0"), Some("1"), Some(""), Some("99999999999999999999999"));
    assert_eq!(c.melsec_conn_idle_secs, 300);
    assert_eq!(c.melsec_udp_recv_attempts, 3);
    assert!(!c.melsec_dump_on_error);
    assert!(c.log_mc_payloads);
    assert_eq!(c.melsec_tcp_retry_attempts, 3);
    assert_eq!(c.melsec_tcp_retry_backoff_ms, 100);
    let c = Config::from_values(Some("18446744073709551615"), None, None, None, None, None);
    assert_eq!(c.melsec_conn_idle_secs, u64::MAX);
}

#[test]
fn line_and_column_of_a_parser_message() {
    assert_eq!(
        extract_line_col_from_msg("TOML parse error at line 3, column 14"),
        Some((3, 14))
    );
    assert_eq!(extract_line_col_from_msg("line 12 column 7: unexpected"), Some((12, 7)));
    assert_eq!(extract_line_col_from_msg("at line 3"), None);
    assert_eq!(extract_line_col_from_msg("column 4 of line 3"), None);
    assert_eq!(extract_line_col_from_msg("line x, column 4"), None);
    assert_eq!(extract_line_col_from_msg("line 3, column x"), None);
    assert_eq!(extract_line_col_from_msg("no place"), None);
    assert_eq!(extract_line_col_from_msg(""), None);
    assert_eq!(extract_line_col_from_msg("outline 5 column 6column 7"), Some((5, 6)));
    assert_eq!(
        extract_line_col_from_msg("line 99999999999999999999999999 column 1"),
        None
    );
}

#[test]
fn values_by_name() {
    let mut entries: Vec<(String, Value)> = Vec::new();
    put_named(&mut entries, "a", Value::UInt(1));
    put_named(&mut entries, "b", Value::Bool(true));
    put_named(&mut entries, "a", Value::Str("x".to_string()));
    assert_eq!(entries.len(), 2);
    assert_eq!(find_named(&entries, "b"), Some(1));
    assert_eq!(find_named(&entries, "c"), None);
    let v = Value::Object(entries);
    assert_eq!(v.get("a").and_then(|x| x.as_str()), Some("x"));
    assert_eq!(v.get("b").and_then(|x| x.as_bool()), Some(true));
    assert!(v.get("c").is_none());
    assert!(v.is_object());
    assert!(Value::Null.get("a").is_none());
    assert_eq!(Value::Int(-3).as_u64(), None);
    assert_eq!(Value::UInt(3).as_u64(), Some(3));
    assert!(Value::UInt(3).as_array().is_none());
}
