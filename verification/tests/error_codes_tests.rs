use melsec_mc::error_codes::{
    code_category, code_description, code_from_int, code_name, is_buffer_error, is_icmp_error,
    is_network_error, is_transport_error, parse_code, ErrorCatalog, ErrorCategory,
    ErrorEntryOwned, ErrorRegistry,
};
use melsec_mc::MelsecError;

fn category_of(name: &str) -> ErrorCategory {
    match name {
        "Success" => ErrorCategory::Success,
        "Addressing" => ErrorCategory::Addressing,
        "DataFormat" => ErrorCategory::DataFormat,
        "ExecutionMode" => ErrorCategory::ExecutionMode,
        "BufferRange" => ErrorCategory::BufferRange,
        "Network" => ErrorCategory::Network,
        "Transport" => ErrorCategory::Transport,
        "Icmp" => ErrorCategory::Icmp,
        "Unknown" => ErrorCategory::Unknown,
        other => panic!("unknown category {other}"),
    }
}

fn registry_from(text: &str) -> ErrorRegistry {
    let doc: toml::Table = text.parse().expect("toml");
    let codes = match doc.get("codes").and_then(|v| v.as_array()) {
        Some(items) => items
            .iter()
            .map(|c| {
                let t = c.as_table().expect("code table");
                let code = match t.get("code").expect("code") {
                    toml::Value::String(s) => parse_code(s).expect("code text"),
                    toml::Value::Integer(i) => code_from_int(*i).expect("code number"),
                    other => panic!("unexpected code {other:?}"),
                };
                ErrorEntryOwned {
                    code,
                    name: t.get("name").and_then(|v| v.as_str()).map(|s| s.to_string()),
                    description: t
                        .get("description")
                        .and_then(|v| v.as_str())
                        .map(|s| s.to_string()),
                    category: t.get("category").and_then(|v| v.as_str()).map(category_of),
                }
            })
            .collect(),
        None => Vec::new(),
    };
    ErrorRegistry::from_entries(codes)
}

#[test]
fn fallback_known_codes() {
    let toml = r#"
[[codes]]
code = "0x0000"
description = "正常完了"
category = "Success"

[[codes]]
code = "0x0002"
description = "読出し/書込み対象範囲の指定に誤りがある"
category = "Addressing"

[[codes]]
code = "0x0054"
description = "Ethernet設定のデータ形式(ASCII/BINARY)不整合"
category = "DataFormat"

[[codes]]
code = "0xC00F"
description = "IPアドレスの重複が検出された"
category = "Network"

[[codes]]
code = "0xC017"
description = "TCPコネクションのオープンに失敗した"
category = "Network"

[[codes]]
code = "0xC032"
description = "TCP/UDPのタイムアウトやACK未受信等"
category = "Transport"

[[codes]]
code = "0xC044"
description = "ICMPのエラーパケットを受信した"
category = "Icmp"
"#;
    let mut catalog = ErrorCatalog::new();
    registry_from(toml).register_or_merge(&mut catalog).expect("register error codes");

    assert_eq!(code_description(&catalog, 0x0000), Some("正常完了".into()));
    let desc_54 = code_description(&catalog, 0x0054).expect("description for 0x0054 expected");
    assert!(desc_54.contains("Ethernet"));
    assert_eq!(
        code_description(&catalog, 0xC00F),
        Some("IPアドレスの重複が検出された".into())
    );
}

#[test]
fn categories_and_helpers() {
    let toml = r#"
[[codes]]
code = "0x0000"
category = "Success"

[[codes]]
code = "0x0002"
category = "Addressing"

[[codes]]
code = "0xC017"
category = "Network"

[[codes]]
code = "0xC032"
category = "Transport"

[[codes]]
code = "0xC044"
category = "Icmp"
"#;
    let mut catalog = ErrorCatalog::new();
    registry_from(toml).register_or_merge(&mut catalog).expect("register error codes");

    assert_eq!(code_category(&catalog, 0x0000), ErrorCategory::Success);
    assert_eq!(code_category(&catalog, 0x0002), ErrorCategory::Addressing);
    assert!(is_network_error(0xC017));
    assert!(is_transport_error(0xC032));
    assert!(is_icmp_error(0xC044));
    assert!(is_buffer_error(0x00A1));
}

#[test]
fn unknown_code() {
    let catalog = ErrorCatalog::new();
    assert_eq!(code_description(&catalog, 0x9999), None);
    let mut catalog = ErrorCatalog::new();
    ErrorRegistry::builtin().register_codes(&mut catalog).expect("built-in");
    assert_eq!(code_description(&catalog, 0x9999), None);
    assert_eq!(code_name(&catalog, 0x9999), None);
    assert_eq!(code_category(&catalog, 0x9999), ErrorCategory::Unknown);
    assert_eq!(code_name(&catalog, 0), Some("OK".to_string()));
    assert_eq!(code_category(&catalog, 0), ErrorCategory::Success);
}

#[test]
fn register_error_codes_merging_behavior() {
    let toml1 = r#"
[[codes]]
code = "0x0000"
description = "正常完了"

[[codes]]
code = "0x0054"
description = "Ethernet設定のデータ形式(ASCII/BINARY)不整合"
"#;
    let mut catalog = ErrorCatalog::new();
    registry_from(toml1).register_or_merge(&mut catalog).expect("register first set");
    assert_eq!(code_description(&catalog, 0x0000), Some("正常完了".into()));

    let toml2 = r#"
[[codes]]
code = "0xC00F"
description = "IPアドレスの重複が検出された"
"#;
    registry_from(toml2).register_or_merge(&mut catalog).expect("register second set");

    assert_eq!(
        code_description(&catalog, 0xC00F),
        Some("IPアドレスの重複が検出された".into())
    );
    assert!(code_description(&catalog, 0x0054).is_some());
}

#[test]
fn register_codes_is_once_only() {
    let mut catalog = ErrorCatalog::new();
    assert!(!catalog.is_registered());
    let first = registry_from("[[codes]]\ncode = 1\nname = \"one\"\n");
    first.register_codes(&mut catalog).expect("first");
    assert!(catalog.is_registered());
    let second = registry_from("[[codes]]\ncode = 2\nname = \"two\"\n");
    assert_eq!(second.register_codes(&mut catalog), Err(MelsecError::AlreadyRegistered));
    assert_eq!(code_name(&catalog, 1), Some("one".to_string()));
    assert_eq!(code_name(&catalog, 2), None);
    second.register_or_merge(&mut catalog).expect("merge");
    assert_eq!(code_name(&catalog, 2), Some("two".to_string()));
}

#[test]
fn later_entry_for_a_code_replaces_the_earlier_one() {
    let mut catalog = ErrorCatalog::new();
    let doc = r#"
[[codes]]
code = "0xC051"
name = "first"
description = "kept?"

[[codes]]
code = 0xC051
name = "second"
"#;
    registry_from(doc).register_codes(&mut catalog).expect("register");
    assert_eq!(code_name(&catalog, 0xC051), Some("second".to_string()));
    assert_eq!(code_description(&catalog, 0xC051), None);
    registry_from("[[codes]]\ncode = \"49233\"\ncategory = \"BufferRange\"\n")
        .register_or_merge(&mut catalog)
        .expect("merge");
    assert_eq!(code_name(&catalog, 0xC051), None);
    assert_eq!(code_category(&catalog, 0xC051), ErrorCategory::BufferRange);
    assert_eq!(catalog.entry(0xC051).map(|e| e.code), Some(0xC051));
}

#[test]
fn code_texts() {
    assert_eq!(parse_code("0x0000"), Some(0));
    assert_eq!(parse_code(" 0xc051 "), Some(0xC051));
    assert_eq!(parse_code("0xFFFF"), Some(0xFFFF));
    assert_eq!(parse_code("0x10000"), None);
    assert_eq!(parse_code("65535"), Some(65535));
    assert_eq!(parse_code("65536"), None);
    assert_eq!(parse_code("+7"), Some(7));
    assert_eq!(parse_code("0x"), None);
    assert_eq!(parse_code(""), None);
    assert_eq!(parse_code("C051"), None);
    assert_eq!(parse_code("0X10"), None);
    assert_eq!(parse_code("-1"), None);
    assert_eq!(code_from_int(0), Some(0));
    assert_eq!(code_from_int(0xFFFF), Some(0xFFFF));
    assert_eq!(code_from_int(0x10000), None);
    assert_eq!(code_from_int(-1), None);
}

#[test]
fn code_ranges() {
    assert!(is_network_error(0xC000) && is_network_error(0xC0FF));
    assert!(!is_network_error(0xBFFF) && !is_network_error(0xC100));
    assert!(is_buffer_error(0x00A0) && is_buffer_error(0xFFFF) && !is_buffer_error(0x009F));
    assert!(is_transport_error(0xC030) && is_transport_error(0xC04F));
    assert!(!is_transport_error(0xC02F) && !is_transport_error(0xC050));
    assert!(is_icmp_error(0xC044) && is_icmp_error(0xC048));
    assert!(!is_icmp_error(0xC043) && !is_icmp_error(0xC049));
}
