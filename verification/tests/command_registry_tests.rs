use melsec_mc::command_registry::{
    parse_field_spec, parse_response_format, BlockTemplateRaw, CommandRegistry, CommandSpec,
    CommandSpecRaw, DeviceFamily, FieldKind, NameField, ResponseEntry, SubcommandSpec,
};
use melsec_mc::commands::Command;
use melsec_mc::device::DeviceCatalog;
use melsec_mc::once::OnceSlot;
use melsec_mc::MelsecError;
use melsec_mc::params::{
    create_read_bits_params, create_read_words_params, create_write_bits_params,
    create_write_words_params,
};
use melsec_mc::plc_series::PLCSeries;
use melsec_mc::value::Value;

fn to_value(v: &toml::Value) -> Value {
    match v {
        toml::Value::Integer(i) => {
            if *i >= 0 {
                Value::UInt(*i as u64)
            } else {
                Value::Int(*i)
            }
        }
        toml::Value::String(s) => Value::Str(s.clone()),
        toml::Value::Boolean(b) => Value::Bool(*b),
        toml::Value::Array(items) => Value::Array(items.iter().map(to_value).collect()),
        toml::Value::Table(t) => {
            Value::Object(t.iter().map(|(k, v)| (k.clone(), to_value(v))).collect())
        }
        _ => Value::Null,
    }
}

fn text_of(t: &toml::Table, key: &str) -> Option<String> {
    t.get(key).and_then(|v| v.as_str()).map(|s| s.to_string())
}

fn texts_of(t: &toml::Table, key: &str) -> Vec<String> {
    match t.get(key).and_then(|v| v.as_array()) {
        Some(items) => items.iter().map(|v| v.as_str().expect("text").to_string()).collect(),
        None => Vec::new(),
    }
}

fn raw_commands(text: &str) -> Vec<CommandSpecRaw> {
    let doc: toml::Table = text.parse().expect("toml");
    let commands = doc.get("command").and_then(|v| v.as_array()).expect("command records");
    commands
        .iter()
        .map(|c| {
            let t = c.as_table().expect("command table");
            let id = Command::from_str(&text_of(t, "id").expect("id")).expect("known id");
            let name = t.get("name").and_then(|v| v.as_table()).map(|n| NameField {
                jp: text_of(n, "jp"),
                en: text_of(n, "en"),
            });
            let block_templates = t.get("block_templates").and_then(|v| v.as_array()).map(|bts| {
                bts.iter()
                    .map(|b| {
                        let b = b.as_table().expect("block table");
                        BlockTemplateRaw {
                            name: text_of(b, "name").expect("block name"),
                            repeat_field: text_of(b, "repeat_field").expect("repeat_field"),
                            fields: texts_of(b, "fields"),
                            device_family: text_of(b, "device_family"),
                        }
                    })
                    .collect()
            });
            CommandSpecRaw {
                id,
                name,
                command_code: t.get("command_code").and_then(|v| v.as_integer()).expect("code")
                    as u16,
                subcommand: t.get("subcommand").map(to_value),
                device_family: text_of(t, "device_family"),
                limits: t.get("limits").map(to_value),
                min_count: None,
                max_count: None,
                request_format: texts_of(t, "request_format"),
                response_format: texts_of(t, "response_format"),
                block_templates,
                examples: None,
                description: text_of(t, "description"),
            }
        })
        .collect()
}

fn registry(text: &str) -> CommandRegistry {
    CommandRegistry::from_raw(&raw_commands(text)).expect("load")
}

fn uint(n: u64) -> Value {
    Value::UInt(n)
}

fn obj(entries: Vec<(&str, Value)>) -> Value {
    Value::Object(entries.into_iter().map(|(k, v)| (k.to_string(), v)).collect())
}

fn arr(items: Vec<Value>) -> Value {
    Value::Array(items)
}

fn block(start_addr: u64, device_code: u64, count: u64) -> Value {
    obj(vec![
        ("start_addr", uint(start_addr)),
        ("device_code", uint(device_code)),
        ("count", uint(count)),
    ])
}

const EXAMPLE: &str = r#"
[[command]]
id = "read_blocks"
    name = { jp = "", en = "ReadMultipleBlocks" }
command_code = 0x0120
subcommand = 0x0000
request_format = ["command:2be", "subcommand:2be", "word_block_count:1", "bit_block_count:1"]
response_format = ["word_blocks:blocks_words_le", "bit_blocks:blocks_bits_packed"]

[[command.block_templates]]
name = "word_block"
repeat_field = "word_block_count"
fields = ["start_addr:3le", "device_code:1", "count:2le"]

[[command.block_templates]]
name = "bit_block"
repeat_field = "bit_block_count"
fields = ["start_addr:3le", "device_code:1", "count:2le"]
"#;

const READ_BITS: &str = r#"
[[command]]
id = "read_bits"
command_code = 0x0401
subcommand = 0x0001
request_format = ["command:2be", "subcommand:2be", "start_addr:3le", "device_code:1", "count:2le"]
response_format = ["data_blocks:blocks_nibbles:high"]
"#;

const READ_WORDS: &str = r#"
[[command]]
id = "read_words"
command_code = 0x0401
subcommand = 0x0000
request_format = ["command:2be", "subcommand:2be", "start_addr:3le", "device_code:1", "count:2le"]
response_format = ["data_blocks:blocks_words_le"]
"#;

#[test]
fn test_build_and_parse_block_request() {
    let catalog = DeviceCatalog::baseline();
    let registry = registry(EXAMPLE);
    let spec = registry.get(Command::ReadBlocks).expect("spec");

    let params = obj(vec![
        ("word_blocks", arr(vec![block(100, 0xA8, 2), block(200, 0xA8, 4)])),
        ("bit_blocks", arr(vec![block(300, 0x9C, 5)])),
    ]);

    let request = spec.build_request(&params, None, &catalog).expect("build req");
    assert_eq!(request[0], 0x20);
    assert_eq!(request[1], 0x01);
    assert_eq!(request[2], 0x00);
    assert_eq!(request[3], 0x00);
    assert_eq!(request[4], 2u8);
    assert_eq!(request[5], 1u8);

    let mut resp: Vec<u8> = Vec::new();
    resp.extend_from_slice(&[0x22, 0x11, 0x44, 0x33]);
    resp.extend_from_slice(&[0x01, 0x02, 0x03, 0x04, 0x05, 0x06, 0x07, 0x08]);
    resp.push(0x0D);

    let parsed = spec.parse_response(&params, &resp, &catalog).expect("parse");
    let wb = parsed
        .get("word_blocks")
        .and_then(|v| v.as_array())
        .expect("word_blocks array missing");
    assert_eq!(wb.len(), 2, "expected two word blocks");
    let first_words = wb[0].as_array().expect("first word block is not an array");
    assert_eq!(first_words.len(), 2, "expected two words in first block");
    let first_word_val = first_words[0].as_u64().expect("first word is not a number");
    assert_eq!(first_word_val, 0x1122);
    let bb = parsed
        .get("bit_blocks")
        .and_then(|v| v.as_array())
        .expect("bit_blocks array missing");
    assert_eq!(bb.len(), 1, "expected one bit block");
    let bits = bb[0].as_array().expect("bit block is not an array");
    assert_eq!(bits.len(), 5, "expected 5 bits in bit block");
    assert!(bits[0].as_bool().expect("bit value not boolean"));
}

#[test]
fn test_parse_nibbles_response() {
    let catalog = DeviceCatalog::baseline();
    let registry = registry(READ_BITS);
    let spec = registry.get(Command::ReadBits).expect("spec");

    let params = obj(vec![
        ("data_blocks", arr(vec![obj(vec![("count", uint(4))])])),
        ("start_addr", uint(0)),
        ("device_code", uint(0x90)),
        ("count", uint(4)),
    ]);
    let resp_bytes: Vec<u8> = vec![0x10u8, 0x10u8];

    let parsed = spec.parse_response(&params, &resp_bytes, &catalog).expect("parse response");
    let db = parsed.get("data_blocks").and_then(|v| v.as_array()).expect("data_blocks missing");
    let arr = db[0].as_array().expect("data_blocks[0] is not an array");
    assert_eq!(arr.len(), 4, "expected 4 nibble points");
    assert!(arr[0].as_bool().expect("arr[0] not boolean"));
    assert!(!arr[1].as_bool().expect("arr[1] not boolean"));
    assert!(arr[2].as_bool().expect("arr[2] not boolean"));
    assert!(!arr[3].as_bool().expect("arr[3] not boolean"));
}

#[test]
fn test_parse_nibbles_response_observed() {
    let catalog = DeviceCatalog::baseline();
    let registry = registry(READ_BITS);
    let spec = registry.get(Command::ReadBits).expect("spec");

    let params = obj(vec![
        ("data_blocks", arr(vec![obj(vec![("count", uint(11))])])),
        ("start_addr", uint(20)),
        ("device_code", uint(0x90)),
        ("count", uint(11)),
    ]);
    let resp_bytes: Vec<u8> = vec![0x10u8; 6];

    let parsed = spec.parse_response(&params, &resp_bytes, &catalog).expect("parse response");
    let db = parsed.get("data_blocks").and_then(|v| v.as_array()).expect("data_blocks missing");
    let arr = db[0].as_array().expect("data_blocks[0] is not an array");
    assert_eq!(arr.len(), 11, "expected 11 nibble points");
    for (i, val) in arr.iter().enumerate().take(11) {
        let expected = i % 2 == 0;
        let got = val.as_bool().unwrap_or_else(|| panic!("value at index {} not boolean", i));
        assert_eq!(got, expected, "mismatch at index {i}");
    }
}

#[test]
fn test_create_write_4bit_params() {
    // Two points share a byte, the first of them in the high nibble.
    let catalog = DeviceCatalog::baseline();
    let params = create_write_bits_params(&catalog, "M0", &[true, false, true]);
    assert_eq!(params.get("payload"), Some(&arr(vec![uint(0x10), uint(0x10)])));
    let params = create_write_bits_params(&catalog, "M0", &[false, true, true, true]);
    assert_eq!(params.get("payload"), Some(&arr(vec![uint(0x01), uint(0x11)])));
    assert_eq!(params.get("count"), Some(&uint(4)));
}

#[test]
fn test_build_request_device_category_restriction() {
    let toml = r#"
[[command]]
id = "write_bits"
command_code = 0x1401
subcommand = 0x0001
device_family = "Bit"
request_format = ["command:2be", "subcommand:2be", "start_addr:3le", "device_code:1", "count:2le", "payload:rest"]
response_format = ["data_blocks:blocks_bits_packed"]
"#;
    let catalog = DeviceCatalog::baseline();
    let registry = registry(toml);
    let spec = registry.get(Command::WriteBits).expect("spec");

    let params = obj(vec![
        ("start_addr", uint(0)),
        ("device_code", uint(0xA8)),
        ("count", uint(2)),
        ("payload", arr(vec![uint(1), uint(0)])),
    ]);
    let res = spec.build_request(&params, None, &catalog);
    assert!(res.is_err(), "expected build_request to reject a word device for write_bits");
}

#[test]
fn test_block_level_device_family_mismatch() {
    let toml = r#"
[[command]]
id = "write_blocks"
command_code = 0x1406
subcommand = 0x0000
request_format = ["command:2be", "subcommand:2be", "word_block_count:1", "bit_block_count:1"]
response_format = ["word_blocks:blocks_words_le", "bit_blocks:blocks_bits_packed"]

[[command.block_templates]]
name = "bit_block"
repeat_field = "bit_block_count"
fields = ["start_addr:3le", "device_code:1", "count:2le"]
device_family = "Bit"
"#;
    let catalog = DeviceCatalog::baseline();
    let registry = registry(toml);
    let spec = registry.get(Command::WriteBlocks).expect("spec");

    let params = obj(vec![("bit_blocks", arr(vec![block(0, 0xA8, 1)]))]);
    let res = spec.build_request(&params, None, &catalog);
    assert!(
        res.is_err(),
        "expected build_request to reject block device mismatch (bit block -> word device)"
    );
}

#[test]
fn test_block_level_device_family_override_ok() {
    let toml = r#"
[[command]]
id = "write_blocks"
command_code = 0x1406
subcommand = 0x0000
device_family = "Bit"
request_format = ["command:2be", "subcommand:2be", "word_block_count:1", "bit_block_count:1"]
response_format = ["word_blocks:blocks_words_le", "bit_blocks:blocks_bits_packed"]

[[command.block_templates]]
name = "word_block"
repeat_field = "word_block_count"
fields = ["start_addr:3le", "device_code:1", "count:2le"]
device_family = "Word"
"#;
    let catalog = DeviceCatalog::baseline();
    let registry = registry(toml);
    let spec = registry.get(Command::WriteBlocks).expect("spec");

    let params = obj(vec![("word_blocks", arr(vec![block(0, 0xA8, 1)]))]);
    let res = spec.build_request(&params, None, &catalog);
    assert!(res.is_ok(), "expected build_request to accept block device override to Word");
}

#[test]
fn test_read_words_accepts_bit_device() {
    let toml = r#"
[[command]]
id = "read_words"
command_code = 0x0401
subcommand = 0x0000
device_family = "Any"
request_format = ["command:2be", "subcommand:2be", "start_addr:3le", "device_code:1", "count:2le"]
response_format = ["data_blocks:blocks_words_le"]
"#;
    let catalog = DeviceCatalog::baseline();
    let registry = registry(toml);
    let spec = registry.get(Command::ReadWords).expect("spec");

    let params = create_read_words_params(&catalog, "M0", 2);
    let res = spec.build_request(&params, None, &catalog);
    assert!(res.is_ok(), "read_words should accept bit device (M)");
}

#[test]
fn test_write_words_accepts_bit_device() {
    let toml = r#"
[[command]]
id = "write_words"
command_code = 0x1401
subcommand = 0x0000
device_family = "Any"
request_format = ["command:2be", "subcommand:2be", "start_addr:3le", "device_code:1", "count:2le", "data:words_le"]
response_format = ["data_blocks:blocks_words_le"]
"#;
    let catalog = DeviceCatalog::baseline();
    let registry = registry(toml);
    let spec = registry.get(Command::WriteWords).expect("spec");

    let params = create_write_words_params(&catalog, "M0", &[0x1234u16, 0x5678u16]);
    let res = spec.build_request(&params, None, &catalog);
    assert!(res.is_ok(), "write_words should accept bit device (M)");
    assert_eq!(
        res.unwrap(),
        vec![0x01, 0x14, 0x00, 0x00, 0x00, 0x00, 0x00, 0x90, 0x02, 0x00, 0x34, 0x12, 0x78, 0x56]
    );
}

#[test]
fn test_word_device_does_not_create_bit_blocks() {
    let catalog = DeviceCatalog::baseline();
    let registry = registry(READ_WORDS);
    let spec = registry.get(Command::ReadWords).expect("spec");

    let params = obj(vec![
        ("data_blocks", arr(vec![obj(vec![("count", uint(1)), ("device_code", uint(0xA8))])])),
        ("start_addr", uint(0)),
        ("device_code", uint(0xA8)),
        ("count", uint(1)),
    ]);
    let resp: Vec<u8> = vec![0x34u8, 0x12u8];

    let parsed = spec.parse_response(&params, &resp, &catalog).expect("parse");
    assert!(parsed.get("data_blocks").is_some(), "expected data_blocks present");
    assert!(
        parsed.get("bit_blocks").is_none(),
        "bit_blocks should not be present for word device responses"
    );
}

const SIMPLE_READ_WORDS: &str = r#"
[[command]]
id = "read_words"
name = { jp = "ワード単位の一括読出し", en = "ReadWords" }
command_code = 0x0401
subcommand = 0x0000
request_format = ["command:2be", "subcommand:2be", "start_addr:3le", "device_code:1", "count:2le"]
response_format = ["count:blocks_words_le"]
"#;

#[test]
fn load_simple_commands_and_build_read_words() {
    let catalog = DeviceCatalog::baseline();
    let registry = registry(SIMPLE_READ_WORDS);
    let spec = registry.get(Command::ReadWords).expect("read_words spec present");

    let params = obj(vec![("start_addr", uint(0)), ("device_code", uint(0xA8)), ("count", uint(4))]);

    let request_bytes = spec.build_request(&params, None, &catalog).expect("build req");
    assert_eq!(request_bytes[0], 0x01);
    assert_eq!(request_bytes[1], 0x04);
    assert!(request_bytes.len() >= 6);
    assert_eq!(request_bytes, vec![0x01, 0x04, 0x00, 0x00, 0x00, 0x00, 0x00, 0xA8, 0x04, 0x00]);
    assert_eq!(spec.display_name("en"), Some("ReadWords"));
    assert_eq!(spec.display_name("ja"), Some("ワード単位の一括読出し"));
    assert_eq!(spec.display_name("de"), Some("ReadWords"));
}

#[test]
fn diag_build_write_bits_params() {
    let catalog = DeviceCatalog::baseline();
    let params = create_write_bits_params(&catalog, "M0", &[true, false, true]);
    let reg = CommandRegistry::builtin();
    let spec = reg.get(Command::WriteBits).expect("spec");
    let request_bytes = spec.build_request(&params, None, &catalog).expect("build_request");

    assert!(request_bytes.len() >= 10);
    let device_code = request_bytes[7];
    let count = u16::from_le_bytes([request_bytes[8], request_bytes[9]]);
    let payload = &request_bytes[10..];
    assert_eq!(device_code, 0x90);
    assert_eq!(count, 3);
    assert_eq!(payload, &[0x10, 0x10]);
    assert_eq!(&request_bytes[..7], &[0x01, 0x14, 0x01, 0x00, 0x00, 0x00, 0x00]);
}

fn pack_nibbles_high_first(vals: &[u8]) -> Vec<u8> {
    let mut out = Vec::new();
    let mut i = 0usize;
    while i < vals.len() {
        let high = vals[i] & 0x0F;
        let low = if i + 1 < vals.len() { vals[i + 1] & 0x0F } else { 0 };
        out.push((high << 4) | low);
        i += 2;
    }
    out
}

fn pack_nibbles_low_first(vals: &[u8]) -> Vec<u8> {
    let mut out = Vec::new();
    let mut i = 0usize;
    while i < vals.len() {
        let low = vals[i] & 0x0F;
        let high = if i + 1 < vals.len() { vals[i + 1] & 0x0F } else { 0 };
        out.push((high << 4) | low);
        i += 2;
    }
    out
}

fn pack_bits_lsb_first(bools: &[bool]) -> Vec<u8> {
    let mut out = Vec::new();
    let mut byte = 0u8;
    for (i, &v) in bools.iter().enumerate() {
        let bit_idx = i % 8;
        if v {
            byte |= 1 << bit_idx;
        }
        if bit_idx == 7 || i == bools.len() - 1 {
            out.push(byte);
            byte = 0;
        }
    }
    out
}

fn pack_bits_msb_first(bools: &[bool]) -> Vec<u8> {
    let mut out = Vec::new();
    let mut byte = 0u8;
    for (i, &v) in bools.iter().enumerate() {
        let bit_idx = 7 - (i % 8);
        if v {
            byte |= 1 << bit_idx;
        }
        if (i % 8) == 7 || i == bools.len() - 1 {
            out.push(byte);
            byte = 0;
        }
    }
    out
}

#[test]
fn diag_compare_write_bits_packings() {
    let catalog = DeviceCatalog::baseline();
    let bools = [true, false, true];
    let nib_vals: Vec<u8> = bools.iter().map(|&b| u8::from(b)).collect();

    let payload_byte_per_bit: Vec<u8> = bools.iter().map(|&b| u8::from(b)).collect();
    let payload_nibble_high = pack_nibbles_high_first(&nib_vals);
    let payload_nibble_low = pack_nibbles_low_first(&nib_vals);
    let payload_bits_lsb = pack_bits_lsb_first(&bools);
    let payload_bits_msb_v = pack_bits_msb_first(&bools);

    let registry = CommandRegistry::builtin();
    let spec = registry.get(Command::WriteBits).expect("spec");

    let variants = vec![
        ("byte_per_bit", payload_byte_per_bit),
        ("nibble_high_first", payload_nibble_high),
        ("nibble_low_first", payload_nibble_low),
        ("bits_lsb_first", payload_bits_lsb),
        ("bits_msb_first", payload_bits_msb_v),
    ];

    for (name, payload) in variants {
        let params = {
            let p = create_write_bits_params(&catalog, "M0", &bools);
            match p {
                Value::Object(entries) => Value::Object(
                    entries
                        .into_iter()
                        .map(|(k, v)| {
                            if k == "payload" {
                                (k, arr(payload.iter().map(|b| uint(u64::from(*b))).collect()))
                            } else {
                                (k, v)
                            }
                        })
                        .collect(),
                ),
                other => other,
            }
        };
        let request_bytes = spec.build_request(&params, None, &catalog).expect("build_request");
        assert!(request_bytes.len() >= 10, "variant {name}");
        let device_code = request_bytes[7];
        let count = u16::from_le_bytes([request_bytes[8], request_bytes[9]]);
        assert_eq!(device_code, 0x90, "variant {name}");
        assert_eq!(count, 3, "variant {name}");
        assert_eq!(&request_bytes[10..], payload.as_slice(), "variant {name}");
    }
}

#[test]
fn read_words_of_a_bit_device_brings_a_bit_view() {
    let catalog = DeviceCatalog::baseline();
    let registry = registry(READ_WORDS);
    let spec = registry.get(Command::ReadWords).expect("spec");
    let params = create_read_words_params(&catalog, "M0", 1);
    let parsed = spec.parse_response(&params, &[0x34, 0x12], &catalog).expect("parse");
    assert_eq!(parsed.get("data_blocks"), Some(&arr(vec![arr(vec![uint(0x1234)])])));
    // 0x1234 is 0001 0010 0011 0100; bit 0 is the least significant.
    let expected: Vec<Value> = [
        false, false, true, false, true, true, false, false, false, true, false, false, true,
        false, false, false,
    ]
    .iter()
    .map(|b| Value::Bool(*b))
    .collect();
    assert_eq!(parsed.get("bit_blocks"), Some(&arr(vec![arr(expected)])));
    let by_shift: Vec<Value> = (0..16).map(|i| Value::Bool((0x1234u16 >> i) & 1 == 1)).collect();
    assert_eq!(parsed.get("bit_blocks"), Some(&arr(vec![arr(by_shift)])));
}

#[test]
fn read_words_of_a_word_device_brings_no_bit_view() {
    let catalog = DeviceCatalog::baseline();
    let registry = registry(READ_WORDS);
    let spec = registry.get(Command::ReadWords).expect("spec");
    let params = create_read_words_params(&catalog, "D0", 1);
    let parsed = spec.parse_response(&params, &[0x34, 0x12], &catalog).expect("parse");
    assert_eq!(parsed, obj(vec![("data_blocks", arr(vec![arr(vec![uint(0x1234)])]))]));
    assert!(parsed.get("bit_blocks").is_none());
}

#[test]
fn two_words_of_a_bit_device_bring_no_bit_view() {
    let catalog = DeviceCatalog::baseline();
    let registry = registry(READ_WORDS);
    let spec = registry.get(Command::ReadWords).expect("spec");
    let params = create_read_words_params(&catalog, "M0", 2);
    let parsed = spec.parse_response(&params, &[0x34, 0x12, 0x78, 0x56], &catalog).expect("parse");
    assert_eq!(
        parsed,
        obj(vec![("data_blocks", arr(vec![arr(vec![uint(0x1234), uint(0x5678)])]))])
    );
}

#[test]
fn nibble_response_of_eleven_points_alternates() {
    let catalog = DeviceCatalog::baseline();
    let registry = CommandRegistry::builtin();
    let spec = registry.get(Command::ReadBits).expect("spec");
    let params = create_read_bits_params(&catalog, "M20", 11);
    let parsed = spec.parse_response(&params, &[0x10; 6], &catalog).expect("parse");
    let expected: Vec<Value> = (0..11).map(|i| Value::Bool(i % 2 == 0)).collect();
    assert_eq!(parsed.get("data_blocks"), Some(&arr(vec![arr(expected)])));
}

#[test]
fn blocks_request_starts_with_command_and_block_counts() {
    let catalog = DeviceCatalog::baseline();
    let registry = registry(EXAMPLE);
    let spec = registry.get(Command::ReadBlocks).expect("spec");
    let params = obj(vec![
        ("word_blocks", arr(vec![block(100, 0xA8, 2), block(200, 0xA8, 4)])),
        ("bit_blocks", arr(vec![block(300, 0x9C, 5)])),
    ]);
    let body = spec.build_request(&params, None, &catalog).expect("build");
    assert_eq!(
        body,
        vec![
            0x20, 0x01, 0x00, 0x00, 0x02, 0x01, // command, subcommand, block counts
            100, 0, 0, 0xA8, 2, 0, // first word block
            200, 0, 0, 0xA8, 4, 0, // second word block
            0x2C, 0x01, 0, 0x9C, 5, 0, // bit block
        ]
    );
}

#[test]
fn series_r_widens_device_code_and_start_address() {
    let catalog = DeviceCatalog::baseline();
    let registry = CommandRegistry::builtin();
    let spec = registry.get(Command::ReadWords).expect("spec");
    let params = create_read_words_params(&catalog, "D100", 3);
    let q = spec.build_request(&params, Some(PLCSeries::Q), &catalog).expect("q");
    assert_eq!(q, vec![0x01, 0x04, 0x00, 0x00, 100, 0, 0, 0xA8, 3, 0]);
    let r = spec.build_request(&params, Some(PLCSeries::R), &catalog).expect("r");
    assert_eq!(r, vec![0x01, 0x04, 0x02, 0x00, 100, 0, 0, 0, 0xA8, 0, 3, 0]);
    let none = spec.build_request(&params, None, &catalog).expect("none");
    assert_eq!(none, q);
}

#[test]
fn field_values_must_fit_their_width() {
    let catalog = DeviceCatalog::baseline();
    let registry = registry(READ_WORDS);
    let spec = registry.get(Command::ReadWords).expect("spec");
    let fits = obj(vec![
        ("start_addr", uint(0xFF_FFFF)),
        ("device_code", uint(0xA8)),
        ("count", uint(0xFFFF)),
    ]);
    assert!(spec.build_request(&fits, None, &catalog).is_ok());
    let wide_count = obj(vec![
        ("start_addr", uint(0)),
        ("device_code", uint(0xA8)),
        ("count", uint(0x1_0000)),
    ]);
    assert!(spec.build_request(&wide_count, None, &catalog).is_err());
    let wide_addr = obj(vec![
        ("start_addr", uint(0x100_0000)),
        ("device_code", uint(0xA8)),
        ("count", uint(1)),
    ]);
    assert!(spec.build_request(&wide_addr, None, &catalog).is_err());
    assert!(spec.build_request(&wide_addr, Some(PLCSeries::R), &catalog).is_ok());
    let missing = obj(vec![("start_addr", uint(0)), ("device_code", uint(0xA8))]);
    assert!(spec.build_request(&missing, None, &catalog).is_err());
    let negative = obj(vec![
        ("start_addr", uint(0)),
        ("device_code", uint(0xA8)),
        ("count", Value::Int(-1)),
    ]);
    assert!(spec.build_request(&negative, None, &catalog).is_err());
    let wide_code = obj(vec![
        ("start_addr", uint(0)),
        ("device_code", uint(0x1A8)),
        ("count", uint(1)),
    ]);
    assert!(spec.build_request(&wide_code, None, &catalog).is_err());
}

#[test]
fn word_family_rejects_bit_device_and_admits_word_devices() {
    let toml = r#"
[[command]]
id = "read_words"
command_code = 0x0401
subcommand = 0x0000
device_family = "Word"
request_format = ["command:2be", "subcommand:2be", "start_addr:3le", "device_code:1", "count:2le"]
response_format = ["data_blocks:blocks_words_le"]
"#;
    let catalog = DeviceCatalog::baseline();
    let registry = registry(toml);
    let spec = registry.get(Command::ReadWords).expect("spec");
    assert_eq!(spec.device_family, DeviceFamily::Word);
    let on_m = create_read_words_params(&catalog, "M0", 1);
    assert!(spec.build_request(&on_m, None, &catalog).is_err());
    let on_d = create_read_words_params(&catalog, "D0", 1);
    assert!(spec.build_request(&on_d, None, &catalog).is_ok());
    // A code that the catalog does not know is let through.
    let unknown = obj(vec![("start_addr", uint(0)), ("device_code", uint(0x01)), ("count", uint(1))]);
    assert!(spec.build_request(&unknown, None, &catalog).is_ok());
}

#[test]
fn limits_cap_the_points_of_a_request() {
    let toml = r#"
[[command]]
id = "read_blocks"
command_code = 0x0406
subcommand = 0x0000
limits = { word_points = 5, bit_points = 4 }
request_format = ["command:2le", "subcommand:2le", "word_block_count:1", "bit_block_count:1"]
response_format = ["word_blocks:blocks_words_le", "bit_blocks:blocks_bits_packed"]

[[command.block_templates]]
name = "word_block"
repeat_field = "word_block_count"
fields = ["start_addr:3le", "device_code:1", "count:2le"]

[[command.block_templates]]
name = "bit_block"
repeat_field = "bit_block_count"
fields = ["start_addr:3le", "device_code:1", "count:2le"]
"#;
    let catalog = DeviceCatalog::baseline();
    let registry = registry(toml);
    let spec = registry.get(Command::ReadBlocks).expect("spec");
    let limits = spec.limits.expect("limits");
    assert_eq!(limits.word_points, Some(5));
    assert_eq!(limits.dword_points, None);
    assert_eq!(limits.bit_points, Some(4));
    let at_cap = obj(vec![
        ("word_blocks", arr(vec![block(0, 0xA8, 2), block(10, 0xB4, 3)])),
        ("bit_blocks", arr(vec![block(0, 0x90, 4)])),
    ]);
    assert!(spec.build_request(&at_cap, None, &catalog).is_ok());
    let words_over = obj(vec![
        ("word_blocks", arr(vec![block(0, 0xA8, 3), block(10, 0xB4, 3)])),
        ("bit_blocks", arr(vec![])),
    ]);
    assert!(spec.build_request(&words_over, None, &catalog).is_err());
    let bits_over = obj(vec![
        ("word_blocks", arr(vec![])),
        ("bit_blocks", arr(vec![block(0, 0x90, 5)])),
    ]);
    assert!(spec.build_request(&bits_over, None, &catalog).is_err());
    // Bit devices in word blocks count as bit points.
    let mixed = obj(vec![
        ("word_blocks", arr(vec![block(0, 0x90, 3)])),
        ("bit_blocks", arr(vec![block(0, 0x90, 2)])),
    ]);
    assert!(spec.build_request(&mixed, None, &catalog).is_err());
    let huge = obj(vec![
        ("word_blocks", arr(vec![block(0, 0xA8, 1), block(0, 0xA8, 1)])),
        ("bit_blocks", arr(vec![obj(vec![
            ("start_addr", uint(0)),
            ("device_code", uint(0x90)),
            ("count", uint(u64::MAX)),
        ]), obj(vec![
            ("start_addr", uint(0)),
            ("device_code", uint(0x90)),
            ("count", uint(u64::MAX)),
        ])])),
    ]);
    assert!(spec.build_request(&huge, None, &catalog).is_err());
}

#[test]
fn missing_block_array_and_bad_entries_reject() {
    let catalog = DeviceCatalog::baseline();
    let registry = registry(EXAMPLE);
    let spec = registry.get(Command::ReadBlocks).expect("spec");
    let no_bits = obj(vec![("word_blocks", arr(vec![block(0, 0xA8, 1)]))]);
    assert!(spec.build_request(&no_bits, None, &catalog).is_err());
    let not_object = obj(vec![("word_blocks", arr(vec![uint(1)])), ("bit_blocks", arr(vec![]))]);
    assert!(spec.build_request(&not_object, None, &catalog).is_err());
    let no_count = obj(vec![
        ("word_blocks", arr(vec![obj(vec![("start_addr", uint(0)), ("device_code", uint(0xA8))])])),
        ("bit_blocks", arr(vec![])),
    ]);
    assert!(spec.build_request(&no_count, None, &catalog).is_err());
}

#[test]
fn ascii_hex_field_rejects_other_bytes() {
    let catalog = DeviceCatalog::baseline();
    let registry = CommandRegistry::builtin();
    let spec = registry.get(Command::Echo).expect("spec");
    let good = obj(vec![("payload", Value::Str("09afAF".to_string()))]);
    assert_eq!(
        spec.build_request(&good, None, &catalog).expect("hex"),
        vec![0x19, 0x06, 0x00, 0x00, b'0', b'9', b'a', b'f', b'A', b'F']
    );
    let bad = obj(vec![("payload", Value::Str("12G4".to_string()))]);
    assert!(spec.build_request(&bad, None, &catalog).is_err());
    let as_bytes = obj(vec![("payload", arr(vec![uint(0x41), uint(0x00)]))]);
    assert_eq!(
        spec.build_request(&as_bytes, None, &catalog).expect("bytes"),
        vec![0x19, 0x06, 0x00, 0x00, 0x41, 0x00]
    );
    let absent = obj(vec![]);
    assert_eq!(spec.build_request(&absent, None, &catalog).expect("absent"), vec![0x19, 0x06, 0, 0]);

    let parsed = spec.parse_response(&good, b"00ffAB", &catalog).expect("hex response");
    assert_eq!(parsed, obj(vec![("payload", Value::Str("00ffAB".to_string()))]));
    assert!(spec.parse_response(&good, b"00xz", &catalog).is_err());
    assert!(spec.parse_response(&good, &[0x30, 0xC3, 0xA9], &catalog).is_err());
}

#[test]
fn words_and_bytes_fields_check_their_items() {
    let toml = r#"
[[command]]
id = "write_random_words"
command_code = 0x1402
request_format = ["command:2", "data:words_be", "raw:bytes", "tail:.."]
response_format = []
"#;
    let catalog = DeviceCatalog::baseline();
    let registry = registry(toml);
    let spec = registry.get(Command::WriteRandomWords).expect("spec");
    let params = obj(vec![
        ("data", arr(vec![uint(0x1234), uint(1)])),
        ("raw", arr(vec![uint(0xFF)])),
        ("tail", Value::Str("é".to_string())),
    ]);
    assert_eq!(
        spec.build_request(&params, None, &catalog).expect("build"),
        vec![0x02, 0x14, 0x12, 0x34, 0x00, 0x01, 0xFF, 0xC3, 0xA9]
    );
    let wide_word = obj(vec![("data", arr(vec![uint(0x1_0000)]))]);
    assert!(spec.build_request(&wide_word, None, &catalog).is_err());
    let not_number = obj(vec![("data", arr(vec![Value::Bool(true)]))]);
    assert!(spec.build_request(&not_number, None, &catalog).is_err());
    let no_array = obj(vec![("data", uint(1))]);
    assert!(spec.build_request(&no_array, None, &catalog).is_err());
    let wide_byte = obj(vec![("data", arr(vec![])), ("raw", arr(vec![uint(256)]))]);
    assert!(spec.build_request(&wide_byte, None, &catalog).is_err());
    assert_eq!(
        spec.parse_response(&params, &[1, 2, 3], &catalog).expect("no entries"),
        obj(vec![])
    );
}

#[test]
fn responses_that_are_too_short_reject() {
    let catalog = DeviceCatalog::baseline();
    let registry = registry(EXAMPLE);
    let spec = registry.get(Command::ReadBlocks).expect("spec");
    let params = obj(vec![
        ("word_blocks", arr(vec![block(100, 0xA8, 2)])),
        ("bit_blocks", arr(vec![block(300, 0x9C, 9)])),
    ]);
    assert!(spec.parse_response(&params, &[1, 2, 3, 4, 5], &catalog).is_err());
    let parsed = spec.parse_response(&params, &[1, 2, 3, 4, 0x81, 0x01], &catalog).expect("fits");
    let bits: Vec<Value> = [true, false, false, false, false, false, false, true, true]
        .iter()
        .map(|b| Value::Bool(*b))
        .collect();
    assert_eq!(
        parsed,
        obj(vec![
            ("word_blocks", arr(vec![arr(vec![uint(0x0201), uint(0x0403)])])),
            ("bit_blocks", arr(vec![arr(bits)])),
        ])
    );
    let no_count = obj(vec![("word_blocks", arr(vec![obj(vec![])]))]);
    assert!(spec.parse_response(&no_count, &[1, 2, 3, 4], &catalog).is_err());
}

#[test]
fn packed_bits_msb_first_and_low_nibbles() {
    let toml = r#"
[[command]]
id = "read_bits"
command_code = 0x0401
request_format = ["command:2le"]
response_format = ["a:blocks_bits_packed:msb", "b:blocks_nibbles:low", "c:blocks_words_be"]
"#;
    let catalog = DeviceCatalog::baseline();
    let registry = registry(toml);
    let spec = registry.get(Command::ReadBits).expect("spec");
    let one = |n: u64| arr(vec![obj(vec![("count", uint(n))])]);
    let params = obj(vec![("a", one(3)), ("b", one(3)), ("c", one(1))]);
    let parsed = spec
        .parse_response(&params, &[0b1010_0000, 0x10, 0x01, 0x12, 0x34], &catalog)
        .expect("parse");
    let bools = |v: &[bool]| arr(v.iter().map(|b| Value::Bool(*b)).collect());
    assert_eq!(
        parsed,
        obj(vec![
            ("a", arr(vec![bools(&[true, false, true])])),
            ("b", arr(vec![bools(&[false, true, true])])),
            ("c", arr(vec![arr(vec![uint(0x1234)])])),
        ])
    );
}

#[test]
fn field_spec_grammar() {
    let kind = |s: &str| parse_field_spec(s).map(|f| (f.name, f.kind));
    assert_eq!(
        kind("start_addr:3le").unwrap(),
        ("start_addr".to_string(), FieldKind::FixedBytes { n: 3, le: true })
    );
    assert_eq!(
        kind("command:2be").unwrap(),
        ("command".to_string(), FieldKind::FixedBytes { n: 2, le: false })
    );
    assert_eq!(kind("n:1").unwrap(), ("n".to_string(), FieldKind::FixedBytes { n: 1, le: true }));
    assert_eq!(kind("d:words_le").unwrap().1, FieldKind::Words { le: true });
    assert_eq!(kind("d:words_be").unwrap().1, FieldKind::Words { le: false });
    assert_eq!(kind("d:words").unwrap().1, FieldKind::Words { le: false });
    assert_eq!(kind("p:bytes").unwrap().1, FieldKind::Bytes);
    assert_eq!(kind("p:rest").unwrap().1, FieldKind::Bytes);
    assert_eq!(kind("p:..").unwrap().1, FieldKind::Bytes);
    assert_eq!(kind("p:ascii_hex").unwrap().1, FieldKind::AsciiHex);
    assert_eq!(kind("p:2lele").unwrap().1, FieldKind::FixedBytes { n: 2, le: true });
    assert_eq!(kind(":4le").unwrap(), (String::new(), FieldKind::FixedBytes { n: 4, le: true }));
    assert!(kind("no_colon").is_err());
    assert!(kind("p:le").is_err());
    assert!(kind("p:xle").is_err());
    assert!(kind("p:unknown").is_err());
    assert!(kind("p:").is_err());
    assert!(kind("p:2:le").is_err());
}

#[test]
fn response_format_grammar() {
    let entry = |s: &str| parse_response_format(s);
    assert_eq!(
        entry("w:blocks_words_le").unwrap(),
        ResponseEntry::BlockWords { name: "w".to_string(), le: true }
    );
    assert_eq!(
        entry("w:blocks_words_be").unwrap(),
        ResponseEntry::BlockWords { name: "w".to_string(), le: false }
    );
    assert_eq!(
        entry("b:blocks_bits_packed").unwrap(),
        ResponseEntry::BlockBitsPacked { name: "b".to_string(), lsb_first: true }
    );
    assert_eq!(
        entry("b:blocks_bits_packed:lsb").unwrap(),
        ResponseEntry::BlockBitsPacked { name: "b".to_string(), lsb_first: true }
    );
    assert_eq!(
        entry("b:blocks_bits_packed:msb:more").unwrap(),
        ResponseEntry::BlockBitsPacked { name: "b".to_string(), lsb_first: false }
    );
    assert_eq!(
        entry("n:blocks_nibbles").unwrap(),
        ResponseEntry::BlockNibbles { name: "n".to_string(), high_first: true }
    );
    assert_eq!(
        entry("n:blocks_nibbles:low").unwrap(),
        ResponseEntry::BlockNibbles { name: "n".to_string(), high_first: false }
    );
    assert_eq!(
        entry("p:ascii_hex").unwrap(),
        ResponseEntry::AsciiHex { name: "p".to_string() }
    );
    assert!(entry("p").is_err());
    assert!(entry("p:words").is_err());
}

#[test]
fn subcommand_per_series_and_reverse_lookup() {
    let toml = r#"
[[command]]
id = "read_words"
command_code = 0x0401
subcommand = { Q = 0x0000, R = 0x0002 }
request_format = ["command:2", "subcommand:2"]
response_format = []

[[command]]
id = "read_bits"
command_code = 0x0401
subcommand = { Q = 0x0001, R = 0x0003 }
request_format = ["command:2", "subcommand:2"]
response_format = []

[[command]]
id = "echo"
command_code = 0x0619
request_format = ["command:2", "subcommand:2"]
response_format = []
"#;
    let catalog = DeviceCatalog::baseline();
    let registry = registry(toml);
    assert_eq!(registry.len(), 3);
    let words = registry.get(Command::ReadWords).expect("read_words");
    match &words.subcommand {
        Some(SubcommandSpec::PerSeries(table)) => {
            assert_eq!(table, &vec![("Q".to_string(), 0u16), ("R".to_string(), 2u16)]);
        }
        other => panic!("unexpected subcommand {other:?}"),
    }
    let p = obj(vec![]);
    assert_eq!(words.build_request(&p, Some(PLCSeries::R), &catalog).unwrap(), vec![1, 4, 2, 0]);
    assert_eq!(words.build_request(&p, Some(PLCSeries::Q), &catalog).unwrap(), vec![1, 4, 0, 0]);
    assert_eq!(words.build_request(&p, None, &catalog).unwrap(), vec![1, 4, 0, 0]);

    let found = registry.find_by_code_and_sub(0x0401, 0x0003, Some(PLCSeries::R)).expect("bits");
    assert_eq!(found.id, Command::ReadBits);
    let found = registry.find_by_code_and_sub(0x0401, 0x0000, None).expect("words");
    assert_eq!(found.id, Command::ReadWords);
    let found = registry.find_by_code_and_sub(0x0619, 0, Some(PLCSeries::Q)).expect("echo");
    assert_eq!(found.id, Command::Echo);
    assert!(registry.find_by_code_and_sub(0x0401, 0x0003, Some(PLCSeries::Q)).is_none());
    assert!(registry.find_by_code_and_sub(0x9999, 0, None).is_none());
    assert_eq!(registry.get_by_str("read_bits").map(|s| s.id), Some(Command::ReadBits));
    assert!(registry.get_by_str("write_bits").is_none());
    assert!(registry.get_by_str("nonsense").is_none());
}

#[test]
fn later_record_replaces_earlier_one_with_the_same_id() {
    let toml = r#"
[[command]]
id = "echo"
command_code = 0x0001
request_format = ["command:2"]
response_format = []

[[command]]
id = "echo"
command_code = 0x0619
request_format = ["command:2"]
response_format = []
"#;
    let raws = raw_commands(toml);
    let registry = CommandRegistry::from_raw(&raws).expect("load");
    assert_eq!(registry.len(), 1);
    assert_eq!(registry.get(Command::Echo).unwrap().command_code, 0x0619);
    assert!(CommandRegistry::validate(&raws).is_err());
}

#[test]
fn rejected_records_fail_the_load() {
    let bad_field = r#"
[[command]]
id = "echo"
command_code = 0x0619
request_format = ["command"]
response_format = []
"#;
    assert!(CommandRegistry::from_raw(&raw_commands(bad_field)).is_err());
    let bad_response = r#"
[[command]]
id = "echo"
command_code = 0x0619
request_format = ["command:2"]
response_format = ["payload:hex"]
"#;
    assert!(CommandRegistry::from_raw(&raw_commands(bad_response)).is_err());
    let bad_subcommand = r#"
[[command]]
id = "echo"
command_code = 0x0619
subcommand = 70000
request_format = ["command:2"]
response_format = []
"#;
    assert!(CommandRegistry::from_raw(&raw_commands(bad_subcommand)).is_err());
    let text_subcommand = r#"
[[command]]
id = "echo"
command_code = 0x0619
subcommand = "zero"
request_format = ["command:2"]
response_format = []
"#;
    assert!(CommandRegistry::from_raw(&raw_commands(text_subcommand)).is_err());
}

#[test]
fn validate_checks_names_and_families() {
    assert!(CommandRegistry::validate(&raw_commands(EXAMPLE)).is_ok());
    assert!(CommandRegistry::validate(&raw_commands(SIMPLE_READ_WORDS)).is_ok());
    // The response names neither a request field nor a block.
    assert!(CommandRegistry::validate(&raw_commands(READ_WORDS)).is_err());
    let bad_repeat = r#"
[[command]]
id = "read_blocks"
command_code = 0x0406
request_format = ["command:2", "word_block_count:1"]
response_format = ["word_blocks:blocks_words_le"]

[[command.block_templates]]
name = "word_block"
repeat_field = "block_count"
fields = ["count:2le"]
"#;
    assert!(CommandRegistry::validate(&raw_commands(bad_repeat)).is_err());
    let bad_family = r#"
[[command]]
id = "read_blocks"
command_code = 0x0406
request_format = ["command:2", "word_block_count:1"]
response_format = ["word_blocks:blocks_words_le"]

[[command.block_templates]]
name = "word_block"
repeat_field = "word_block_count"
fields = ["count:2le"]
device_family = "Nibble"
"#;
    assert!(CommandRegistry::validate(&raw_commands(bad_family)).is_err());
    let good_family = bad_family.replace("Nibble", "any");
    assert!(CommandRegistry::validate(&raw_commands(&good_family)).is_ok());
    let bad_command_family = SIMPLE_READ_WORDS.replace("command_code", "device_family = \"Byte\"\ncommand_code");
    assert!(CommandRegistry::validate(&raw_commands(&bad_command_family)).is_err());
    let good_command_family = SIMPLE_READ_WORDS.replace("command_code", "device_family = \"word\"\ncommand_code");
    assert!(CommandRegistry::validate(&raw_commands(&good_command_family)).is_ok());
}

#[test]
fn global_registry_is_set_once() {
    let mut slot: OnceSlot<CommandRegistry> = OnceSlot::new();
    assert!(CommandRegistry::global(&slot).is_none());
    registry(READ_WORDS).set_global(&mut slot).expect("first set");
    assert_eq!(registry(READ_BITS).set_global(&mut slot), Err(MelsecError::AlreadyRegistered));
    assert_eq!(
        CommandRegistry::load_and_set_global_from_src(&mut slot),
        Err(MelsecError::AlreadyRegistered)
    );
    let held = CommandRegistry::global(&slot).expect("set");
    assert!(held.get(Command::ReadWords).is_some());
    assert!(held.get(Command::ReadBits).is_none());

    let mut fresh: OnceSlot<CommandRegistry> = OnceSlot::new();
    CommandRegistry::load_and_set_global_from_src(&mut fresh).expect("built-in");
    let held = CommandRegistry::global(&fresh).expect("set");
    for id in [
        Command::ReadWords,
        Command::WriteWords,
        Command::ReadBits,
        Command::WriteBits,
        Command::Echo,
    ] {
        assert!(held.get(id).is_some());
    }
}

fn word_block_bytes(words: &[u16], le: bool) -> Vec<u8> {
    words.iter().flat_map(|w| if le { w.to_le_bytes() } else { w.to_be_bytes() }).collect()
}

fn bools(v: &[bool]) -> Value {
    arr(v.iter().map(|b| Value::Bool(*b)).collect())
}

#[test]
fn structured_data_come_back_from_their_bytes() {
    let toml = r#"
[[command]]
id = "read_blocks"
command_code = 0x0406
request_format = ["command:2le"]
response_format = ["w:blocks_words_le", "x:blocks_words_be", "lsb:blocks_bits_packed", "msb:blocks_bits_packed:msb", "hi:blocks_nibbles", "lo:blocks_nibbles:low", "text:ascii_hex"]
"#;
    let catalog = DeviceCatalog::baseline();
    let registry = registry(toml);
    let spec = registry.get(Command::ReadBlocks).expect("spec");

    let w1 = [0x1234u16, 0xFFFF, 0];
    let w2: [u16; 0] = [];
    let x1 = [0xABCDu16];
    let bits = [true, false, false, true, true, false, true, false, true, true, false];
    let few = [false, true, true];
    let text = "09afAF";
    let data = obj(vec![
        ("w", arr(vec![arr(w1.iter().map(|w| uint(*w as u64)).collect()), arr(vec![])])),
        ("x", arr(vec![arr(vec![uint(0xABCD)])])),
        ("lsb", arr(vec![bools(&bits), bools(&few)])),
        ("msb", arr(vec![bools(&bits)])),
        ("hi", arr(vec![bools(&few), bools(&bits)])),
        ("lo", arr(vec![bools(&few)])),
        ("text", Value::Str(text.to_string())),
    ]);
    let describe = |counts: &[usize]| {
        arr(counts.iter().map(|n| obj(vec![("count", uint(*n as u64))])).collect())
    };
    let params = obj(vec![
        ("w", describe(&[3, 0])),
        ("x", describe(&[1])),
        ("lsb", describe(&[11, 3])),
        ("msb", describe(&[11])),
        ("hi", describe(&[3, 11])),
        ("lo", describe(&[3])),
    ]);

    let nibbles = |v: &[bool]| v.iter().map(|b| u8::from(*b)).collect::<Vec<u8>>();
    let mut bytes: Vec<u8> = Vec::new();
    bytes.extend(word_block_bytes(&w1, true));
    bytes.extend(word_block_bytes(&w2, true));
    bytes.extend(word_block_bytes(&x1, false));
    bytes.extend(pack_bits_lsb_first(&bits));
    bytes.extend(pack_bits_lsb_first(&few));
    bytes.extend(pack_bits_msb_first(&bits));
    bytes.extend(pack_nibbles_high_first(&nibbles(&few)));
    bytes.extend(pack_nibbles_high_first(&nibbles(&bits)));
    bytes.extend(pack_nibbles_low_first(&nibbles(&few)));
    bytes.extend_from_slice(text.as_bytes());

    let parsed = spec.parse_response(&params, &bytes, &catalog).expect("parse");
    assert_eq!(parsed, data);

    assert_eq!(spec.build_response_fixture(&data).expect("fixture"), bytes);
    let described = CommandSpec::describe_fixture(&data);
    assert_eq!(described.get("w"), params.get("w"));
    assert_eq!(described.get("lsb"), params.get("lsb"));
    assert_eq!(described.get("text"), Some(&arr(vec![])));
    assert_eq!(spec.parse_response(&described, &bytes, &catalog).expect("parse"), data);
}

#[test]
fn data_that_do_not_fit_the_entries_make_no_fixture() {
    let catalog = DeviceCatalog::baseline();
    let registry = registry(EXAMPLE);
    let spec = registry.get(Command::ReadBlocks).expect("spec");
    let words = |v: Vec<Value>| arr(vec![arr(v)]);
    let good = obj(vec![
        ("word_blocks", words(vec![uint(1), uint(0xFFFF)])),
        ("bit_blocks", arr(vec![bools(&[true; 9])])),
    ]);
    let bytes = spec.build_response_fixture(&good).expect("fits");
    assert_eq!(bytes, vec![1, 0, 0xFF, 0xFF, 0xFF, 0x01]);
    let params = CommandSpec::describe_fixture(&good);
    assert_eq!(spec.parse_response(&params, &bytes, &catalog).unwrap(), good);

    let bad = |data: Value| spec.build_response_fixture(&data).is_err();
    assert!(bad(Value::Null));
    assert!(bad(obj(vec![("word_blocks", words(vec![]))])));
    assert!(bad(obj(vec![
        ("bit_blocks", arr(vec![])),
        ("word_blocks", arr(vec![])),
    ])));
    assert!(bad(obj(vec![
        ("word_blocks", words(vec![uint(0x1_0000)])),
        ("bit_blocks", arr(vec![])),
    ])));
    assert!(bad(obj(vec![
        ("word_blocks", words(vec![Value::Bool(true)])),
        ("bit_blocks", arr(vec![])),
    ])));
    assert!(bad(obj(vec![
        ("word_blocks", arr(vec![])),
        ("bit_blocks", arr(vec![arr(vec![uint(1)])])),
    ])));
    assert!(bad(obj(vec![
        ("word_blocks", arr(vec![uint(1)])),
        ("bit_blocks", arr(vec![])),
    ])));
    assert!(bad(obj(vec![("word_blocks", uint(1)), ("bit_blocks", arr(vec![]))])));
    assert!(!bad(obj(vec![("word_blocks", arr(vec![])), ("bit_blocks", arr(vec![]))])));

    let echo = CommandRegistry::builtin();
    let echo = echo.get(Command::Echo).expect("echo");
    assert_eq!(
        echo.build_response_fixture(&obj(vec![("payload", Value::Str("0aF".to_string()))]))
            .unwrap(),
        b"0aF".to_vec()
    );
    assert!(echo
        .build_response_fixture(&obj(vec![("payload", Value::Str("0x".to_string()))]))
        .is_err());
    assert_eq!(CommandSpec::describe_fixture(&Value::UInt(1)), Value::Null);
}

#[test]
fn command_and_start_address_have_fixed_widths() {
    let toml = r#"
[[command]]
id = "read_words"
command_code = 0x0401
subcommand = 0x0002
request_format = ["command:4be", "subcommand:1", "start_addr:2be", "device_code:4be", "count:2be"]
response_format = []
"#;
    let catalog = DeviceCatalog::baseline();
    let registry = registry(toml);
    let spec = registry.get(Command::ReadWords).expect("spec");
    let params = obj(vec![
        ("start_addr", uint(0x0102)),
        ("device_code", uint(0xA8)),
        ("count", uint(3)),
    ]);
    assert_eq!(
        spec.build_request(&params, Some(PLCSeries::Q), &catalog).unwrap(),
        vec![0x01, 0x04, 0x02, 0x00, 0x02, 0x01, 0x00, 0xA8, 0x00, 0x03]
    );
    assert_eq!(
        spec.build_request(&params, Some(PLCSeries::R), &catalog).unwrap(),
        vec![0x01, 0x04, 0x02, 0x00, 0x02, 0x01, 0x00, 0x00, 0xA8, 0x00, 0x00, 0x03]
    );
    assert_eq!(
        spec.build_request(&params, None, &catalog).unwrap(),
        vec![0x01, 0x04, 0x02, 0x00, 0x01, 0x02, 0xA8, 0x00, 0x03]
    );
}

#[test]
fn nothing_but_empty_values_follows_a_text() {
    let toml = r#"
[[command]]
id = "echo"
command_code = 0x0619
request_format = ["command:2"]
response_format = ["text:ascii_hex", "w:blocks_words_le", "more:ascii_hex"]
"#;
    let catalog = DeviceCatalog::baseline();
    let registry = registry(toml);
    let spec = registry.get(Command::Echo).expect("spec");
    let data = obj(vec![
        ("text", Value::Str("AB".to_string())),
        ("w", arr(vec![arr(vec![])])),
        ("more", Value::Str(String::new())),
    ]);
    let bytes = spec.build_response_fixture(&data).expect("fits");
    assert_eq!(bytes, b"AB".to_vec());
    let params = CommandSpec::describe_fixture(&data);
    assert_eq!(spec.parse_response(&params, &bytes, &catalog).unwrap(), data);

    let words_after = obj(vec![
        ("text", Value::Str("AB".to_string())),
        ("w", arr(vec![arr(vec![uint(1)])])),
        ("more", Value::Str(String::new())),
    ]);
    assert!(spec.build_response_fixture(&words_after).is_err());
    let text_after = obj(vec![
        ("text", Value::Str(String::new())),
        ("w", arr(vec![])),
        ("more", Value::Str("0".to_string())),
    ]);
    assert!(spec.build_response_fixture(&text_after).is_err());
}
