use melsec_mc::device_registry::{BitMapEntryOwned, DeviceOverride, DeviceRegistry};
use melsec_mc::once::OnceSlot;
use melsec_mc::MelsecError;

fn records(text: &str) -> Vec<DeviceOverride> {
    let doc: toml::Table = text.parse().expect("toml");
    let texts = |t: &toml::Table, key: &str| {
        t.get(key).and_then(|v| v.as_str()).map(|s| s.to_string())
    };
    doc.get("device")
        .and_then(|v| v.as_array())
        .expect("device records")
        .iter()
        .map(|d| {
            let t = d.as_table().expect("device table");
            DeviceOverride {
                symbol: texts(t, "symbol").expect("symbol"),
                code: t.get("code").and_then(|v| v.as_integer()).expect("code") as u32,
                category: texts(t, "category").expect("category"),
                base: texts(t, "base"),
                description: texts(t, "description"),
                gui_name: texts(t, "gui_name"),
                compatible_series: t.get("compatible_series").and_then(|v| v.as_array()).map(
                    |items| items.iter().map(|s| s.as_str().expect("series").to_string()).collect(),
                ),
                bit_mapping: t.get("bit_mapping").and_then(|v| v.as_array()).map(|items| {
                    items
                        .iter()
                        .map(|e| {
                            let e = e.as_table().expect("bit map entry");
                            BitMapEntryOwned {
                                bit_index: e.get("bit_index").and_then(|v| v.as_integer()).unwrap()
                                    as u32,
                                byte_offset: e
                                    .get("byte_offset")
                                    .and_then(|v| v.as_integer())
                                    .map(|v| v as u32),
                                bit_pos: e.get("bit_pos").and_then(|v| v.as_integer()).unwrap()
                                    as u8,
                            }
                        })
                        .collect()
                }),
            }
        })
        .collect()
}

#[test]
fn device_registry_oncecell_set_behavior() {
    let toml1 = r#"
[[device]]
symbol = "X"
code = 0x90
category = "Bit"
"#;
    let reg1 = DeviceRegistry::from_records(records(toml1));

    let toml2 = r#"
[[device]]
symbol = "Y"
code = 0x91
category = "Bit"
"#;
    let reg2 = DeviceRegistry::from_records(records(toml2));

    let mut slot = OnceSlot::new();
    match reg1.register_overrides(&mut slot) {
        Ok(()) => {
            assert!(reg2.register_overrides(&mut slot).is_err());
        }
        Err(_) => {
            assert!(reg2.register_overrides(&mut slot).is_err());
        }
    }
    assert_eq!(
        DeviceRegistry::get_override_by_symbol(&slot, "X").map(|o| o.code),
        Some(0x90)
    );
    assert!(DeviceRegistry::get_override_by_symbol(&slot, "Y").is_none());
}

#[test]
fn override_lookup_finds_the_last_record() {
    let doc = r#"
[[device]]
symbol = "X"
code = 1
category = "Bit"

[[device]]
symbol = "X"
code = 2
category = "Word"
gui_name = "Input"
compatible_series = ["Q", "R"]
bit_mapping = [{ bit_index = 0, bit_pos = 7 }, { bit_index = 1, byte_offset = 3, bit_pos = 0 }]
"#;
    let slot_empty: OnceSlot<Vec<DeviceOverride>> = OnceSlot::new();
    assert!(DeviceRegistry::get_override_by_symbol(&slot_empty, "X").is_none());
    let mut slot = OnceSlot::new();
    let reg = DeviceRegistry::from_records(records(doc));
    reg.register_overrides(&mut slot).expect("register");
    let found = DeviceRegistry::get_override_by_symbol(&slot, "X").expect("X");
    assert_eq!(found, reg.devices[1]);
    assert_eq!(found.bit_mapping.as_ref().unwrap()[1].byte_offset, Some(3));
}

#[test]
fn validation_of_override_documents() {
    let ok = r#"
[[device]]
symbol = "X"
code = 0xFFFF
category = "DoubleWord"
gui_name = " Input "
compatible_series = ["Q"]
bit_mapping = [{ bit_index = 0, bit_pos = 7 }]

[[device]]
symbol = "x"
code = 0
category = "Bit"
"#;
    assert!(DeviceRegistry::validate(&records(ok)).is_ok());
    let invalid = |text: &str| DeviceRegistry::validate(&records(text)).is_err();
    assert!(invalid("[[device]]\nsymbol = \"  \"\ncode = 1\ncategory = \"Bit\"\n"));
    assert!(invalid("[[device]]\nsymbol = \"X\"\ncode = 0x10000\ncategory = \"Bit\"\n"));
    assert!(invalid("[[device]]\nsymbol = \"X\"\ncode = 1\ncategory = \"bit\"\n"));
    assert!(invalid(
        "[[device]]\nsymbol = \"X\"\ncode = 1\ncategory = \"Bit\"\ngui_name = \"\"\n"
    ));
    assert!(invalid(
        "[[device]]\nsymbol = \"X\"\ncode = 1\ncategory = \"Bit\"\ncompatible_series = [\"L\"]\n"
    ));
    assert!(invalid(
        "[[device]]\nsymbol = \"X\"\ncode = 1\ncategory = \"Bit\"\nbit_mapping = [{ bit_index = 0, bit_pos = 8 }]\n"
    ));
    assert!(invalid(
        "[[device]]\nsymbol = \"X\"\ncode = 1\ncategory = \"Bit\"\n[[device]]\nsymbol = \"X\"\ncode = 2\ncategory = \"Bit\"\n"
    ));
    assert!(DeviceRegistry::validate(&Vec::new()).is_ok());
}

#[test]
fn second_registration_of_overrides_is_refused() {
    let first = r#"
[[device]]
symbol = "X"
code = 0x9C
category = "Bit"
"#;
    let second = r#"
[[device]]
symbol = "Y"
code = 0x9D
category = "Bit"
"#;
    let reg1 = DeviceRegistry::from_records(records(first));
    let reg2 = DeviceRegistry::from_records(records(second));
    let mut slot = OnceSlot::new();
    assert_eq!(reg1.register_overrides(&mut slot), Ok(()));
    assert_eq!(reg2.register_overrides(&mut slot), Err(MelsecError::AlreadyRegistered));
    assert!(DeviceRegistry::get_override_by_symbol(&slot, "X").is_some());
    assert!(DeviceRegistry::get_override_by_symbol(&slot, "Y").is_none());
}
