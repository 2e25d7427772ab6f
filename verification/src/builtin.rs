//! The command specs and end codes that the library knows without a
//! document.

use vstd::prelude::*;
use vstd::string::*;
use crate::command_registry::{
    BlockTemplate, BlockTemplateView, CommandRegistry, CommandSpec, CommandSpecView, DeviceFamily,
    FieldKind, FieldSpec, FieldSpecView, NameField, NameView, ResponseEntry, ResponseEntryView,
    SubcommandSpec, SubcommandView,
};
use crate::commands::Command;
use crate::error::MelsecError;
use crate::error_codes::{
    merged, ErrorCatalog, ErrorCategory, ErrorEntryOwned, ErrorEntryView, ErrorRegistry,
};
use crate::once::OnceSlot;
use crate::request_builder::device_admitted;
use crate::value::Json;
use crate::text::owned;

verus! {

/// An integer field.
pub open spec fn spec_fixed(name: Seq<char>, n: usize, le: bool) -> FieldSpecView {
    FieldSpecView { name, kind: FieldKind::FixedBytes { n, le } }
}

/// The fields that every command begins with: the command and the
/// subcommand.
pub open spec fn spec_command_fields() -> Seq<FieldSpecView> {
    seq![spec_fixed("command"@, 2, false), spec_fixed("subcommand"@, 2, false)]
}

/// The fields that address a range of a device: start address, device
/// code and count.
pub open spec fn spec_range_fields() -> Seq<FieldSpecView> {
    seq![
        spec_fixed("start_addr"@, 3, true),
        spec_fixed("device_code"@, 1, true),
        spec_fixed("count"@, 2, true),
    ]
}

/// The subcommand of a range command: `on_q` on series Q and `on_r` on
/// series R.
pub open spec fn spec_per_series(on_q: u16, on_r: u16) -> Option<SubcommandView> {
    Some(SubcommandView::PerSeries(seq![("Q"@, on_q), ("R"@, on_r)]))
}

/// The built-in spec of a command that works on a range of a device.
pub open spec fn spec_range_command(
    id: Command,
    en: Seq<char>,
    command_code: u16,
    on_q: u16,
    on_r: u16,
    device_family: DeviceFamily,
    data: Seq<FieldSpecView>,
    response_format: Seq<char>,
    response: ResponseEntryView,
) -> CommandSpecView {
    CommandSpecView {
        id,
        name: Some(NameView { jp: None, en: Some(en) }),
        command_code,
        subcommand: spec_per_series(on_q, on_r),
        device_family,
        request_fields: spec_command_fields() + spec_range_fields() + data,
        response_format: seq![response_format],
        response_entries: seq![response],
        block_templates: Seq::empty(),
        limits: None,
    }
}

/// The built-in command specs: reading and writing words and bits, and
/// the echo.
pub open spec fn spec_builtin_commands() -> Seq<CommandSpecView> {
    seq![
        spec_range_command(
            Command::ReadWords,
            "ReadWords"@,
            0x0401,
            0x0000,
            0x0002,
            DeviceFamily::Any,
            Seq::empty(),
            "data_blocks:blocks_words_le"@,
            ResponseEntryView::BlockWords { name: "data_blocks"@, le: true },
        ),
        spec_range_command(
            Command::WriteWords,
            "WriteWords"@,
            0x1401,
            0x0000,
            0x0002,
            DeviceFamily::Any,
            seq![FieldSpecView { name: "data"@, kind: FieldKind::Words { le: true } }],
            "data_blocks:blocks_words_le"@,
            ResponseEntryView::BlockWords { name: "data_blocks"@, le: true },
        ),
        spec_range_command(
            Command::ReadBits,
            "ReadBits"@,
            0x0401,
            0x0001,
            0x0003,
            DeviceFamily::Bit,
            Seq::empty(),
            "data_blocks:blocks_nibbles:high"@,
            ResponseEntryView::BlockNibbles { name: "data_blocks"@, high_first: true },
        ),
        spec_range_command(
            Command::WriteBits,
            "WriteBits"@,
            0x1401,
            0x0001,
            0x0003,
            DeviceFamily::Bit,
            seq![FieldSpecView { name: "payload"@, kind: FieldKind::Bytes }],
            "data_blocks:blocks_bits_packed"@,
            ResponseEntryView::BlockBitsPacked { name: "data_blocks"@, lsb_first: true },
        ),
        CommandSpecView {
            id: Command::Echo,
            name: Some(NameView { jp: None, en: Some("Echo"@) }),
            command_code: 0x0619,
            subcommand: Some(SubcommandView::Single(0)),
            device_family: DeviceFamily::Any,
            request_fields: spec_command_fields() + seq![
                FieldSpecView { name: "payload"@, kind: FieldKind::AsciiHex },
            ],
            response_format: seq!["payload:ascii_hex"@],
            response_entries: seq![ResponseEntryView::AsciiHex { name: "payload"@ }],
            block_templates: Seq::empty(),
            limits: None,
        },
    ]
}

fn fixed(name: &str, n: usize, le: bool) -> (r: FieldSpec)
    ensures
        r@ == spec_fixed(name@, n, le),
{
    FieldSpec { name: owned(name), kind: FieldKind::FixedBytes { n, le } }
}

fn english(en: &str) -> (r: Option<NameField>)
    ensures
        r.deep_view() == Some(NameView { jp: None, en: Some(en@) }),
{
    Some(NameField { jp: None, en: Some(owned(en)) })
}

fn command_fields(out: &mut Vec<FieldSpec>)
    ensures
        final(out).deep_view() == old(out).deep_view() + spec_command_fields(),
{
    out.push(fixed("command", 2, false));
    out.push(fixed("subcommand", 2, false));
    assert(out.deep_view() =~= old(out).deep_view() + spec_command_fields());
}

fn range_fields(out: &mut Vec<FieldSpec>)
    ensures
        final(out).deep_view() == old(out).deep_view() + spec_range_fields(),
{
    out.push(fixed("start_addr", 3, true));
    out.push(fixed("device_code", 1, true));
    out.push(fixed("count", 2, true));
    assert(out.deep_view() =~= old(out).deep_view() + spec_range_fields());
}

fn per_series(on_q: u16, on_r: u16) -> (r: Option<SubcommandSpec>)
    ensures
        r.deep_view() == spec_per_series(on_q, on_r),
{
    let mut table: Vec<(String, u16)> = Vec::new();
    table.push((owned("Q"), on_q));
    table.push((owned("R"), on_r));
    assert(table.deep_view() =~= seq![("Q"@, on_q), ("R"@, on_r)]);
    Some(SubcommandSpec::PerSeries(table))
}

fn range_command(
    id: Command,
    en: &str,
    command_code: u16,
    on_q: u16,
    on_r: u16,
    device_family: DeviceFamily,
    data: Option<FieldSpec>,
    response_format: &str,
    response: ResponseEntry,
) -> (r: CommandSpec)
    ensures
        r@ == spec_range_command(
            id,
            en@,
            command_code,
            on_q,
            on_r,
            device_family,
            match data {
                Some(f) => seq![f@],
                None => Seq::empty(),
            },
            response_format@,
            response@,
        ),
{
    let mut fields: Vec<FieldSpec> = Vec::new();
    assert(fields.deep_view() =~= Seq::<FieldSpecView>::empty());
    command_fields(&mut fields);
    range_fields(&mut fields);
    let ghost head = fields.deep_view();
    let ghost tail: Seq<FieldSpecView> = match &data {
        Some(f) => seq![f@],
        None => Seq::empty(),
    };
    match data {
        Some(f) => {
            fields.push(f);
        },
        None => {},
    }
    assert(fields.deep_view() =~= spec_command_fields() + spec_range_fields() + tail);
    let mut formats: Vec<String> = Vec::new();
    formats.push(owned(response_format));
    assert(formats.deep_view() =~= seq![response_format@]);
    let ghost rv = response@;
    let mut entries: Vec<ResponseEntry> = Vec::new();
    entries.push(response);
    assert(entries.deep_view() =~= seq![rv]);
    let blocks: Vec<BlockTemplate> = Vec::new();
    assert(blocks.deep_view() =~= Seq::<BlockTemplateView>::empty());
    CommandSpec {
        id,
        name: english(en),
        command_code,
        subcommand: per_series(on_q, on_r),
        device_family,
        request_fields: fields,
        response_format: formats,
        response_entries: entries,
        block_templates: blocks,
        limits: None,
    }
}

fn echo_command() -> (r: CommandSpec)
    ensures
        r@ == spec_builtin_commands()[4],
{
    let mut fields: Vec<FieldSpec> = Vec::new();
    assert(fields.deep_view() =~= Seq::<FieldSpecView>::empty());
    command_fields(&mut fields);
    fields.push(FieldSpec { name: owned("payload"), kind: FieldKind::AsciiHex });
    assert(fields.deep_view() =~= spec_command_fields() + seq![
        FieldSpecView { name: "payload"@, kind: FieldKind::AsciiHex },
    ]);
    let mut formats: Vec<String> = Vec::new();
    formats.push(owned("payload:ascii_hex"));
    assert(formats.deep_view() =~= seq!["payload:ascii_hex"@]);
    let mut entries: Vec<ResponseEntry> = Vec::new();
    entries.push(ResponseEntry::AsciiHex { name: owned("payload") });
    assert(entries.deep_view() =~= seq![ResponseEntryView::AsciiHex { name: "payload"@ }]);
    let blocks: Vec<BlockTemplate> = Vec::new();
    assert(blocks.deep_view() =~= Seq::<BlockTemplateView>::empty());
    CommandSpec {
        id: Command::Echo,
        name: english("Echo"),
        command_code: 0x0619,
        subcommand: Some(SubcommandSpec::Single(0)),
        device_family: DeviceFamily::Any,
        request_fields: fields,
        response_format: formats,
        response_entries: entries,
        block_templates: blocks,
        limits: None,
    }
}

/// The built-in end codes: the one that reports success.
pub open spec fn spec_builtin_codes() -> Seq<ErrorEntryView> {
    seq![
        ErrorEntryView {
            code: 0x0000,
            name: Some("OK"@),
            description: Some("Completed normally"@),
            category: Some(ErrorCategory::Success),
        },
    ]
}

impl ErrorRegistry {
    /// The registry of the built-in end codes.
    pub fn builtin() -> (r: ErrorRegistry)
        ensures
            r.codes.deep_view() == spec_builtin_codes(),
    {
        let mut codes: Vec<ErrorEntryOwned> = Vec::new();
        codes.push(
            ErrorEntryOwned {
                code: 0x0000,
                name: Some(owned("OK")),
                description: Some(owned("Completed normally")),
                category: Some(ErrorCategory::Success),
            },
        );
        assert(codes.deep_view() =~= spec_builtin_codes());
        ErrorRegistry::from_entries(codes)
    }
}

impl CommandRegistry {
    /// The registry of the built-in command specs.
    pub fn builtin() -> (r: CommandRegistry)
        ensures
            r@ == spec_builtin_commands(),
    {
        let mut specs: Vec<CommandSpec> = Vec::new();
        specs.push(
            range_command(
                Command::ReadWords,
                "ReadWords",
                0x0401,
                0x0000,
                0x0002,
                DeviceFamily::Any,
                None,
                "data_blocks:blocks_words_le",
                ResponseEntry::BlockWords { name: owned("data_blocks"), le: true },
            ),
        );
        specs.push(
            range_command(
                Command::WriteWords,
                "WriteWords",
                0x1401,
                0x0000,
                0x0002,
                DeviceFamily::Any,
                Some(FieldSpec { name: owned("data"), kind: FieldKind::Words { le: true } }),
                "data_blocks:blocks_words_le",
                ResponseEntry::BlockWords { name: owned("data_blocks"), le: true },
            ),
        );
        specs.push(
            range_command(
                Command::ReadBits,
                "ReadBits",
                0x0401,
                0x0001,
                0x0003,
                DeviceFamily::Bit,
                None,
                "data_blocks:blocks_nibbles:high",
                ResponseEntry::BlockNibbles { name: owned("data_blocks"), high_first: true },
            ),
        );
        specs.push(
            range_command(
                Command::WriteBits,
                "WriteBits",
                0x1401,
                0x0001,
                0x0003,
                DeviceFamily::Bit,
                Some(FieldSpec { name: owned("payload"), kind: FieldKind::Bytes }),
                "data_blocks:blocks_bits_packed",
                ResponseEntry::BlockBitsPacked { name: owned("data_blocks"), lsb_first: true },
            ),
        );
        specs.push(echo_command());
        assert(specs.deep_view() =~= spec_builtin_commands());
        match CommandRegistry::from_specs(specs) {
            Ok(r) => r,
            Err(_) => vstd::pervasive::unreached(),
        }
    }

    /// Sets the built-in command specs as the process-wide registry.
    /// Fails, and leaves the slot as it is, where it is set already.
    pub fn load_and_set_global_from_src(slot: &mut OnceSlot<CommandRegistry>) -> (r: Result<
        (),
        MelsecError,
    >)
        ensures
            match old(slot).held() {
                None => r is Ok && final(slot).held() is Some && final(slot).held()->0@
                    == spec_builtin_commands(),
                Some(_) => r == Err::<(), MelsecError>(MelsecError::AlreadyRegistered)
                    && final(slot).held() == old(slot).held(),
            },
    {
        CommandRegistry::builtin().set_global(slot)
    }
}

/// Sets up the process-wide registries with what the library knows
/// without a document: the built-in command specs, unless command specs
/// are set already, and the built-in end codes, added to those that are
/// registered already.
pub fn init_defaults(commands: &mut OnceSlot<CommandRegistry>, errors: &mut ErrorCatalog) -> (r:
    Result<(), MelsecError>)
    ensures
        r is Ok,
        match old(commands).held() {
            None => final(commands).held() is Some && final(commands).held()->0@
                == spec_builtin_commands(),
            Some(_) => final(commands).held() == old(commands).held(),
        },
        final(errors)@ == Some(
            merged(
                match old(errors)@ {
                    Some(es) => es,
                    None => Map::empty(),
                },
                spec_builtin_codes(),
            ),
        ),
{
    match CommandRegistry::load_and_set_global_from_src(commands) {
        Ok(()) => {},
        Err(MelsecError::AlreadyRegistered) => {},
        Err(e) => {
            return Err(e);
        },
    }
    ErrorRegistry::builtin().register_or_merge(errors)
}

/// The built-in commands that read and write words admit every device
/// whose code fits one byte, a bit device as well as a word device: bits
/// can be addressed as words.
pub proof fn lemma_word_commands_admit_bit_devices(
    c: CommandSpecView,
    p: Json,
    devices: Seq<crate::device::DeviceView>,
    code: u8,
)
    requires
        spec_builtin_commands().contains(c),
        c.id == Command::ReadWords || c.id == Command::WriteWords,
        p.get("device_code"@) == Some(Json::UInt(code as u64)),
    ensures
        device_admitted(p, devices, c.device_family),
{
    let all = spec_builtin_commands();
    let k = choose|k: int| 0 <= k < all.len() && all[k] == c;
    assert(k == 0 || k == 1);
}

} // verus!
