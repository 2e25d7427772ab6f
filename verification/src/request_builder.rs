//! The request builder: from a command spec and a parameter bundle to the
//! bytes of the request body.

use vstd::prelude::*;
use vstd::string::*;
use crate::command_registry::{
    BlockTemplate, BlockTemplateView, CommandSpec, CommandSpecView, DeviceFamily, FieldKind,
    FieldSpec, FieldSpecView, spec_request_subcommand,
};
use crate::device::{device_by_code, index_of_code, DeviceCatalog, DeviceType, DeviceView};
use crate::error::MelsecError;
use crate::mc_define::{high_byte, low_byte};
use crate::plc_series::PLCSeries;
use crate::text::{append_bytes, str_eq};
use crate::value::{views, Json, Value};

verus! {

/// True if a command or block of the family may address a device of the
/// category.
pub open spec fn family_admits(family: DeviceFamily, category: DeviceType) -> bool {
    match family {
        DeviceFamily::Any => true,
        DeviceFamily::Bit => category == DeviceType::Bit,
        DeviceFamily::Word => category == DeviceType::Word || category == DeviceType::DoubleWord,
        DeviceFamily::DoubleWord => category == DeviceType::DoubleWord,
    }
}

/// True if a device code may stand in a request of the family: it fits one
/// byte, and the device that the catalog has for it, if any, is of a
/// category that the family admits.
pub open spec fn code_admitted(devices: Seq<DeviceView>, code: u64, family: DeviceFamily) -> bool {
    code <= 0xFF && match index_of_code(devices, code as u8) {
        Some(i) => family_admits(family, devices[i].category),
        None => true,
    }
}

/// True if the device code of a bundle or block entry, where it names one,
/// is admitted.
pub open spec fn device_admitted(holder: Json, devices: Seq<DeviceView>, family: DeviceFamily) -> bool {
    match holder.get("device_code"@) {
        Some(Json::UInt(code)) => code_admitted(devices, code, family),
        _ => true,
    }
}

/// The name under which a bundle holds the entries of a block template.
pub open spec fn plural(name: Seq<char>) -> Seq<char> {
    name + "s"@
}

/// The entries that a bundle holds for a block template, if it holds an
/// array under the pluralized name.
pub open spec fn block_entries(p: Json, block: BlockTemplateView) -> Option<Seq<Json>> {
    match p.get(plural(block.name)) {
        Some(Json::Array(entries)) => Some(entries),
        _ => None,
    }
}

/// The family that holds for a block: its own, where it declares one, else
/// that of the command.
pub open spec fn block_family(c: CommandSpecView, block: BlockTemplateView) -> DeviceFamily {
    match block.device_family {
        Some(f) => f,
        None => c.device_family,
    }
}

/// True if every entry that the bundle holds for the block names an
/// admitted device.
pub open spec fn block_admitted(
    c: CommandSpecView,
    block: BlockTemplateView,
    p: Json,
    devices: Seq<DeviceView>,
) -> bool {
    match block_entries(p, block) {
        Some(entries) => forall|k: int|
            0 <= k < entries.len() ==> device_admitted(
                #[trigger] entries[k],
                devices,
                block_family(c, block),
            ),
        None => true,
    }
}

/// True if the bundle names only admitted devices, at the top level and in
/// the entries of every block.
pub open spec fn families_admitted(c: CommandSpecView, p: Json, devices: Seq<DeviceView>) -> bool {
    &&& device_admitted(p, devices, c.device_family)
    &&& forall|i: int|
        0 <= i < c.block_templates.len() ==> block_admitted(
            c,
            #[trigger] c.block_templates[i],
            p,
            devices,
        )
}

/// The points that a block entry asks for of devices of the category: its
/// count, where it names a device of the catalog that is of the category.
pub open spec fn entry_points(entry: Json, category: DeviceType, devices: Seq<DeviceView>) -> nat {
    match (entry.get("device_code"@), entry.get("count"@)) {
        (Some(Json::UInt(code)), Some(Json::UInt(count))) => if code <= 0xFF {
            match index_of_code(devices, code as u8) {
                Some(i) => if devices[i].category == category {
                    count as nat
                } else {
                    0
                },
                None => 0,
            }
        } else {
            0
        },
        _ => 0,
    }
}

/// The points that a list of block entries asks for.
pub open spec fn entries_points(entries: Seq<Json>, category: DeviceType, devices: Seq<DeviceView>) -> nat
    decreases entries.len(),
{
    if entries.len() == 0 {
        0
    } else {
        entries_points(entries.drop_last(), category, devices) + entry_points(
            entries.last(),
            category,
            devices,
        )
    }
}

/// The points that the bundle asks for over all blocks.
pub open spec fn total_points(
    blocks: Seq<BlockTemplateView>,
    p: Json,
    category: DeviceType,
    devices: Seq<DeviceView>,
) -> nat
    decreases blocks.len(),
{
    if blocks.len() == 0 {
        0
    } else {
        total_points(blocks.drop_last(), p, category, devices) + (match block_entries(
            p,
            blocks.last(),
        ) {
            Some(entries) => entries_points(entries, category, devices),
            None => 0,
        })
    }
}

/// True if a total does not exceed its cap.
pub open spec fn within(cap: Option<u64>, total: nat) -> bool {
    match cap {
        Some(c) => total <= c,
        None => true,
    }
}

/// True if the points that the bundle asks for exceed no declared cap.
pub open spec fn within_limits(c: CommandSpecView, p: Json, devices: Seq<DeviceView>) -> bool {
    match c.limits {
        None => true,
        Some(l) => {
            &&& within(l.word_points, total_points(c.block_templates, p, DeviceType::Word, devices))
            &&& within(
                l.dword_points,
                total_points(c.block_templates, p, DeviceType::DoubleWord, devices),
            )
            &&& within(l.bit_points, total_points(c.block_templates, p, DeviceType::Bit, devices))
        },
    }
}

/// The `n` least significant bytes of `v`, least significant first.
pub open spec fn le_bytes(v: nat, n: nat) -> Seq<u8>
    decreases n,
{
    if n == 0 {
        Seq::empty()
    } else {
        seq![(v % 256) as u8] + le_bytes(v / 256, (n - 1) as nat)
    }
}

/// True if `v` has no more than `n` bytes.
pub open spec fn fits(v: nat, n: nat) -> bool
    decreases n,
{
    if n == 0 {
        v == 0
    } else {
        fits(v / 256, (n - 1) as nat)
    }
}

/// The `n` least significant bytes of `v` in the given byte order.
pub open spec fn int_bytes(v: nat, n: nat, le: bool) -> Seq<u8> {
    if le {
        le_bytes(v, n)
    } else {
        le_bytes(v, n).reverse()
    }
}

/// The bytes of an integer field, where the value fits the width.
pub open spec fn encode_fixed(v: u64, layout: (nat, bool)) -> Option<Seq<u8>> {
    if fits(v as nat, layout.0) {
        Some(int_bytes(v as nat, layout.0, layout.1))
    } else {
        None
    }
}

/// The width and byte order in which an integer field is written. At the
/// top level, `command` and `subcommand` take two bytes, low byte first. A
/// `device_code` takes one byte, and two low byte first on series R. A
/// `start_addr` takes three bytes low byte first on series Q and four on
/// series R. Any other field, and a `start_addr` where no series is
/// given, is written as declared.
pub open spec fn layout(
    name: Seq<char>,
    n: usize,
    le: bool,
    series: Option<PLCSeries>,
    top_level: bool,
) -> (nat, bool) {
    if top_level && (name == "command"@ || name == "subcommand"@) {
        (2nat, true)
    } else if name == "device_code"@ {
        if series == Some(PLCSeries::R) {
            (2nat, true)
        } else {
            (1nat, true)
        }
    } else if name == "start_addr"@ && series == Some(PLCSeries::R) {
        (4nat, true)
    } else if name == "start_addr"@ && series == Some(PLCSeries::Q) {
        (3nat, true)
    } else {
        (n as nat, le)
    }
}

/// The number of entries that the bundle holds under `key`.
pub open spec fn entries_len(p: Json, key: Seq<char>) -> nat {
    match p.get(key) {
        Some(Json::Array(entries)) => entries.len(),
        _ => 0,
    }
}

/// The value of an integer field at the top level: the command code, the
/// resolved subcommand, the number of word or bit blocks, or the integer
/// that the bundle holds under the name.
pub open spec fn spec_num_field(
    c: CommandSpecView,
    name: Seq<char>,
    p: Json,
    series: Option<PLCSeries>,
) -> Option<nat> {
    if name == "command"@ {
        Some(c.command_code as nat)
    } else if name == "subcommand"@ {
        Some(spec_request_subcommand(c.subcommand, series) as nat)
    } else if name == "word_block_count"@ {
        Some(entries_len(p, "word_blocks"@))
    } else if name == "bit_block_count"@ {
        Some(entries_len(p, "bit_blocks"@))
    } else {
        match p.get(name) {
            Some(Json::UInt(v)) => Some(v as nat),
            Some(Json::Int(v)) => if v >= 0 {
                Some(v as nat)
            } else {
                None
            },
            _ => None,
        }
    }
}

/// The two bytes of a word in the given byte order.
pub open spec fn word_bytes(w: u16, le: bool) -> Seq<u8> {
    if le {
        seq![(w % 256) as u8, (w / 256) as u8]
    } else {
        seq![(w / 256) as u8, (w % 256) as u8]
    }
}

/// The bytes of a list of words, or `None` where an item is no integer of
/// 16 bits.
pub open spec fn encode_words(items: Seq<Json>, le: bool) -> Option<Seq<u8>>
    decreases items.len(),
{
    if items.len() == 0 {
        Some(Seq::empty())
    } else {
        match (encode_words(items.drop_last(), le), items.last()) {
            (Some(done), Json::UInt(w)) => if w <= 0xFFFF {
                Some(done + word_bytes(w as u16, le))
            } else {
                None
            },
            _ => None,
        }
    }
}

/// The bytes that a list of items names, or `None` where an item is no
/// integer of 8 bits.
pub open spec fn encode_byte_items(items: Seq<Json>) -> Option<Seq<u8>>
    decreases items.len(),
{
    if items.len() == 0 {
        Some(Seq::empty())
    } else {
        match (encode_byte_items(items.drop_last()), items.last()) {
            (Some(done), Json::UInt(b)) => if b <= 0xFF {
                Some(done.push(b as u8))
            } else {
                None
            },
            _ => None,
        }
    }
}

/// True for the bytes of `0-9`, `A-F` and `a-f`.
pub open spec fn is_hex(b: u8) -> bool {
    (0x30 <= b <= 0x39) || (0x41 <= b <= 0x46) || (0x61 <= b <= 0x66)
}

/// True if every byte is one of `0-9A-Fa-f`.
pub open spec fn all_hex(bytes: Seq<u8>) -> bool {
    forall|k: int| 0 <= k < bytes.len() ==> is_hex(#[trigger] bytes[k])
}

/// The bytes of one field at the top level, or `None` where the bundle
/// does not give what the field asks for.
pub open spec fn encode_field(
    c: CommandSpecView,
    f: FieldSpecView,
    p: Json,
    series: Option<PLCSeries>,
) -> Option<Seq<u8>> {
    match f.kind {
        FieldKind::FixedBytes { n, le } => match spec_num_field(c, f.name, p, series) {
            Some(v) => if v <= u64::MAX {
                encode_fixed(v as u64, layout(f.name, n, le, series, true))
            } else {
                None
            },
            None => None,
        },
        FieldKind::Words { le } => match p.get(f.name) {
            Some(Json::Array(items)) => encode_words(items, le),
            _ => None,
        },
        FieldKind::Bytes => match p.get(f.name) {
            Some(Json::Array(items)) => encode_byte_items(items),
            Some(Json::Str(s)) => Some(vstd::utf8::encode_utf8(s)),
            _ => Some(Seq::empty()),
        },
        FieldKind::AsciiHex => match p.get(f.name) {
            Some(Json::Str(s)) => if all_hex(vstd::utf8::encode_utf8(s)) {
                Some(vstd::utf8::encode_utf8(s))
            } else {
                None
            },
            Some(Json::Array(items)) => encode_byte_items(items),
            _ => Some(Seq::empty()),
        },
    }
}

/// The bytes of the fields at the top level, in order.
pub open spec fn encode_fields(
    c: CommandSpecView,
    fields: Seq<FieldSpecView>,
    p: Json,
    series: Option<PLCSeries>,
) -> Option<Seq<u8>>
    decreases fields.len(),
{
    if fields.len() == 0 {
        Some(Seq::empty())
    } else {
        match (encode_fields(c, fields.drop_last(), p, series), encode_field(
            c,
            fields.last(),
            p,
            series,
        )) {
            (Some(done), Some(bytes)) => Some(done + bytes),
            _ => None,
        }
    }
}

/// The bytes of one field of a block entry. An integer field takes the
/// integer under its name. A words field takes the array under its name,
/// or a single integer of 16 bits. Byte and text fields write nothing.
pub open spec fn encode_block_field(f: FieldSpecView, entry: Json, series: Option<PLCSeries>) -> Option<
    Seq<u8>,
> {
    match f.kind {
        FieldKind::FixedBytes { n, le } => match entry.get(f.name) {
            Some(Json::UInt(v)) => encode_fixed(v, layout(f.name, n, le, series, false)),
            _ => None,
        },
        FieldKind::Words { le } => match entry.get(f.name) {
            Some(Json::Array(items)) => encode_words(items, le),
            Some(Json::UInt(w)) => if w <= 0xFFFF {
                Some(word_bytes(w as u16, le))
            } else {
                None
            },
            _ => None,
        },
        FieldKind::Bytes => Some(Seq::empty()),
        FieldKind::AsciiHex => Some(Seq::empty()),
    }
}

/// The bytes of the fields of a block entry, in order.
pub open spec fn encode_block_fields(
    fields: Seq<FieldSpecView>,
    entry: Json,
    series: Option<PLCSeries>,
) -> Option<Seq<u8>>
    decreases fields.len(),
{
    if fields.len() == 0 {
        Some(Seq::empty())
    } else {
        match (encode_block_fields(fields.drop_last(), entry, series), encode_block_field(
            fields.last(),
            entry,
            series,
        )) {
            (Some(done), Some(bytes)) => Some(done + bytes),
            _ => None,
        }
    }
}

/// The bytes of a list of block entries, each of which must be an object.
pub open spec fn encode_entries(
    fields: Seq<FieldSpecView>,
    entries: Seq<Json>,
    series: Option<PLCSeries>,
) -> Option<Seq<u8>>
    decreases entries.len(),
{
    if entries.len() == 0 {
        Some(Seq::empty())
    } else {
        match (encode_entries(fields, entries.drop_last(), series), encode_block_fields(
            fields,
            entries.last(),
            series,
        )) {
            (Some(done), Some(bytes)) => if entries.last() is Object {
                Some(done + bytes)
            } else {
                None
            },
            _ => None,
        }
    }
}

/// The bytes of the blocks, in the order of the templates. The bundle must
/// hold an array for each template.
pub open spec fn encode_blocks(blocks: Seq<BlockTemplateView>, p: Json, series: Option<PLCSeries>) -> Option<
    Seq<u8>,
>
    decreases blocks.len(),
{
    if blocks.len() == 0 {
        Some(Seq::empty())
    } else {
        match (encode_blocks(blocks.drop_last(), p, series), block_entries(p, blocks.last())) {
            (Some(done), Some(entries)) => match encode_entries(
                blocks.last().fields,
                entries,
                series,
            ) {
                Some(bytes) => Some(done + bytes),
                None => None,
            },
            _ => None,
        }
    }
}

/// The body of the request that a bundle stands for under a command spec:
/// the fields at the top level, then the blocks. `None` where the bundle
/// names a device that the family does not admit, asks for more points
/// than a cap allows, or does not give what a field asks for.
pub open spec fn spec_build_request(
    c: CommandSpecView,
    p: Json,
    series: Option<PLCSeries>,
    devices: Seq<DeviceView>,
) -> Option<Seq<u8>> {
    if families_admitted(c, p, devices) && within_limits(c, p, devices) {
        match (encode_fields(c, c.request_fields, p, series), encode_blocks(
            c.block_templates,
            p,
            series,
        )) {
            (Some(head), Some(blocks)) => Some(head + blocks),
            _ => None,
        }
    } else {
        None
    }
}

proof fn lemma_fits_zero(n: nat)
    ensures
        fits(0, n),
    decreases n,
{
    if n > 0 {
        lemma_fits_zero((n - 1) as nat);
    }
}

/// True if `v` has no more than `n` bytes.
pub fn fits_width(v: u64, n: usize) -> (r: bool)
    ensures
        r == fits(v as nat, n as nat),
{
    let mut cur = v;
    let mut k: usize = 0;
    while k < n && cur != 0
        invariant
            k <= n,
            fits(v as nat, n as nat) == fits(cur as nat, (n - k) as nat),
        decreases n - k,
    {
        cur = cur / 256;
        k = k + 1;
    }
    proof {
        if cur == 0 {
            lemma_fits_zero((n - k) as nat);
        }
    }
    cur == 0
}

/// Appends the `n` least significant bytes of `v` in the given byte order.
pub fn write_n_bytes(out: &mut Vec<u8>, n: usize, v: u64, le: bool)
    ensures
        final(out)@ == old(out)@ + int_bytes(v as nat, n as nat, le),
{
    let mut tmp: Vec<u8> = Vec::new();
    let mut cur = v;
    let mut k: usize = 0;
    assert(tmp@ + le_bytes(cur as nat, n as nat) =~= le_bytes(v as nat, n as nat));
    while k < n
        invariant
            k <= n,
            tmp.len() == k,
            tmp@ + le_bytes(cur as nat, (n - k) as nat) == le_bytes(v as nat, n as nat),
        decreases n - k,
    {
        let ghost rest = le_bytes((cur / 256) as nat, (n - k - 1) as nat);
        assert(tmp@.push((cur % 256) as u8) + rest =~= tmp@ + (seq![(cur % 256) as u8] + rest));
        tmp.push((cur % 256) as u8);
        cur = cur / 256;
        k = k + 1;
    }
    assert(tmp@ =~= le_bytes(v as nat, n as nat));
    if le {
        append_bytes(out, tmp.as_slice());
    } else {
        let ghost rev = tmp@.reverse();
        let mut i: usize = 0;
        while i < n
            invariant
                i <= n,
                tmp.len() == n,
                rev == tmp@.reverse(),
                out@ == old(out)@ + rev.take(i as int),
            decreases n - i,
        {
            out.push(tmp[n - 1 - i]);
            assert(out@ =~= old(out)@ + rev.take(i + 1));
            i = i + 1;
        }
        assert(rev.take(n as int) =~= rev);
    }
}

/// The width and byte order in which an integer field is written.
pub fn effective_layout(
    name: &str,
    n: usize,
    le: bool,
    series: Option<PLCSeries>,
    top_level: bool,
) -> (r: (usize, bool))
    ensures
        (r.0 as nat, r.1) == layout(name@, n, le, series, top_level),
{
    let on_r = match series {
        Some(PLCSeries::R) => true,
        _ => false,
    };
    let on_q = match series {
        Some(PLCSeries::Q) => true,
        _ => false,
    };
    if top_level && (str_eq(name, "command") || str_eq(name, "subcommand")) {
        (2, true)
    } else if str_eq(name, "device_code") {
        if on_r {
            (2, true)
        } else {
            (1, true)
        }
    } else if str_eq(name, "start_addr") && on_r {
        (4, true)
    } else if str_eq(name, "start_addr") && on_q {
        (3, true)
    } else {
        (n, le)
    }
}

/// True if a command or block of the family may address a device of the
/// category.
pub fn admits(family: DeviceFamily, category: DeviceType) -> (r: bool)
    ensures
        r == family_admits(family, category),
{
    match family {
        DeviceFamily::Any => true,
        DeviceFamily::Bit => category == DeviceType::Bit,
        DeviceFamily::Word => category == DeviceType::Word || category == DeviceType::DoubleWord,
        DeviceFamily::DoubleWord => category == DeviceType::DoubleWord,
    }
}

impl CommandSpec {
    /// Checks a device code against a family: the code must fit one byte,
    /// and the device that the catalog has for it, if any, must be of a
    /// category that the family admits.
    pub fn validate_code_for_family(
        &self,
        code_num: u64,
        family: DeviceFamily,
        catalog: &DeviceCatalog,
    ) -> (r: Result<(), MelsecError>)
        ensures
            r is Ok <==> code_admitted(catalog@, code_num, family),
            r is Err ==> r->Err_0 is Protocol,
    {
        if code_num > 0xFF {
            return Err(MelsecError::protocol("device code out of range"));
        }
        match device_by_code(catalog, code_num as u8) {
            Some(dev) => {
                if admits(family, dev.category) {
                    Ok(())
                } else {
                    Err(MelsecError::protocol("device category does not match the command"))
                }
            },
            None => Ok(()),
        }
    }

    /// Checks the device code that a bundle or a block entry names, if it
    /// names one.
    fn check_device(&self, holder: &Value, family: DeviceFamily, catalog: &DeviceCatalog) -> (r:
        Result<(), MelsecError>)
        ensures
            r is Ok <==> device_admitted(holder@, catalog@, family),
            r is Err ==> r->Err_0 is Protocol,
    {
        match holder.get("device_code") {
            Some(v) => match v.as_u64() {
                Some(code) => self.validate_code_for_family(code, family, catalog),
                None => Ok(()),
            },
            None => Ok(()),
        }
    }

    /// The value of an integer field at the top level.
    pub fn get_num_field(&self, name: &str, params: &Value, plc_series: Option<PLCSeries>) -> (r:
        Result<u64, MelsecError>)
        ensures
            match spec_num_field(self@, name@, params@, plc_series) {
                Some(v) => r is Ok && r->Ok_0 == v,
                None => r is Err && r->Err_0 is Protocol,
            },
    {
        if str_eq(name, "command") {
            return Ok(self.command_code as u64);
        }
        if str_eq(name, "subcommand") {
            return Ok(self.request_subcommand(plc_series) as u64);
        }
        if str_eq(name, "word_block_count") {
            return Ok(count_entries(params, "word_blocks"));
        }
        if str_eq(name, "bit_block_count") {
            return Ok(count_entries(params, "bit_blocks"));
        }
        match params.get(name) {
            Some(Value::UInt(v)) => Ok(*v),
            Some(Value::Int(v)) => {
                if *v >= 0 {
                    Ok(*v as u64)
                } else {
                    Err(MelsecError::protocol("missing numeric param"))
                }
            },
            _ => Err(MelsecError::protocol("missing numeric param")),
        }
    }
}

/// The number of entries that the bundle holds under `key`.
fn count_entries(params: &Value, key: &str) -> (r: u64)
    ensures
        r == entries_len(params@, key@),
{
    match params.get(key) {
        Some(v) => match v.as_array() {
            Some(items) => items.len() as u64,
            None => 0,
        },
        None => 0,
    }
}

proof fn lemma_encode_words_prefix(items: Seq<Json>, le: bool, k: int)
    requires
        0 <= k <= items.len(),
        encode_words(items, le) is Some,
    ensures
        encode_words(items.take(k), le) is Some,
    decreases items.len(),
{
    if k == items.len() {
        assert(items.take(k) =~= items);
    } else {
        lemma_encode_words_prefix(items.drop_last(), le, k);
        assert(items.drop_last().take(k) =~= items.take(k));
    }
}

proof fn lemma_encode_byte_items_prefix(items: Seq<Json>, k: int)
    requires
        0 <= k <= items.len(),
        encode_byte_items(items) is Some,
    ensures
        encode_byte_items(items.take(k)) is Some,
    decreases items.len(),
{
    if k == items.len() {
        assert(items.take(k) =~= items);
    } else {
        lemma_encode_byte_items_prefix(items.drop_last(), k);
        assert(items.drop_last().take(k) =~= items.take(k));
    }
}

/// Appends the two bytes of a word in the given byte order.
fn write_word(out: &mut Vec<u8>, w: u16, le: bool)
    ensures
        final(out)@ == old(out)@ + word_bytes(w, le),
{
    if le {
        out.push(low_byte(w));
        out.push(high_byte(w));
    } else {
        out.push(high_byte(w));
        out.push(low_byte(w));
    }
    assert(out@ =~= old(out)@ + word_bytes(w, le));
}

/// Appends the bytes of a list of words.
fn write_words(items: &Vec<Value>, le: bool, out: &mut Vec<u8>) -> (r: Result<(), MelsecError>)
    ensures
        match encode_words(views(items@), le) {
            Some(bytes) => r is Ok && final(out)@ == old(out)@ + bytes,
            None => r is Err && r->Err_0 is Protocol,
        },
{
    let ghost all = views(items@);
    let mut i: usize = 0;
    assert(all.take(0) =~= Seq::<Json>::empty());
    assert(out@ =~= old(out)@ + Seq::<u8>::empty());
    while i < items.len()
        invariant
            i <= items.len(),
            all == views(items@),
            encode_words(all.take(i as int), le) is Some,
            out@ == old(out)@ + encode_words(all.take(i as int), le)->0,
        decreases items.len() - i,
    {
        let ghost done = encode_words(all.take(i as int), le)->0;
        proof {
            assert(all.take(i + 1).drop_last() =~= all.take(i as int));
            assert(all.take(i + 1).last() == items@[i as int]@);
        }
        let w = match items[i].as_u64() {
            Some(w) => w,
            None => {
                proof {
                    if encode_words(all, le) is Some {
                        lemma_encode_words_prefix(all, le, i + 1);
                    }
                }
                return Err(MelsecError::protocol("word array item not number"));
            },
        };
        if w > 0xFFFF {
            proof {
                if encode_words(all, le) is Some {
                    lemma_encode_words_prefix(all, le, i + 1);
                }
            }
            return Err(MelsecError::protocol("word array item out of range for u16"));
        }
        write_word(out, w as u16, le);
        assert(out@ =~= old(out)@ + (done + word_bytes(w as u16, le)));
        i = i + 1;
    }
    assert(all.take(i as int) =~= all);
    Ok(())
}

/// Appends the bytes that a list of items names.
fn write_byte_items(items: &Vec<Value>, out: &mut Vec<u8>) -> (r: Result<(), MelsecError>)
    ensures
        match encode_byte_items(views(items@)) {
            Some(bytes) => r is Ok && final(out)@ == old(out)@ + bytes,
            None => r is Err && r->Err_0 is Protocol,
        },
{
    let ghost all = views(items@);
    let mut i: usize = 0;
    assert(all.take(0) =~= Seq::<Json>::empty());
    assert(out@ =~= old(out)@ + Seq::<u8>::empty());
    while i < items.len()
        invariant
            i <= items.len(),
            all == views(items@),
            encode_byte_items(all.take(i as int)) is Some,
            out@ == old(out)@ + encode_byte_items(all.take(i as int))->0,
        decreases items.len() - i,
    {
        let ghost done = encode_byte_items(all.take(i as int))->0;
        proof {
            assert(all.take(i + 1).drop_last() =~= all.take(i as int));
            assert(all.take(i + 1).last() == items@[i as int]@);
        }
        let b = match items[i].as_u64() {
            Some(b) => b,
            None => {
                proof {
                    if encode_byte_items(all) is Some {
                        lemma_encode_byte_items_prefix(all, i + 1);
                    }
                }
                return Err(MelsecError::protocol("payload item not number"));
            },
        };
        if b > 0xFF {
            proof {
                if encode_byte_items(all) is Some {
                    lemma_encode_byte_items_prefix(all, i + 1);
                }
            }
            return Err(MelsecError::protocol("payload item out of range for u8"));
        }
        out.push(b as u8);
        assert(out@ =~= old(out)@ + done.push(b as u8));
        i = i + 1;
    }
    assert(all.take(i as int) =~= all);
    Ok(())
}

/// True for the bytes of `0-9`, `A-F` and `a-f`.
pub fn is_hex_byte(b: u8) -> (r: bool)
    ensures
        r == is_hex(b),
{
    (0x30 <= b && b <= 0x39) || (0x41 <= b && b <= 0x46) || (0x61 <= b && b <= 0x66)
}

/// True if every byte is one of `0-9A-Fa-f`.
pub fn all_hex_bytes(bytes: &[u8]) -> (r: bool)
    ensures
        r == all_hex(bytes@),
{
    let mut i: usize = 0;
    while i < bytes.len()
        invariant
            i <= bytes.len(),
            forall|k: int| 0 <= k < i ==> is_hex(#[trigger] bytes@[k]),
        decreases bytes.len() - i,
    {
        if !is_hex_byte(bytes[i]) {
            return false;
        }
        i = i + 1;
    }
    true
}

/// Appends an integer in the given width and byte order, if it fits.
fn write_fixed(out: &mut Vec<u8>, v: u64, width: (usize, bool)) -> (r: Result<(), MelsecError>)
    ensures
        match encode_fixed(v, (width.0 as nat, width.1)) {
            Some(bytes) => r is Ok && final(out)@ == old(out)@ + bytes,
            None => r is Err && r->Err_0 is Protocol,
        },
{
    if !fits_width(v, width.0) {
        return Err(MelsecError::protocol("number out of range for field width"));
    }
    write_n_bytes(out, width.0, v, width.1);
    Ok(())
}

impl CommandSpec {
    /// Writes an integer field of the top level.
    fn write_fixed_bytes_field(
        &self,
        f: &FieldSpec,
        params: &Value,
        plc_series: Option<PLCSeries>,
        out: &mut Vec<u8>,
    ) -> (r: Result<(), MelsecError>)
        requires
            f.kind is FixedBytes,
        ensures
            match encode_field(self@, f@, params@, plc_series) {
                Some(bytes) => r is Ok && final(out)@ == old(out)@ + bytes,
                None => r is Err && r->Err_0 is Protocol,
            },
    {
        let v = match self.get_num_field(f.name.as_str(), params, plc_series) {
            Ok(v) => v,
            Err(e) => {
                return Err(e);
            },
        };
        match f.kind {
            FieldKind::FixedBytes { n, le } => {
                let width = effective_layout(f.name.as_str(), n, le, plc_series, true);
                write_fixed(out, v, width)
            },
            _ => Ok(()),
        }
    }

    /// Writes a field of 16-bit words from the array of the bundle.
    fn write_words_field(f: &FieldSpec, params: &Value, out: &mut Vec<u8>) -> (r: Result<
        (),
        MelsecError,
    >)
        requires
            f.kind is Words,
        ensures
            match (match params@.get(f@.name) {
                Some(Json::Array(items)) => encode_words(items, f.kind->Words_le),
                _ => None,
            }) {
                Some(bytes) => r is Ok && final(out)@ == old(out)@ + bytes,
                None => r is Err && r->Err_0 is Protocol,
            },
    {
        let le = match f.kind {
            FieldKind::Words { le } => le,
            _ => true,
        };
        match params.get(f.name.as_str()) {
            Some(v) => match v.as_array() {
                Some(items) => write_words(items, le, out),
                None => Err(MelsecError::protocol("expected array for words field")),
            },
            None => Err(MelsecError::protocol("expected array for words field")),
        }
    }

    /// Writes a field of bytes: the byte values of an array, or the bytes
    /// of a text as they are. Writes nothing where the bundle holds
    /// neither.
    pub fn write_bytes_field(f: &FieldSpec, params: &Value, out: &mut Vec<u8>) -> (r: Result<
        (),
        MelsecError,
    >)
        ensures
            match (match params@.get(f@.name) {
                Some(Json::Array(items)) => encode_byte_items(items),
                Some(Json::Str(s)) => Some(vstd::utf8::encode_utf8(s)),
                _ => Some(Seq::empty()),
            }) {
                Some(bytes) => r is Ok && final(out)@ == old(out)@ + bytes,
                None => r is Err && r->Err_0 is Protocol,
            },
    {
        assert(out@ =~= out@ + Seq::<u8>::empty());
        match params.get(f.name.as_str()) {
            Some(v) => {
                match v.as_array() {
                    Some(items) => {
                        return write_byte_items(items, out);
                    },
                    None => {},
                }
                match v.as_str() {
                    Some(s) => {
                        append_bytes(out, s.as_bytes());
                    },
                    None => {},
                }
                Ok(())
            },
            None => Ok(()),
        }
    }

    /// Writes a field of hexadecimal text: the bytes of a text, each of
    /// which must be one of `0-9A-Fa-f`, or the byte values of an array.
    /// Writes nothing where the bundle holds neither.
    pub fn write_ascii_hex_field(f: &FieldSpec, params: &Value, out: &mut Vec<u8>) -> (r: Result<
        (),
        MelsecError,
    >)
        ensures
            match (match params@.get(f@.name) {
                Some(Json::Str(s)) => if all_hex(vstd::utf8::encode_utf8(s)) {
                    Some(vstd::utf8::encode_utf8(s))
                } else {
                    None
                },
                Some(Json::Array(items)) => encode_byte_items(items),
                _ => Some(Seq::empty()),
            }) {
                Some(bytes) => r is Ok && final(out)@ == old(out)@ + bytes,
                None => r is Err && r->Err_0 is Protocol,
            },
    {
        assert(out@ =~= out@ + Seq::<u8>::empty());
        match params.get(f.name.as_str()) {
            Some(v) => {
                match v.as_str() {
                    Some(s) => {
                        let bytes = s.as_bytes();
                        if !all_hex_bytes(bytes) {
                            return Err(
                                MelsecError::protocol(
                                    "payload string contains invalid ascii_hex byte",
                                ),
                            );
                        }
                        append_bytes(out, bytes);
                        return Ok(());
                    },
                    None => {},
                }
                match v.as_array() {
                    Some(items) => write_byte_items(items, out),
                    None => Ok(()),
                }
            },
            None => Ok(()),
        }
    }

    /// Writes one field of the top level.
    pub fn write_field(
        &self,
        f: &FieldSpec,
        params: &Value,
        plc_series: Option<PLCSeries>,
        out: &mut Vec<u8>,
    ) -> (r: Result<(), MelsecError>)
        ensures
            match encode_field(self@, f@, params@, plc_series) {
                Some(bytes) => r is Ok && final(out)@ == old(out)@ + bytes,
                None => r is Err && r->Err_0 is Protocol,
            },
    {
        match f.kind {
            FieldKind::FixedBytes { .. } => self.write_fixed_bytes_field(
                f,
                params,
                plc_series,
                out,
            ),
            FieldKind::Words { .. } => CommandSpec::write_words_field(f, params, out),
            FieldKind::Bytes => CommandSpec::write_bytes_field(f, params, out),
            FieldKind::AsciiHex => CommandSpec::write_ascii_hex_field(f, params, out),
        }
    }
}

proof fn lemma_encode_fields_prefix(
    c: CommandSpecView,
    fields: Seq<FieldSpecView>,
    p: Json,
    series: Option<PLCSeries>,
    k: int,
)
    requires
        0 <= k <= fields.len(),
        encode_fields(c, fields, p, series) is Some,
    ensures
        encode_fields(c, fields.take(k), p, series) is Some,
    decreases fields.len(),
{
    if k == fields.len() {
        assert(fields.take(k) =~= fields);
    } else {
        lemma_encode_fields_prefix(c, fields.drop_last(), p, series, k);
        assert(fields.drop_last().take(k) =~= fields.take(k));
    }
}

proof fn lemma_encode_block_fields_prefix(
    fields: Seq<FieldSpecView>,
    entry: Json,
    series: Option<PLCSeries>,
    k: int,
)
    requires
        0 <= k <= fields.len(),
        encode_block_fields(fields, entry, series) is Some,
    ensures
        encode_block_fields(fields.take(k), entry, series) is Some,
    decreases fields.len(),
{
    if k == fields.len() {
        assert(fields.take(k) =~= fields);
    } else {
        lemma_encode_block_fields_prefix(fields.drop_last(), entry, series, k);
        assert(fields.drop_last().take(k) =~= fields.take(k));
    }
}

proof fn lemma_encode_entries_prefix(
    fields: Seq<FieldSpecView>,
    entries: Seq<Json>,
    series: Option<PLCSeries>,
    k: int,
)
    requires
        0 <= k <= entries.len(),
        encode_entries(fields, entries, series) is Some,
    ensures
        encode_entries(fields, entries.take(k), series) is Some,
    decreases entries.len(),
{
    if k == entries.len() {
        assert(entries.take(k) =~= entries);
    } else {
        lemma_encode_entries_prefix(fields, entries.drop_last(), series, k);
        assert(entries.drop_last().take(k) =~= entries.take(k));
    }
}

proof fn lemma_encode_blocks_prefix(
    blocks: Seq<BlockTemplateView>,
    p: Json,
    series: Option<PLCSeries>,
    k: int,
)
    requires
        0 <= k <= blocks.len(),
        encode_blocks(blocks, p, series) is Some,
    ensures
        encode_blocks(blocks.take(k), p, series) is Some,
    decreases blocks.len(),
{
    if k == blocks.len() {
        assert(blocks.take(k) =~= blocks);
    } else {
        lemma_encode_blocks_prefix(blocks.drop_last(), p, series, k);
        assert(blocks.drop_last().take(k) =~= blocks.take(k));
    }
}

/// The name under which a bundle holds the entries of a block template.
pub fn plural_name(name: &str) -> (r: String)
    ensures
        r@ == plural(name@),
{
    name.to_owned().concat("s")
}

/// The entries that the bundle holds for a block template.
fn entries_of<'a>(params: &'a Value, block: &BlockTemplate) -> (r: Option<&'a Vec<Value>>)
    ensures
        match block_entries(params@, block@) {
            Some(entries) => r is Some && entries == views(r->0@),
            None => r is None,
        },
{
    let key = plural_name(block.name.as_str());
    match params.get(key.as_str()) {
        Some(v) => v.as_array(),
        None => None,
    }
}

impl CommandSpec {
    /// Checks the devices that the bundle names against the families.
    #[verifier::loop_isolation(false)]
    pub fn check_families(&self, params: &Value, catalog: &DeviceCatalog) -> (r: Result<
        (),
        MelsecError,
    >)
        ensures
            r is Ok <==> families_admitted(self@, params@, catalog@),
            r is Err ==> r->Err_0 is Protocol,
    {
        match self.check_device(params, self.device_family, catalog) {
            Ok(()) => {},
            Err(e) => {
                return Err(e);
            },
        }
        let ghost c = self@;
        let mut i: usize = 0;
        while i < self.block_templates.len()
            invariant
                i <= self.block_templates.len(),
                forall|k: int|
                    0 <= k < i ==> block_admitted(
                        c,
                        #[trigger] c.block_templates[k],
                        params@,
                        catalog@,
                    ),
            decreases self.block_templates.len() - i,
        {
            let bt = &self.block_templates[i];
            assert(bt@ == c.block_templates[i as int]);
            let family = match bt.device_family {
                Some(f) => f,
                None => self.device_family,
            };
            match entries_of(params, bt) {
                Some(entries) => {
                    let ghost es = views(entries@);
                    let mut k: usize = 0;
                    while k < entries.len()
                        invariant
                            k <= entries.len(),
                            forall|j: int|
                                0 <= j < k ==> device_admitted(#[trigger] es[j], catalog@, family),
                        decreases entries.len() - k,
                    {
                        assert(es[k as int] == entries@[k as int]@);
                        match self.check_device(&entries[k], family, catalog) {
                            Ok(()) => {},
                            Err(e) => {
                                assert(!block_admitted(c, c.block_templates[i as int], params@, catalog@));
                                return Err(e);
                            },
                        }
                        k = k + 1;
                    }
                },
                None => {},
            }
            i = i + 1;
        }
        Ok(())
    }

    /// Checks the devices that the bundle names, then writes the fields of
    /// the top level in order.
    #[verifier::loop_isolation(false)]
    pub fn write_request_fields(
        &self,
        params: &Value,
        plc_series: Option<PLCSeries>,
        catalog: &DeviceCatalog,
        out: &mut Vec<u8>,
    ) -> (r: Result<(), MelsecError>)
        ensures
            match (families_admitted(self@, params@, catalog@), encode_fields(
                self@,
                self@.request_fields,
                params@,
                plc_series,
            )) {
                (true, Some(bytes)) => r is Ok && final(out)@ == old(out)@ + bytes,
                _ => r is Err && r->Err_0 is Protocol,
            },
    {
        match self.check_families(params, catalog) {
            Ok(()) => {},
            Err(e) => {
                return Err(e);
            },
        }
        let ghost c = self@;
        let ghost all = c.request_fields;
        let mut i: usize = 0;
        assert(all.take(0) =~= Seq::<FieldSpecView>::empty());
        assert(out@ =~= old(out)@ + Seq::<u8>::empty());
        while i < self.request_fields.len()
            invariant
                i <= self.request_fields.len(),
                encode_fields(c, all.take(i as int), params@, plc_series) is Some,
                out@ == old(out)@ + encode_fields(c, all.take(i as int), params@, plc_series)->0,
            decreases self.request_fields.len() - i,
        {
            let ghost done = encode_fields(c, all.take(i as int), params@, plc_series)->0;
            proof {
                assert(all.take(i + 1).drop_last() =~= all.take(i as int));
                assert(all.take(i + 1).last() == self.request_fields@[i as int]@);
            }
            let ghost mid = out@;
            match self.write_field(&self.request_fields[i], params, plc_series, out) {
                Ok(()) => {
                    let ghost bytes = encode_field(c, all[i as int], params@, plc_series)->0;
                    assert(out@ =~= old(out)@ + (done + bytes));
                },
                Err(e) => {
                    proof {
                        if encode_fields(c, all, params@, plc_series) is Some {
                            lemma_encode_fields_prefix(c, all, params@, plc_series, i + 1);
                        }
                    }
                    return Err(e);
                },
            }
            i = i + 1;
        }
        assert(all.take(i as int) =~= all);
        Ok(())
    }

    /// Writes an integer field of a block entry.
    fn emit_field_fixed_bytes(
        fld: &FieldSpec,
        entry: &Value,
        plc_series: Option<PLCSeries>,
        out: &mut Vec<u8>,
    ) -> (r: Result<(), MelsecError>)
        requires
            fld.kind is FixedBytes,
        ensures
            match encode_block_field(fld@, entry@, plc_series) {
                Some(bytes) => r is Ok && final(out)@ == old(out)@ + bytes,
                None => r is Err && r->Err_0 is Protocol,
            },
    {
        let v = match entry.get(fld.name.as_str()) {
            Some(v) => match v.as_u64() {
                Some(n) => n,
                None => {
                    return Err(MelsecError::protocol("missing block field"));
                },
            },
            None => {
                return Err(MelsecError::protocol("missing block field"));
            },
        };
        match fld.kind {
            FieldKind::FixedBytes { n, le } => {
                let width = effective_layout(fld.name.as_str(), n, le, plc_series, false);
                write_fixed(out, v, width)
            },
            _ => Ok(()),
        }
    }

    /// Writes a words field of a block entry: the array under its name, or
    /// a single word.
    fn emit_field_words(fld: &FieldSpec, entry: &Value, out: &mut Vec<u8>) -> (r: Result<
        (),
        MelsecError,
    >)
        requires
            fld.kind is Words,
        ensures
            match (match entry@.get(fld@.name) {
                Some(Json::Array(items)) => encode_words(items, fld.kind->Words_le),
                Some(Json::UInt(w)) => if w <= 0xFFFF {
                    Some(word_bytes(w as u16, fld.kind->Words_le))
                } else {
                    None
                },
                _ => None,
            }) {
                Some(bytes) => r is Ok && final(out)@ == old(out)@ + bytes,
                None => r is Err && r->Err_0 is Protocol,
            },
    {
        let le = match fld.kind {
            FieldKind::Words { le } => le,
            _ => true,
        };
        let v = match entry.get(fld.name.as_str()) {
            Some(v) => v,
            None => {
                return Err(MelsecError::protocol("missing field"));
            },
        };
        match v.as_array() {
            Some(items) => {
                return write_words(items, le, out);
            },
            None => {},
        }
        match v.as_u64() {
            Some(w) => {
                if w > 0xFFFF {
                    return Err(MelsecError::protocol("field out of range for u16"));
                }
                write_word(out, w as u16, le);
                Ok(())
            },
            None => Err(MelsecError::protocol("missing field")),
        }
    }

    /// Writes the fields of one block entry, in order.
    #[verifier::loop_isolation(false)]
    fn emit_entry(
        bt: &BlockTemplate,
        entry: &Value,
        plc_series: Option<PLCSeries>,
        out: &mut Vec<u8>,
    ) -> (r: Result<(), MelsecError>)
        ensures
            match encode_block_fields(bt@.fields, entry@, plc_series) {
                Some(bytes) => r is Ok && final(out)@ == old(out)@ + bytes,
                None => r is Err && r->Err_0 is Protocol,
            },
    {
        let ghost all = bt@.fields;
        let mut i: usize = 0;
        assert(all.take(0) =~= Seq::<FieldSpecView>::empty());
        assert(out@ =~= old(out)@ + Seq::<u8>::empty());
        while i < bt.fields.len()
            invariant
                i <= bt.fields.len(),
                encode_block_fields(all.take(i as int), entry@, plc_series) is Some,
                out@ == old(out)@ + encode_block_fields(all.take(i as int), entry@, plc_series)->0,
            decreases bt.fields.len() - i,
        {
            let ghost done = encode_block_fields(all.take(i as int), entry@, plc_series)->0;
            proof {
                assert(all.take(i + 1).drop_last() =~= all.take(i as int));
                assert(all.take(i + 1).last() == bt.fields@[i as int]@);
            }
            let fld = &bt.fields[i];
            let res = match fld.kind {
                FieldKind::FixedBytes { .. } => CommandSpec::emit_field_fixed_bytes(
                    fld,
                    entry,
                    plc_series,
                    out,
                ),
                FieldKind::Words { .. } => CommandSpec::emit_field_words(fld, entry, out),
                FieldKind::Bytes => Ok(()),
                FieldKind::AsciiHex => Ok(()),
            };
            match res {
                Ok(()) => {
                    let ghost bytes = encode_block_field(all[i as int], entry@, plc_series)->0;
                    assert(out@ =~= old(out)@ + (done + bytes));
                },
                Err(e) => {
                    proof {
                        if encode_block_fields(all, entry@, plc_series) is Some {
                            lemma_encode_block_fields_prefix(all, entry@, plc_series, i + 1);
                        }
                    }
                    return Err(e);
                },
            }
            i = i + 1;
        }
        assert(all.take(i as int) =~= all);
        Ok(())
    }

    /// Writes the entries that the bundle holds for one block template.
    #[verifier::loop_isolation(false)]
    pub fn emit_block_template(
        bt: &BlockTemplate,
        params: &Value,
        plc_series: Option<PLCSeries>,
        out: &mut Vec<u8>,
    ) -> (r: Result<(), MelsecError>)
        ensures
            match (match block_entries(params@, bt@) {
                Some(entries) => encode_entries(bt@.fields, entries, plc_series),
                None => None,
            }) {
                Some(bytes) => r is Ok && final(out)@ == old(out)@ + bytes,
                None => r is Err && r->Err_0 is Protocol,
            },
    {
        let entries = match entries_of(params, bt) {
            Some(e) => e,
            None => {
                return Err(MelsecError::protocol("missing block array"));
            },
        };
        let ghost all = views(entries@);
        let ghost fields = bt@.fields;
        let mut i: usize = 0;
        assert(all.take(0) =~= Seq::<Json>::empty());
        assert(out@ =~= old(out)@ + Seq::<u8>::empty());
        while i < entries.len()
            invariant
                i <= entries.len(),
                encode_entries(fields, all.take(i as int), plc_series) is Some,
                out@ == old(out)@ + encode_entries(fields, all.take(i as int), plc_series)->0,
            decreases entries.len() - i,
        {
            let ghost done = encode_entries(fields, all.take(i as int), plc_series)->0;
            proof {
                assert(all.take(i + 1).drop_last() =~= all.take(i as int));
                assert(all.take(i + 1).last() == entries@[i as int]@);
            }
            if !entries[i].is_object() {
                proof {
                    if encode_entries(fields, all, plc_series) is Some {
                        lemma_encode_entries_prefix(fields, all, plc_series, i + 1);
                    }
                }
                return Err(MelsecError::protocol("block entry must be object"));
            }
            match CommandSpec::emit_entry(bt, &entries[i], plc_series, out) {
                Ok(()) => {
                    let ghost bytes = encode_block_fields(fields, all[i as int], plc_series)->0;
                    assert(out@ =~= old(out)@ + (done + bytes));
                },
                Err(e) => {
                    proof {
                        if encode_entries(fields, all, plc_series) is Some {
                            lemma_encode_entries_prefix(fields, all, plc_series, i + 1);
                        }
                    }
                    return Err(e);
                },
            }
            i = i + 1;
        }
        assert(all.take(i as int) =~= all);
        Ok(())
    }

    /// Writes the blocks, in the order of the templates.
    #[verifier::loop_isolation(false)]
    pub fn emit_blocks(&self, params: &Value, plc_series: Option<PLCSeries>, out: &mut Vec<u8>) -> (r:
        Result<(), MelsecError>)
        ensures
            match encode_blocks(self@.block_templates, params@, plc_series) {
                Some(bytes) => r is Ok && final(out)@ == old(out)@ + bytes,
                None => r is Err && r->Err_0 is Protocol,
            },
    {
        let ghost all = self@.block_templates;
        let mut i: usize = 0;
        assert(all.take(0) =~= Seq::<BlockTemplateView>::empty());
        assert(out@ =~= old(out)@ + Seq::<u8>::empty());
        while i < self.block_templates.len()
            invariant
                i <= self.block_templates.len(),
                encode_blocks(all.take(i as int), params@, plc_series) is Some,
                out@ == old(out)@ + encode_blocks(all.take(i as int), params@, plc_series)->0,
            decreases self.block_templates.len() - i,
        {
            let ghost done = encode_blocks(all.take(i as int), params@, plc_series)->0;
            proof {
                assert(all.take(i + 1).drop_last() =~= all.take(i as int));
                assert(all.take(i + 1).last() == self.block_templates@[i as int]@);
            }
            match CommandSpec::emit_block_template(&self.block_templates[i], params, plc_series, out) {
                Ok(()) => {
                    let ghost bytes = encode_entries(
                        all[i as int].fields,
                        block_entries(params@, all[i as int])->0,
                        plc_series,
                    )->0;
                    assert(out@ =~= old(out)@ + (done + bytes));
                },
                Err(e) => {
                    proof {
                        if encode_blocks(all, params@, plc_series) is Some {
                            lemma_encode_blocks_prefix(all, params@, plc_series, i + 1);
                        }
                    }
                    return Err(e);
                },
            }
            i = i + 1;
        }
        assert(all.take(i as int) =~= all);
        Ok(())
    }
}

/// A sum of counts that may have outgrown 64 bits.
struct Tally {
    total: u64,
    over: bool,
}

impl Tally {
    /// True if the tally stands for the number `n`.
    spec fn stands_for(self, n: nat) -> bool {
        if self.over {
            n > u64::MAX
        } else {
            self.total == n
        }
    }

    fn zero() -> (r: Tally)
        ensures
            r.stands_for(0),
    {
        Tally { total: 0, over: false }
    }

    fn plus(self, count: u64, Ghost(n): Ghost<nat>) -> (r: Tally)
        requires
            self.stands_for(n),
        ensures
            r.stands_for((n + count) as nat),
    {
        if self.over || count > u64::MAX - self.total {
            Tally { total: 0, over: true }
        } else {
            Tally { total: self.total + count, over: false }
        }
    }

    fn exceeds(&self, cap: u64, Ghost(n): Ghost<nat>) -> (r: bool)
        requires
            self.stands_for(n),
        ensures
            r == (n > cap),
    {
        self.over || self.total > cap
    }
}

/// The points that a block entry asks for of devices of the category.
fn points_of_entry(entry: &Value, category: DeviceType, catalog: &DeviceCatalog) -> (r: u64)
    ensures
        r == entry_points(entry@, category, catalog@),
{
    let code = match entry.get("device_code") {
        Some(v) => match v.as_u64() {
            Some(c) => c,
            None => {
                return 0;
            },
        },
        None => {
            return 0;
        },
    };
    let count = match entry.get("count") {
        Some(v) => match v.as_u64() {
            Some(c) => c,
            None => {
                return 0;
            },
        },
        None => {
            return 0;
        },
    };
    if code > 0xFF {
        return 0;
    }
    match device_by_code(catalog, code as u8) {
        Some(dev) => {
            if dev.category == category {
                count
            } else {
                0
            }
        },
        None => 0,
    }
}

impl CommandSpec {
    /// The points that the bundle asks for of devices of the category.
    fn points(&self, params: &Value, category: DeviceType, catalog: &DeviceCatalog) -> (r: Tally)
        ensures
            r.stands_for(total_points(self@.block_templates, params@, category, catalog@)),
    {
        let ghost blocks = self@.block_templates;
        let mut tally = Tally::zero();
        let mut i: usize = 0;
        assert(blocks.take(0) =~= Seq::<BlockTemplateView>::empty());
        while i < self.block_templates.len()
            invariant
                i <= self.block_templates.len(),
                blocks == self@.block_templates,
                tally.stands_for(total_points(blocks.take(i as int), params@, category, catalog@)),
            decreases self.block_templates.len() - i,
        {
            let ghost before_n = total_points(blocks.take(i as int), params@, category, catalog@);
            proof {
                assert(blocks.take(i + 1).drop_last() =~= blocks.take(i as int));
                assert(blocks.take(i + 1).last() == self.block_templates@[i as int]@);
            }
            match entries_of(params, &self.block_templates[i]) {
                Some(entries) => {
                    let ghost es = views(entries@);
                    let mut k: usize = 0;
                    assert(es.take(0) =~= Seq::<Json>::empty());
                    while k < entries.len()
                        invariant
                            k <= entries.len(),
                            es == views(entries@),
                            tally.stands_for(
                                before_n + entries_points(es.take(k as int), category, catalog@),
                            ),
                        decreases entries.len() - k,
                    {
                        let ghost so_far = before_n + entries_points(
                            es.take(k as int),
                            category,
                            catalog@,
                        );
                        proof {
                            assert(es.take(k + 1).drop_last() =~= es.take(k as int));
                            assert(es.take(k + 1).last() == entries@[k as int]@);
                        }
                        let count = points_of_entry(&entries[k], category, catalog);
                        tally = tally.plus(count, Ghost(so_far));
                        k = k + 1;
                    }
                    assert(es.take(k as int) =~= es);
                },
                None => {},
            }
            i = i + 1;
        }
        assert(blocks.take(i as int) =~= blocks);
        tally
    }

    /// True if the points of the category exceed the cap, where one is
    /// declared.
    fn over_cap(
        &self,
        cap: Option<u64>,
        params: &Value,
        category: DeviceType,
        catalog: &DeviceCatalog,
    ) -> (r: bool)
        ensures
            r == !within(cap, total_points(self@.block_templates, params@, category, catalog@)),
    {
        match cap {
            Some(c) => {
                let tally = self.points(params, category, catalog);
                tally.exceeds(
                    c,
                    Ghost(total_points(self@.block_templates, params@, category, catalog@)),
                )
            },
            None => false,
        }
    }

    /// Checks the points that the bundle asks for against the caps that
    /// the spec declares.
    pub fn validate_block_limits(&self, params: &Value, catalog: &DeviceCatalog) -> (r: Result<
        (),
        MelsecError,
    >)
        ensures
            r is Ok <==> within_limits(self@, params@, catalog@),
            r is Err ==> r->Err_0 is Protocol,
    {
        match self.limits {
            None => Ok(()),
            Some(lim) => {
                if self.over_cap(lim.word_points, params, DeviceType::Word, catalog) {
                    return Err(MelsecError::protocol("command exceeds word_points limit"));
                }
                if self.over_cap(lim.dword_points, params, DeviceType::DoubleWord, catalog) {
                    return Err(MelsecError::protocol("command exceeds dword_points limit"));
                }
                if self.over_cap(lim.bit_points, params, DeviceType::Bit, catalog) {
                    return Err(MelsecError::protocol("command exceeds bit_points limit"));
                }
                Ok(())
            },
        }
    }

    /// Checks the limits, then writes the blocks.
    pub fn append_blocks(
        &self,
        params: &Value,
        plc_series: Option<PLCSeries>,
        catalog: &DeviceCatalog,
        out: &mut Vec<u8>,
    ) -> (r: Result<(), MelsecError>)
        ensures
            match (within_limits(self@, params@, catalog@), encode_blocks(
                self@.block_templates,
                params@,
                plc_series,
            )) {
                (true, Some(bytes)) => r is Ok && final(out)@ == old(out)@ + bytes,
                _ => r is Err && r->Err_0 is Protocol,
            },
    {
        match self.validate_block_limits(params, catalog) {
            Ok(()) => {},
            Err(e) => {
                return Err(e);
            },
        }
        self.emit_blocks(params, plc_series, out)
    }

    /// Builds the body of a request from a parameter bundle. `plc_series`
    /// says for which controller family; the catalog says which devices
    /// the codes in the bundle stand for.
    pub fn build_request(
        &self,
        params: &Value,
        plc_series: Option<PLCSeries>,
        catalog: &DeviceCatalog,
    ) -> (r: Result<Vec<u8>, MelsecError>)
        ensures
            match spec_build_request(self@, params@, plc_series, catalog@) {
                Some(bytes) => r is Ok && r->Ok_0@ == bytes,
                None => r is Err && r->Err_0 is Protocol,
            },
    {
        let mut out: Vec<u8> = Vec::new();
        match self.write_request_fields(params, plc_series, catalog, &mut out) {
            Ok(()) => {},
            Err(e) => {
                return Err(e);
            },
        }
        let ghost head = out@;
        match self.append_blocks(params, plc_series, catalog, &mut out) {
            Ok(()) => {},
            Err(e) => {
                return Err(e);
            },
        }
        assert(head =~= encode_fields(self@, self@.request_fields, params@, plc_series)->0);
        Ok(out)
    }
}

/// A request is rejected where the bundle names, at its top level, a
/// device that the family of the command does not admit: a word device
/// under the bit family, a bit device under the word family, anything but
/// a double-word device under the double-word family.
pub proof fn lemma_unadmitted_device_rejects(
    c: CommandSpecView,
    p: Json,
    series: Option<PLCSeries>,
    devices: Seq<DeviceView>,
    code: u64,
)
    requires
        p.get("device_code"@) == Some(Json::UInt(code)),
        code > 0xFF || (index_of_code(devices, code as u8) matches Some(i) && !family_admits(
            c.device_family,
            devices[i].category,
        )),
    ensures
        spec_build_request(c, p, series, devices) is None,
{
}

/// A command of the bit family rejects a bundle that names a word device.
pub proof fn lemma_bit_family_rejects_word_device(
    c: CommandSpecView,
    p: Json,
    series: Option<PLCSeries>,
    devices: Seq<DeviceView>,
    code: u8,
    i: int,
)
    requires
        c.device_family == DeviceFamily::Bit,
        p.get("device_code"@) == Some(Json::UInt(code as u64)),
        index_of_code(devices, code) == Some(i),
        devices[i].category == DeviceType::Word,
    ensures
        spec_build_request(c, p, series, devices) is None,
{
}

/// The family `Any` admits every device whose code fits one byte, a bit
/// device as well as a word device. The family `Word` admits word and
/// double-word devices and no bit device.
pub proof fn lemma_families(p: Json, devices: Seq<DeviceView>, code: u8)
    requires
        p.get("device_code"@) == Some(Json::UInt(code as u64)),
    ensures
        device_admitted(p, devices, DeviceFamily::Any),
        device_admitted(p, devices, DeviceFamily::Word) <==> (match index_of_code(devices, code) {
            Some(i) => devices[i].category != DeviceType::Bit,
            None => true,
        }),
{
}

/// A request is rejected where the bundle holds, for a field of
/// hexadecimal text, a text with a byte that is not one of `0-9A-Fa-f`.
pub proof fn lemma_non_hex_text_rejects(
    c: CommandSpecView,
    p: Json,
    series: Option<PLCSeries>,
    devices: Seq<DeviceView>,
    k: int,
    text: Seq<char>,
)
    requires
        0 <= k < c.request_fields.len(),
        c.request_fields[k].kind == FieldKind::AsciiHex,
        p.get(c.request_fields[k].name) == Some(Json::Str(text)),
        !all_hex(vstd::utf8::encode_utf8(text)),
    ensures
        spec_build_request(c, p, series, devices) is None,
{
    if encode_fields(c, c.request_fields, p, series) is Some {
        lemma_encode_fields_prefix(c, c.request_fields, p, series, k + 1);
        assert(c.request_fields.take(k + 1).last() == c.request_fields[k]);
    }
}

} // verus!
