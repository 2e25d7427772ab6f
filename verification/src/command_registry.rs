//! Command schemas: the records of a schema document, the typed specs that
//! they are parsed into, and the registry that holds the specs.

use vstd::prelude::*;
use vstd::string::*;
use crate::commands::Command;
use crate::device::{parse_bounded, spec_parse_number, NumberBase};
use crate::error::MelsecError;
use crate::once::OnceSlot;
use crate::plc_series::PLCSeries;
use crate::text::{
    after, before, chars_of, ends_with, find_char, range_ends_with, range_is, range_starts_with,
    starts_with, str_eq, string_of,
};
use crate::value::{Json, Value};

verus! {

/// The display names of a command.
#[derive(Debug, PartialEq, Eq)]
pub struct NameField {
    pub jp: Option<String>,
    pub en: Option<String>,
}

/// A block template as a schema document writes it.
#[derive(Debug)]
pub struct BlockTemplateRaw {
    pub name: String,
    pub repeat_field: String,
    pub fields: Vec<String>,
    /// Bit, Word, DoubleWord or Any, where the block overrides the command.
    pub device_family: Option<String>,
}

/// A command as a schema document writes it.
#[derive(Debug)]
pub struct CommandSpecRaw {
    pub id: Command,
    pub name: Option<NameField>,
    pub command_code: u16,
    /// An integer, or a table from series to integer.
    pub subcommand: Option<Value>,
    pub device_family: Option<String>,
    /// A table of point limits.
    pub limits: Option<Value>,
    pub min_count: Option<u32>,
    pub max_count: Option<u32>,
    pub request_format: Vec<String>,
    pub response_format: Vec<String>,
    pub block_templates: Option<Vec<BlockTemplateRaw>>,
    pub examples: Option<Vec<(String, String)>>,
    pub description: Option<String>,
}

/// How a request field is laid out.
#[derive(Debug, Clone, Copy, PartialEq, Eq, Structural)]
pub enum FieldKind {
    /// An integer of `n` bytes, low byte first where `le` holds.
    FixedBytes { n: usize, le: bool },
    /// 16-bit words, each low byte first where `le` holds.
    Words { le: bool },
    /// Bytes as they are.
    Bytes,
    /// Characters of `0-9A-Fa-f`, one byte each.
    AsciiHex,
}

/// A named request field.
#[derive(Debug, PartialEq, Eq)]
pub struct FieldSpec {
    pub name: String,
    pub kind: FieldKind,
}

/// The families of devices that a command or a block may address.
#[derive(Debug, Clone, Copy, PartialEq, Eq, Structural)]
pub enum DeviceFamily {
    Any,
    Bit,
    Word,
    DoubleWord,
}

/// A repeated part of a request.
#[derive(Debug, PartialEq, Eq)]
pub struct BlockTemplate {
    pub name: String,
    pub repeat_field: String,
    pub fields: Vec<FieldSpec>,
    pub device_family: Option<DeviceFamily>,
}

/// Caps on the points of one request, by category.
#[derive(Debug, Clone, Copy, PartialEq, Eq, Structural)]
pub struct Limits {
    pub word_points: Option<u64>,
    pub dword_points: Option<u64>,
    pub bit_points: Option<u64>,
}

/// The subcommand of a command: one value, or one for each series named.
#[derive(Debug, PartialEq, Eq)]
pub enum SubcommandSpec {
    Single(u16),
    PerSeries(Vec<(String, u16)>),
}

/// A directive for one part of a response.
#[derive(Debug, PartialEq, Eq)]
pub enum ResponseEntry {
    /// Blocks of 16-bit words.
    BlockWords { name: String, le: bool },
    /// Blocks of bits, eight to the byte.
    BlockBitsPacked { name: String, lsb_first: bool },
    /// Blocks of points of four bits each. A point is reported as `true`
    /// where its four bits are not all zero.
    BlockNibbles { name: String, high_first: bool },
    /// The rest of the response, as text of `0-9A-Fa-f`.
    AsciiHex { name: String },
}

/// The typed spec of a command.
#[derive(Debug, PartialEq, Eq)]
pub struct CommandSpec {
    pub id: Command,
    pub name: Option<NameField>,
    pub command_code: u16,
    pub subcommand: Option<SubcommandSpec>,
    pub device_family: DeviceFamily,
    pub request_fields: Vec<FieldSpec>,
    pub response_format: Vec<String>,
    pub response_entries: Vec<ResponseEntry>,
    pub block_templates: Vec<BlockTemplate>,
    pub limits: Option<Limits>,
}

/// The content of a `NameField`.
pub struct NameView {
    pub jp: Option<Seq<char>>,
    pub en: Option<Seq<char>>,
}

/// The content of a `FieldSpec`.
pub struct FieldSpecView {
    pub name: Seq<char>,
    pub kind: FieldKind,
}

/// The content of a `BlockTemplate`.
pub struct BlockTemplateView {
    pub name: Seq<char>,
    pub repeat_field: Seq<char>,
    pub fields: Seq<FieldSpecView>,
    pub device_family: Option<DeviceFamily>,
}

/// The content of a `SubcommandSpec`.
pub enum SubcommandView {
    Single(u16),
    PerSeries(Seq<(Seq<char>, u16)>),
}

/// The content of a `ResponseEntry`.
pub enum ResponseEntryView {
    BlockWords { name: Seq<char>, le: bool },
    BlockBitsPacked { name: Seq<char>, lsb_first: bool },
    BlockNibbles { name: Seq<char>, high_first: bool },
    AsciiHex { name: Seq<char> },
}

/// The content of a `CommandSpec`.
pub struct CommandSpecView {
    pub id: Command,
    pub name: Option<NameView>,
    pub command_code: u16,
    pub subcommand: Option<SubcommandView>,
    pub device_family: DeviceFamily,
    pub request_fields: Seq<FieldSpecView>,
    pub response_format: Seq<Seq<char>>,
    pub response_entries: Seq<ResponseEntryView>,
    pub block_templates: Seq<BlockTemplateView>,
    pub limits: Option<Limits>,
}

impl DeepView for NameField {
    type V = NameView;

    open spec fn deep_view(&self) -> NameView {
        NameView { jp: self.jp.deep_view(), en: self.en.deep_view() }
    }
}

impl DeepView for FieldSpec {
    type V = FieldSpecView;

    open spec fn deep_view(&self) -> FieldSpecView {
        FieldSpecView { name: self.name@, kind: self.kind }
    }
}

impl DeepView for BlockTemplate {
    type V = BlockTemplateView;

    open spec fn deep_view(&self) -> BlockTemplateView {
        BlockTemplateView {
            name: self.name@,
            repeat_field: self.repeat_field@,
            fields: self.fields.deep_view(),
            device_family: self.device_family,
        }
    }
}

impl DeepView for SubcommandSpec {
    type V = SubcommandView;

    open spec fn deep_view(&self) -> SubcommandView {
        match self {
            SubcommandSpec::Single(v) => SubcommandView::Single(*v),
            SubcommandSpec::PerSeries(m) => SubcommandView::PerSeries(m.deep_view()),
        }
    }
}

impl DeepView for ResponseEntry {
    type V = ResponseEntryView;

    open spec fn deep_view(&self) -> ResponseEntryView {
        match self {
            ResponseEntry::BlockWords { name, le } => ResponseEntryView::BlockWords {
                name: name@,
                le: *le,
            },
            ResponseEntry::BlockBitsPacked {
                name,
                lsb_first,
            } => ResponseEntryView::BlockBitsPacked { name: name@, lsb_first: *lsb_first },
            ResponseEntry::BlockNibbles { name, high_first } => ResponseEntryView::BlockNibbles {
                name: name@,
                high_first: *high_first,
            },
            ResponseEntry::AsciiHex { name } => ResponseEntryView::AsciiHex { name: name@ },
        }
    }
}

impl DeepView for CommandSpec {
    type V = CommandSpecView;

    open spec fn deep_view(&self) -> CommandSpecView {
        CommandSpecView {
            id: self.id,
            name: self.name.deep_view(),
            command_code: self.command_code,
            subcommand: self.subcommand.deep_view(),
            device_family: self.device_family,
            request_fields: self.request_fields.deep_view(),
            response_format: self.response_format.deep_view(),
            response_entries: self.response_entries.deep_view(),
            block_templates: self.block_templates.deep_view(),
            limits: self.limits,
        }
    }
}

impl View for CommandSpec {
    type V = CommandSpecView;

    open spec fn view(&self) -> CommandSpecView {
        self.deep_view()
    }
}

impl View for FieldSpec {
    type V = FieldSpecView;

    open spec fn view(&self) -> FieldSpecView {
        self.deep_view()
    }
}

impl View for ResponseEntry {
    type V = ResponseEntryView;

    open spec fn view(&self) -> ResponseEntryView {
        self.deep_view()
    }
}

impl View for BlockTemplate {
    type V = BlockTemplateView;

    open spec fn view(&self) -> BlockTemplateView {
        self.deep_view()
    }
}

/// `s` without any run of `suffix` at its end.
pub open spec fn strip_all(s: Seq<char>, suffix: Seq<char>) -> Seq<char>
    decreases s.len(),
{
    if suffix.len() > 0 && ends_with(s, suffix) {
        strip_all(s.take(s.len() - suffix.len()), suffix)
    } else {
        s
    }
}

/// The byte width that a decimal text stands for.
pub open spec fn spec_parse_width(s: Seq<char>) -> Option<usize> {
    match spec_parse_number(s, NumberBase::Decimal) {
        Some(v) => if v <= usize::MAX {
            Some(v as usize)
        } else {
            None
        },
        None => None,
    }
}

/// The kind that the part of a field spec after the colon stands for:
/// `bytes`, `rest` or `..` for bytes; a text that begins with `words` for
/// words, low byte first where it ends in `le`; a width followed by `le` or
/// `be` for an integer; `ascii_hex`; a bare width for an integer that is
/// written low byte first.
pub open spec fn spec_field_kind(typ: Seq<char>) -> Option<FieldKind> {
    if typ == "rest"@ || typ == ".."@ || typ == "bytes"@ {
        Some(FieldKind::Bytes)
    } else if starts_with(typ, "words"@) {
        Some(FieldKind::Words { le: ends_with(typ, "le"@) })
    } else if ends_with(typ, "le"@) || ends_with(typ, "be"@) {
        match spec_parse_width(strip_all(strip_all(typ, "le"@), "be"@)) {
            Some(n) => Some(FieldKind::FixedBytes { n, le: ends_with(typ, "le"@) }),
            None => None,
        }
    } else if typ == "ascii_hex"@ {
        Some(FieldKind::AsciiHex)
    } else {
        match spec_parse_width(typ) {
            Some(n) => Some(FieldKind::FixedBytes { n, le: true }),
            None => None,
        }
    }
}

/// The field that a spec of the form `name:kind` stands for.
pub open spec fn spec_parse_field_spec(s: Seq<char>) -> Option<FieldSpecView> {
    match after(s, ':') {
        None => None,
        Some(typ) => match spec_field_kind(typ) {
            None => None,
            Some(kind) => Some(FieldSpecView { name: before(s, ':'), kind }),
        },
    }
}

/// The end of `cs[from..to]` once every run of the two-character `suffix`
/// at its end is taken away.
fn strip_all_end(cs: &Vec<char>, from: usize, to: usize, suffix: &str) -> (end: usize)
    requires
        from <= to <= cs.len(),
        suffix@.len() == 2,
    ensures
        from <= end <= to,
        cs@.subrange(from as int, end as int) == strip_all(
            cs@.subrange(from as int, to as int),
            suffix@,
        ),
{
    let mut end = to;
    while range_ends_with(cs, from, end, suffix)
        invariant
            from <= end <= to <= cs.len(),
            suffix@.len() == 2,
            strip_all(cs@.subrange(from as int, end as int), suffix@) == strip_all(
                cs@.subrange(from as int, to as int),
                suffix@,
            ),
        decreases end,
    {
        let ghost cur = cs@.subrange(from as int, end as int);
        assert(cur.take(cur.len() - 2) =~= cs@.subrange(from as int, end - 2));
        end = end - 2;
    }
    end
}

/// Reads the part of a field spec after the colon, which is `cs[from..]`.
fn parse_field_kind(cs: &Vec<char>, from: usize) -> (r: Option<FieldKind>)
    requires
        from <= cs.len(),
    ensures
        r == spec_field_kind(cs@.skip(from as int)),
{
    let to = cs.len();
    let ghost typ = cs@.skip(from as int);
    assert(cs@.subrange(from as int, to as int) =~= typ);
    proof {
        reveal_strlit("le");
        reveal_strlit("be");
    }
    if range_is(cs, from, to, "rest") || range_is(cs, from, to, "..") || range_is(
        cs,
        from,
        to,
        "bytes",
    ) {
        return Some(FieldKind::Bytes);
    }
    if range_starts_with(cs, from, to, "words") {
        return Some(FieldKind::Words { le: range_ends_with(cs, from, to, "le") });
    }
    let le = range_ends_with(cs, from, to, "le");
    if le || range_ends_with(cs, from, to, "be") {
        let e1 = strip_all_end(cs, from, to, "le");
        let e2 = strip_all_end(cs, from, e1, "be");
        return match parse_bounded(cs, from, e2, NumberBase::Decimal, usize::MAX as u64) {
            Some(n) => Some(FieldKind::FixedBytes { n: n as usize, le }),
            None => None,
        };
    }
    if range_is(cs, from, to, "ascii_hex") {
        return Some(FieldKind::AsciiHex);
    }
    match parse_bounded(cs, from, to, NumberBase::Decimal, usize::MAX as u64) {
        Some(n) => Some(FieldKind::FixedBytes { n: n as usize, le: true }),
        None => None,
    }
}

/// Parses a field spec of the form `name:kind`.
pub fn parse_field_spec(s: &str) -> (r: Result<FieldSpec, MelsecError>)
    ensures
        match spec_parse_field_spec(s@) {
            Some(f) => r is Ok && r->Ok_0@ == f,
            None => r is Err && r->Err_0 is Protocol,
        },
{
    let cs = chars_of(s);
    assert(cs@.subrange(0, cs.len() as int) =~= s@);
    let colon = match find_char(&cs, 0, cs.len(), ':') {
        Some(i) => i,
        None => {
            return Err(MelsecError::protocol("invalid field spec"));
        },
    };
    let name = string_of(&cs, 0, colon);
    assert(cs@.subrange(0, colon as int) =~= s@.take(colon as int));
    match parse_field_kind(&cs, colon + 1) {
        Some(kind) => Ok(FieldSpec { name, kind }),
        None => Err(MelsecError::protocol("unsupported field type")),
    }
}

/// The directive that a response format of the form
/// `name:directive[:variant]` stands for. Packed bits count from the least
/// significant bit unless the variant is `msb`; nibbles come high nibble
/// first unless the variant is `low`.
pub open spec fn spec_parse_response_format(s: Seq<char>) -> Option<ResponseEntryView> {
    match after(s, ':') {
        None => None,
        Some(rest) => {
            let name = before(s, ':');
            let kind = before(rest, ':');
            let variant = match after(rest, ':') {
                Some(tail) => Some(before(tail, ':')),
                None => None,
            };
            if kind == "blocks_words_le"@ {
                Some(ResponseEntryView::BlockWords { name, le: true })
            } else if kind == "blocks_words_be"@ {
                Some(ResponseEntryView::BlockWords { name, le: false })
            } else if kind == "blocks_bits_packed"@ {
                Some(
                    ResponseEntryView::BlockBitsPacked { name, lsb_first: variant != Some("msb"@) },
                )
            } else if kind == "blocks_nibbles"@ {
                Some(ResponseEntryView::BlockNibbles { name, high_first: variant != Some("low"@) })
            } else if kind == "ascii_hex"@ {
                Some(ResponseEntryView::AsciiHex { name })
            } else {
                None
            }
        },
    }
}

/// The end of the part of `cs[from..]` that stands before its first colon.
fn segment_end(cs: &Vec<char>, from: usize) -> (end: usize)
    requires
        from <= cs.len(),
    ensures
        from <= end <= cs.len(),
        cs@.subrange(from as int, end as int) == before(cs@.skip(from as int), ':'),
        match after(cs@.skip(from as int), ':') {
            Some(tail) => end < cs.len() && tail == cs@.skip(end + 1),
            None => end == cs.len(),
        },
{
    let ghost rest = cs@.skip(from as int);
    assert(cs@.subrange(from as int, cs.len() as int) =~= rest);
    match find_char(cs, from, cs.len(), ':') {
        Some(i) => {
            assert(cs@.subrange(from as int, from + i) =~= rest.take(i as int));
            assert(rest.skip(i + 1) =~= cs@.skip(from + i + 1));
            from + i
        },
        None => cs.len(),
    }
}

/// Parses one response format.
pub fn parse_response_format(s: &str) -> (r: Result<ResponseEntry, MelsecError>)
    ensures
        match spec_parse_response_format(s@) {
            Some(e) => r is Ok && r->Ok_0@ == e,
            None => r is Err && r->Err_0 is Protocol,
        },
{
    let cs = chars_of(s);
    assert(cs@.skip(0) =~= s@);
    let c1 = segment_end(&cs, 0);
    if c1 == cs.len() {
        return Err(MelsecError::protocol("invalid response_format"));
    }
    let name = string_of(&cs, 0, c1);
    let k0 = c1 + 1;
    let k1 = segment_end(&cs, k0);
    let ghost variant = match after(cs@.skip(k0 as int), ':') {
        Some(tail) => Some(before(tail, ':')),
        None => None,
    };
    let mut msb = false;
    let mut low = false;
    if k1 < cs.len() {
        let p0 = k1 + 1;
        let p1 = segment_end(&cs, p0);
        msb = range_is(&cs, p0, p1, "msb");
        low = range_is(&cs, p0, p1, "low");
    }
    assert(msb == (variant == Some("msb"@)));
    assert(low == (variant == Some("low"@)));
    if range_is(&cs, k0, k1, "blocks_words_le") {
        Ok(ResponseEntry::BlockWords { name, le: true })
    } else if range_is(&cs, k0, k1, "blocks_words_be") {
        Ok(ResponseEntry::BlockWords { name, le: false })
    } else if range_is(&cs, k0, k1, "blocks_bits_packed") {
        Ok(ResponseEntry::BlockBitsPacked { name, lsb_first: !msb })
    } else if range_is(&cs, k0, k1, "blocks_nibbles") {
        Ok(ResponseEntry::BlockNibbles { name, high_first: !low })
    } else if range_is(&cs, k0, k1, "ascii_hex") {
        Ok(ResponseEntry::AsciiHex { name })
    } else {
        Err(MelsecError::protocol("unsupported response kind"))
    }
}

/// What a list of texts parses to under `f`, or `None` where one of them
/// fails.
pub open spec fn parse_all<T>(items: Seq<Seq<char>>, f: spec_fn(Seq<char>) -> Option<T>) -> Option<
    Seq<T>,
>
    decreases items.len(),
{
    if items.len() == 0 {
        Some(Seq::empty())
    } else {
        match (parse_all(items.drop_last(), f), f(items.last())) {
            (Some(done), Some(x)) => Some(done.push(x)),
            _ => None,
        }
    }
}

/// The fields that a list of field specs stands for.
pub open spec fn spec_parse_field_specs(items: Seq<Seq<char>>) -> Option<Seq<FieldSpecView>> {
    parse_all(items, |s: Seq<char>| spec_parse_field_spec(s))
}

/// The directives that a list of response formats stands for.
pub open spec fn spec_parse_response_formats(items: Seq<Seq<char>>) -> Option<
    Seq<ResponseEntryView>,
> {
    parse_all(items, |s: Seq<char>| spec_parse_response_format(s))
}

/// Parses a list of field specs.
pub fn parse_field_specs(items: &Vec<String>) -> (r: Result<Vec<FieldSpec>, MelsecError>)
    ensures
        match spec_parse_field_specs(items.deep_view()) {
            Some(fs) => r is Ok && r->Ok_0.deep_view() == fs,
            None => r is Err && r->Err_0 is Protocol,
        },
{
    let ghost f = |s: Seq<char>| spec_parse_field_spec(s);
    let ghost all = items.deep_view();
    let mut out: Vec<FieldSpec> = Vec::new();
    let mut i: usize = 0;
    assert(all.take(0) =~= Seq::<Seq<char>>::empty());
    assert(out.deep_view() =~= Seq::<FieldSpecView>::empty());
    while i < items.len()
        invariant
            i <= items.len(),
            all == items.deep_view(),
            f == |s: Seq<char>| spec_parse_field_spec(s),
            parse_all(all.take(i as int), f) == Some(out.deep_view()),
        decreases items.len() - i,
    {
        let ghost before_view = out.deep_view();
        proof {
            assert(all.take(i + 1).drop_last() =~= all.take(i as int));
            assert(all.take(i + 1).last() == items@[i as int]@);
        }
        match parse_field_spec(items[i].as_str()) {
            Ok(fs) => {
                out.push(fs);
                assert(out.deep_view() =~= before_view.push(fs@));
            },
            Err(e) => {
                proof {
                    lemma_parse_all_fails(all, f, i as int);
                }
                return Err(e);
            },
        }
        i = i + 1;
    }
    assert(all.take(i as int) =~= all);
    Ok(out)
}

/// Parses a list of response formats.
pub fn parse_response_formats(formats: &Vec<String>) -> (r: Result<Vec<ResponseEntry>, MelsecError>)
    ensures
        match spec_parse_response_formats(formats.deep_view()) {
            Some(es) => r is Ok && r->Ok_0.deep_view() == es,
            None => r is Err && r->Err_0 is Protocol,
        },
{
    let ghost f = |s: Seq<char>| spec_parse_response_format(s);
    let ghost all = formats.deep_view();
    let mut out: Vec<ResponseEntry> = Vec::new();
    let mut i: usize = 0;
    assert(all.take(0) =~= Seq::<Seq<char>>::empty());
    assert(out.deep_view() =~= Seq::<ResponseEntryView>::empty());
    while i < formats.len()
        invariant
            i <= formats.len(),
            all == formats.deep_view(),
            f == |s: Seq<char>| spec_parse_response_format(s),
            parse_all(all.take(i as int), f) == Some(out.deep_view()),
        decreases formats.len() - i,
    {
        let ghost before_view = out.deep_view();
        proof {
            assert(all.take(i + 1).drop_last() =~= all.take(i as int));
            assert(all.take(i + 1).last() == formats@[i as int]@);
        }
        match parse_response_format(formats[i].as_str()) {
            Ok(e) => {
                out.push(e);
                assert(out.deep_view() =~= before_view.push(e@));
            },
            Err(e) => {
                proof {
                    lemma_parse_all_fails(all, f, i as int);
                }
                return Err(e);
            },
        }
        i = i + 1;
    }
    assert(all.take(i as int) =~= all);
    Ok(out)
}

/// Where one item fails, the whole list fails.
pub proof fn lemma_parse_all_fails<T>(
    items: Seq<Seq<char>>,
    f: spec_fn(Seq<char>) -> Option<T>,
    k: int,
)
    requires
        0 <= k < items.len(),
        f(items[k]) is None,
    ensures
        parse_all(items, f) is None,
    decreases items.len(),
{
    if k < items.len() - 1 {
        lemma_parse_all_fails(items.drop_last(), f, k);
    }
}

impl DeepView for BlockTemplateRaw {
    type V = BlockTemplateRawView;

    open spec fn deep_view(&self) -> BlockTemplateRawView {
        BlockTemplateRawView {
            name: self.name@,
            repeat_field: self.repeat_field@,
            fields: self.fields.deep_view(),
            device_family: self.device_family.deep_view(),
        }
    }
}

impl DeepView for CommandSpecRaw {
    type V = CommandSpecRawView;

    open spec fn deep_view(&self) -> CommandSpecRawView {
        CommandSpecRawView {
            id: self.id,
            name: self.name.deep_view(),
            command_code: self.command_code,
            subcommand: self.subcommand.deep_view(),
            device_family: self.device_family.deep_view(),
            limits: self.limits.deep_view(),
            request_format: self.request_format.deep_view(),
            response_format: self.response_format.deep_view(),
            block_templates: self.block_templates.deep_view(),
        }
    }
}

/// The content of a `BlockTemplateRaw`.
pub struct BlockTemplateRawView {
    pub name: Seq<char>,
    pub repeat_field: Seq<char>,
    pub fields: Seq<Seq<char>>,
    pub device_family: Option<Seq<char>>,
}

/// The content of a `CommandSpecRaw` that a spec is made of.
pub struct CommandSpecRawView {
    pub id: Command,
    pub name: Option<NameView>,
    pub command_code: u16,
    pub subcommand: Option<Json>,
    pub device_family: Option<Seq<char>>,
    pub limits: Option<Json>,
    pub request_format: Seq<Seq<char>>,
    pub response_format: Seq<Seq<char>>,
    pub block_templates: Option<Seq<BlockTemplateRawView>>,
}

/// The family that a name stands for: `Bit`, `Word` and `DoubleWord`, also
/// in lower case; any other name stands for `Any`.
pub open spec fn spec_family(name: Seq<char>) -> DeviceFamily {
    if name == "Bit"@ || name == "bit"@ {
        DeviceFamily::Bit
    } else if name == "Word"@ || name == "word"@ {
        DeviceFamily::Word
    } else if name == "DoubleWord"@ || name == "doubleword"@ {
        DeviceFamily::DoubleWord
    } else {
        DeviceFamily::Any
    }
}

/// Reads a family from its name.
pub fn parse_family(name: &str) -> (r: DeviceFamily)
    ensures
        r == spec_family(name@),
{
    if str_eq(name, "Bit") || str_eq(name, "bit") {
        DeviceFamily::Bit
    } else if str_eq(name, "Word") || str_eq(name, "word") {
        DeviceFamily::Word
    } else if str_eq(name, "DoubleWord") || str_eq(name, "doubleword") {
        DeviceFamily::DoubleWord
    } else {
        DeviceFamily::Any
    }
}

/// The block template that a record stands for.
pub open spec fn spec_parse_block_template(raw: BlockTemplateRawView) -> Option<BlockTemplateView> {
    match spec_parse_field_specs(raw.fields) {
        Some(fields) => Some(
            BlockTemplateView {
                name: raw.name,
                repeat_field: raw.repeat_field,
                fields,
                device_family: match raw.device_family {
                    Some(n) => Some(spec_family(n)),
                    None => None,
                },
            },
        ),
        None => None,
    }
}

/// The block templates that a list of records stands for, or `None` where a
/// field spec of one of them is rejected.
pub open spec fn spec_parse_block_templates(raws: Seq<BlockTemplateRawView>) -> Option<
    Seq<BlockTemplateView>,
>
    decreases raws.len(),
{
    if raws.len() == 0 {
        Some(Seq::empty())
    } else {
        match (
            spec_parse_block_templates(raws.drop_last()),
            spec_parse_block_template(raws.last()),
        ) {
            (Some(done), Some(b)) => Some(done.push(b)),
            _ => None,
        }
    }
}

proof fn lemma_block_templates_fail(raws: Seq<BlockTemplateRawView>, k: int)
    requires
        0 <= k < raws.len(),
        spec_parse_block_template(raws[k]) is None,
    ensures
        spec_parse_block_templates(raws) is None,
    decreases raws.len(),
{
    if k < raws.len() - 1 {
        lemma_block_templates_fail(raws.drop_last(), k);
    }
}

/// The per-series table that the entries of a subcommand table stand for:
/// the entries that hold an integer, each of which must fit 16 bits.
pub open spec fn spec_series_table(entries: Seq<(Seq<char>, Json)>) -> Option<Seq<(Seq<char>, u16)>>
    decreases entries.len(),
{
    if entries.len() == 0 {
        Some(Seq::empty())
    } else {
        match spec_series_table(entries.drop_last()) {
            None => None,
            Some(done) => match entries.last().1 {
                Json::UInt(n) => if n <= 0xFFFF {
                    Some(done.push((entries.last().0, n as u16)))
                } else {
                    None
                },
                Json::Int(_) => None,
                _ => Some(done),
            },
        }
    }
}

proof fn lemma_series_table_fails(entries: Seq<(Seq<char>, Json)>, k: int)
    requires
        0 <= k < entries.len(),
        match entries[k].1 {
            Json::UInt(n) => n > 0xFFFF,
            Json::Int(_) => true,
            _ => false,
        },
    ensures
        spec_series_table(entries) is None,
    decreases entries.len(),
{
    if k < entries.len() - 1 {
        lemma_series_table_fails(entries.drop_last(), k);
    }
}

/// The subcommand that the value of a record stands for: an integer that
/// fits 16 bits, or a table from series to such integers. The outer `None`
/// says that the value is rejected.
pub open spec fn spec_subcommand(v: Option<Json>) -> Option<Option<SubcommandView>> {
    match v {
        None => Some(None),
        Some(Json::UInt(n)) => if n <= 0xFFFF {
            Some(Some(SubcommandView::Single(n as u16)))
        } else {
            None
        },
        Some(Json::Object(entries)) => match spec_series_table(entries) {
            Some(t) => Some(Some(SubcommandView::PerSeries(t))),
            None => None,
        },
        Some(_) => None,
    }
}

/// One limit of a limits table: the integer under `key`, if it is not
/// negative.
pub open spec fn spec_limit(table: Json, key: Seq<char>) -> Option<u64> {
    match table.get(key) {
        Some(Json::UInt(n)) => Some(n),
        _ => None,
    }
}

/// The limits that the value of a record stands for. Anything but a table
/// stands for no limits.
pub open spec fn spec_limits(v: Option<Json>) -> Option<Limits> {
    match v {
        Some(Json::Object(entries)) => Some(
            Limits {
                word_points: spec_limit(Json::Object(entries), "word_points"@),
                dword_points: spec_limit(Json::Object(entries), "dword_points"@),
                bit_points: spec_limit(Json::Object(entries), "bit_points"@),
            },
        ),
        _ => None,
    }
}

/// The typed spec that a record stands for, or `None` where a field spec,
/// a response format or the subcommand is rejected.
pub open spec fn spec_parse_command(raw: CommandSpecRawView) -> Option<CommandSpecView> {
    match (
        spec_parse_field_specs(raw.request_format),
        spec_parse_block_templates(
            match raw.block_templates {
                Some(b) => b,
                None => Seq::empty(),
            },
        ),
        spec_parse_response_formats(raw.response_format),
        spec_subcommand(raw.subcommand),
    ) {
        (Some(request_fields), Some(block_templates), Some(response_entries), Some(subcommand)) => Some(
            CommandSpecView {
                id: raw.id,
                name: raw.name,
                command_code: raw.command_code,
                subcommand,
                device_family: match raw.device_family {
                    Some(n) => spec_family(n),
                    None => DeviceFamily::Any,
                },
                request_fields,
                response_format: raw.response_format,
                response_entries,
                block_templates,
                limits: spec_limits(raw.limits),
            },
        ),
        _ => None,
    }
}

fn copy_text(s: &Option<String>) -> (r: Option<String>)
    ensures
        r.deep_view() == s.deep_view(),
{
    match s {
        Some(t) => Some(t.clone()),
        None => None,
    }
}

fn copy_texts(items: &Vec<String>) -> (r: Vec<String>)
    ensures
        r.deep_view() == items.deep_view(),
{
    let mut out: Vec<String> = Vec::new();
    let mut i: usize = 0;
    while i < items.len()
        invariant
            i <= items.len(),
            out.len() == i,
            forall|k: int| 0 <= k < i ==> (#[trigger] out@[k])@ == items@[k]@,
        decreases items.len() - i,
    {
        out.push(items[i].clone());
        i = i + 1;
    }
    assert(out.deep_view() =~= items.deep_view());
    out
}

fn parse_block_template(raw: &BlockTemplateRaw) -> (r: Result<BlockTemplate, MelsecError>)
    ensures
        match spec_parse_block_template(raw.deep_view()) {
            Some(b) => r is Ok && r->Ok_0@ == b,
            None => r is Err && r->Err_0 is Protocol,
        },
{
    let fields = match parse_field_specs(&raw.fields) {
        Ok(f) => f,
        Err(e) => {
            return Err(e);
        },
    };
    let device_family = match &raw.device_family {
        Some(n) => Some(parse_family(n.as_str())),
        None => None,
    };
    Ok(
        BlockTemplate {
            name: raw.name.clone(),
            repeat_field: raw.repeat_field.clone(),
            fields,
            device_family,
        },
    )
}

#[verifier::loop_isolation(false)]
fn parse_subcommand(v: &Option<Value>) -> (r: Result<Option<SubcommandSpec>, MelsecError>)
    ensures
        match spec_subcommand(v.deep_view()) {
            Some(sub) => r is Ok && r->Ok_0.deep_view() == sub,
            None => r is Err && r->Err_0 is Protocol,
        },
{
    match v {
        None => Ok(None),
        Some(Value::UInt(n)) => {
            if *n <= 0xFFFF {
                Ok(Some(SubcommandSpec::Single(*n as u16)))
            } else {
                Err(MelsecError::protocol("subcommand integer out of range"))
            }
        },
        Some(Value::Object(entries)) => {
            let ghost es = v->0@->Object_0;
            let mut table: Vec<(String, u16)> = Vec::new();
            let mut i: usize = 0;
            assert(es.take(0) =~= Seq::<(Seq<char>, Json)>::empty());
            assert(table.deep_view() =~= Seq::<(Seq<char>, u16)>::empty());
            while i < entries.len()
                invariant
                    i <= entries.len(),
                    es == v->0@->Object_0,
                    es.len() == entries.len(),
                    forall|k: int| 0 <= k < es.len() ==> es[k] == (entries@[k].0@, entries@[k].1@),
                    spec_series_table(es.take(i as int)) == Some(table.deep_view()),
                decreases entries.len() - i,
            {
                let ghost before_view = table.deep_view();
                proof {
                    assert(es.take(i + 1).drop_last() =~= es.take(i as int));
                    assert(es.take(i + 1).last() == es[i as int]);
                }
                match &entries[i].1 {
                    Value::UInt(n) => {
                        if *n > 0xFFFF {
                            proof {
                                lemma_series_table_fails(es, i as int);
                            }
                            return Err(
                                MelsecError::protocol("subcommand table value out of range"),
                            );
                        }
                        table.push((entries[i].0.clone(), *n as u16));
                        assert(table.deep_view() =~= before_view.push((es[i as int].0, *n as u16)));
                    },
                    Value::Int(_) => {
                        proof {
                            lemma_series_table_fails(es, i as int);
                        }
                        return Err(MelsecError::protocol("subcommand table value out of range"));
                    },
                    _ => {},
                }
                i = i + 1;
            }
            assert(es.take(i as int) =~= es);
            Ok(Some(SubcommandSpec::PerSeries(table)))
        },
        Some(_) => Err(MelsecError::protocol("invalid subcommand field type")),
    }
}

fn parse_limit(table: &Value, key: &str) -> (r: Option<u64>)
    ensures
        r == spec_limit(table@, key@),
{
    match table.get(key) {
        Some(Value::UInt(n)) => Some(*n),
        _ => None,
    }
}

fn parse_limits(v: &Option<Value>) -> (r: Option<Limits>)
    ensures
        r == spec_limits(v.deep_view()),
{
    match v {
        Some(table) => {
            if table.is_object() {
                Some(
                    Limits {
                        word_points: parse_limit(table, "word_points"),
                        dword_points: parse_limit(table, "dword_points"),
                        bit_points: parse_limit(table, "bit_points"),
                    },
                )
            } else {
                None
            }
        },
        None => None,
    }
}

fn copy_name(name: &Option<NameField>) -> (r: Option<NameField>)
    ensures
        r.deep_view() == name.deep_view(),
{
    match name {
        Some(n) => Some(NameField { jp: copy_text(&n.jp), en: copy_text(&n.en) }),
        None => None,
    }
}

/// Parses one command record into its typed spec.
pub fn parse_command(raw: &CommandSpecRaw) -> (r: Result<CommandSpec, MelsecError>)
    ensures
        match spec_parse_command(raw.deep_view()) {
            Some(c) => r is Ok && r->Ok_0@ == c,
            None => r is Err && r->Err_0 is Protocol,
        },
{
    let request_fields = match parse_field_specs(&raw.request_format) {
        Ok(f) => f,
        Err(e) => {
            return Err(e);
        },
    };
    let block_templates = match CommandRegistry::parse_block_templates(&raw.block_templates) {
        Ok(b) => b,
        Err(e) => {
            return Err(e);
        },
    };
    let response_entries = match parse_response_formats(&raw.response_format) {
        Ok(r) => r,
        Err(e) => {
            return Err(e);
        },
    };
    let subcommand = match parse_subcommand(&raw.subcommand) {
        Ok(s) => s,
        Err(e) => {
            return Err(e);
        },
    };
    let device_family = match &raw.device_family {
        Some(n) => parse_family(n.as_str()),
        None => DeviceFamily::Any,
    };
    Ok(
        CommandSpec {
            id: raw.id,
            name: copy_name(&raw.name),
            command_code: raw.command_code,
            subcommand,
            device_family,
            request_fields,
            response_format: copy_texts(&raw.response_format),
            response_entries,
            block_templates,
            limits: parse_limits(&raw.limits),
        },
    )
}

/// The specs of the commands, at most one for each id.
#[derive(Debug)]
pub struct CommandRegistry {
    by_id: Vec<CommandSpec>,
}

impl View for CommandRegistry {
    type V = Seq<CommandSpecView>;

    closed spec fn view(&self) -> Seq<CommandSpecView> {
        self.by_id.deep_view()
    }
}

/// The place of the spec with the given id.
pub open spec fn index_of_id(specs: Seq<CommandSpecView>, id: Command) -> Option<int>
    decreases specs.len(),
{
    if specs.len() == 0 {
        None
    } else if specs[0].id == id {
        Some(0)
    } else {
        match index_of_id(specs.skip(1), id) {
            Some(i) => Some(i + 1),
            None => None,
        }
    }
}

pub proof fn lemma_index_of_id(specs: Seq<CommandSpecView>, id: Command)
    ensures
        match index_of_id(specs, id) {
            Some(i) => 0 <= i < specs.len() && specs[i].id == id && forall|k: int|
                0 <= k < i ==> (#[trigger] specs[k]).id != id,
            None => forall|k: int| 0 <= k < specs.len() ==> (#[trigger] specs[k]).id != id,
        },
    decreases specs.len(),
{
    if specs.len() > 0 && specs[0].id != id {
        let t = specs.skip(1);
        lemma_index_of_id(t, id);
        match index_of_id(t, id) {
            Some(i) => {
                assert(specs[i + 1] == t[i]);
                assert forall|k: int| 0 <= k < i + 1 implies (#[trigger] specs[k]).id != id by {
                    if k > 0 {
                        assert(specs[k] == t[k - 1]);
                    }
                }
            },
            None => {
                assert forall|k: int| 0 <= k < specs.len() implies (#[trigger] specs[k]).id != id by {
                    if k > 0 {
                        assert(specs[k] == t[k - 1]);
                    }
                }
            },
        }
    }
}

/// The specs with `c` put in: in the place of the spec with the same id, if
/// there is one, else at the end.
pub open spec fn put(specs: Seq<CommandSpecView>, c: CommandSpecView) -> Seq<CommandSpecView> {
    match index_of_id(specs, c.id) {
        Some(i) => specs.update(i, c),
        None => specs.push(c),
    }
}

/// True if no two specs share an id.
pub open spec fn unique_ids(specs: Seq<CommandSpecView>) -> bool {
    forall|i: int, j: int|
        0 <= i < j < specs.len() ==> (#[trigger] specs[i]).id != (#[trigger] specs[j]).id
}

/// The registry that a list of records stands for: each record parsed, a
/// later record taking the place of an earlier one with the same id. `None`
/// where a record is rejected.
pub open spec fn spec_registry(raws: Seq<CommandSpecRawView>) -> Option<Seq<CommandSpecView>>
    decreases raws.len(),
{
    if raws.len() == 0 {
        Some(Seq::empty())
    } else {
        match (spec_registry(raws.drop_last()), spec_parse_command(raws.last())) {
            (Some(done), Some(c)) => Some(put(done, c)),
            _ => None,
        }
    }
}

proof fn lemma_registry_fails(raws: Seq<CommandSpecRawView>, k: int)
    requires
        0 <= k < raws.len(),
        spec_parse_command(raws[k]) is None,
    ensures
        spec_registry(raws) is None,
    decreases raws.len(),
{
    if k < raws.len() - 1 {
        lemma_registry_fails(raws.drop_last(), k);
    }
}

impl CommandRegistry {
    #[verifier::type_invariant]
    spec fn inv(self) -> bool {
        unique_ids(self.by_id.deep_view())
    }

    /// Parses the block templates of a record.
    #[verifier::loop_isolation(false)]
    pub fn parse_block_templates(bt_raws: &Option<Vec<BlockTemplateRaw>>) -> (r: Result<
        Vec<BlockTemplate>,
        MelsecError,
    >)
        ensures
            match spec_parse_block_templates(
                match bt_raws.deep_view() {
                    Some(b) => b,
                    None => Seq::empty(),
                },
            ) {
                Some(bs) => r is Ok && r->Ok_0.deep_view() == bs,
                None => r is Err && r->Err_0 is Protocol,
            },
    {
        let mut out: Vec<BlockTemplate> = Vec::new();
        assert(out.deep_view() =~= Seq::<BlockTemplateView>::empty());
        match bt_raws {
            None => Ok(out),
            Some(list) => {
                let ghost all = list.deep_view();
                let mut i: usize = 0;
                assert(all.take(0) =~= Seq::<BlockTemplateRawView>::empty());
                while i < list.len()
                    invariant
                        i <= list.len(),
                        all == list.deep_view(),
                        spec_parse_block_templates(all.take(i as int)) == Some(out.deep_view()),
                    decreases list.len() - i,
                {
                    let ghost before_view = out.deep_view();
                    proof {
                        assert(all.take(i + 1).drop_last() =~= all.take(i as int));
                        assert(all.take(i + 1).last() == list@[i as int].deep_view());
                    }
                    match parse_block_template(&list[i]) {
                        Ok(b) => {
                            out.push(b);
                            assert(out.deep_view() =~= before_view.push(b@));
                        },
                        Err(e) => {
                            proof {
                                lemma_block_templates_fail(all, i as int);
                            }
                            return Err(e);
                        },
                    }
                    i = i + 1;
                }
                assert(all.take(i as int) =~= all);
                Ok(out)
            },
        }
    }

    /// Parses the records of a schema document into the specs of a
    /// registry, at most one for each id.
    pub fn parse_command_file(commands: &Vec<CommandSpecRaw>) -> (r: Result<
        Vec<CommandSpec>,
        MelsecError,
    >)
        ensures
            match spec_registry(commands.deep_view()) {
                Some(specs) => r is Ok && r->Ok_0.deep_view() == specs && unique_ids(specs),
                None => r is Err && r->Err_0 is Protocol,
            },
    {
        let ghost all = commands.deep_view();
        let mut out: Vec<CommandSpec> = Vec::new();
        let mut i: usize = 0;
        assert(all.take(0) =~= Seq::<CommandSpecRawView>::empty());
        assert(out.deep_view() =~= Seq::<CommandSpecView>::empty());
        while i < commands.len()
            invariant
                i <= commands.len(),
                all == commands.deep_view(),
                spec_registry(all.take(i as int)) == Some(out.deep_view()),
                unique_ids(out.deep_view()),
            decreases commands.len() - i,
        {
            let ghost before_view = out.deep_view();
            proof {
                assert(all.take(i + 1).drop_last() =~= all.take(i as int));
                assert(all.take(i + 1).last() == commands@[i as int].deep_view());
            }
            match parse_command(&commands[i]) {
                Ok(c) => {
                    let ghost cv = c@;
                    proof {
                        lemma_index_of_id(before_view, cv.id);
                    }
                    let mut j: usize = 0;
                    let mut found: Option<usize> = None;
                    while j < out.len()
                        invariant_except_break
                            found is None,
                            forall|k: int| 0 <= k < j ==> (#[trigger] before_view[k]).id != c.id,
                        invariant
                            j <= out.len(),
                            before_view == out.deep_view(),
                        ensures
                            match found {
                                Some(at) => at < out.len() && before_view[at as int].id == c.id
                                    && forall|k: int|
                                    0 <= k < at ==> (#[trigger] before_view[k]).id != c.id,
                                None => forall|k: int|
                                    0 <= k < out.len() ==> (#[trigger] before_view[k]).id != c.id,
                            },
                        decreases out.len() - j,
                    {
                        if out[j].id == c.id {
                            assert(before_view[j as int].id == c.id);
                            found = Some(j);
                            break ;
                        }
                        j = j + 1;
                    }
                    match found {
                        Some(at) => {
                            out[at] = c;
                            assert(out.deep_view() =~= before_view.update(at as int, cv));
                        },
                        None => {
                            out.push(c);
                            assert(out.deep_view() =~= before_view.push(cv));
                        },
                    }
                },
                Err(e) => {
                    proof {
                        lemma_registry_fails(all, i as int);
                    }
                    return Err(e);
                },
            }
            i = i + 1;
        }
        assert(all.take(i as int) =~= all);
        Ok(out)
    }

    /// Makes the registry that the records of a schema document stand for.
    pub fn from_raw(commands: &Vec<CommandSpecRaw>) -> (r: Result<CommandRegistry, MelsecError>)
        ensures
            match spec_registry(commands.deep_view()) {
                Some(specs) => r is Ok && r->Ok_0@ == specs,
                None => r is Err && r->Err_0 is Protocol,
            },
    {
        match CommandRegistry::parse_command_file(commands) {
            Ok(by_id) => Ok(CommandRegistry { by_id }),
            Err(e) => Err(e),
        }
    }

    /// The spec of the command with the given id.
    #[verifier::loop_isolation(false)]
    pub fn get(&self, id: Command) -> (r: Option<&CommandSpec>)
        ensures
            unique_ids(self@),
            match index_of_id(self@, id) {
                Some(i) => r is Some && r->0@ == self@[i],
                None => r is None,
            },
    {
        proof {
            use_type_invariant(self);
            lemma_index_of_id(self@, id);
        }
        let mut i: usize = 0;
        while i < self.by_id.len()
            invariant
                i <= self.by_id.len(),
                forall|k: int| 0 <= k < i ==> (#[trigger] self@[k]).id != id,
            decreases self.by_id.len() - i,
        {
            if self.by_id[i].id == id {
                assert(self@[i as int].id == id);
                return Some(&self.by_id[i]);
            }
            i = i + 1;
        }
        None
    }

    /// The spec of the command with the given name.
    pub fn get_by_str(&self, id: &str) -> (r: Option<&CommandSpec>)
        ensures
            match Command::spec_from_str(id@) {
                Some(c) => match index_of_id(self@, c) {
                    Some(i) => r is Some && r->0@ == self@[i],
                    None => r is None,
                },
                None => r is None,
            },
    {
        match Command::from_str(id) {
            Ok(c) => self.get(c),
            Err(_) => None,
        }
    }
}

/// The value under `key` in a per-series table.
pub open spec fn table_get(table: Seq<(Seq<char>, u16)>, key: Seq<char>) -> Option<u16>
    decreases table.len(),
{
    if table.len() == 0 {
        None
    } else if table[0].0 == key {
        Some(table[0].1)
    } else {
        table_get(table.skip(1), key)
    }
}

/// The first value of a per-series table, or 0 for an empty one.
pub open spec fn table_first(table: Seq<(Seq<char>, u16)>) -> u16 {
    if table.len() > 0 {
        table[0].1
    } else {
        0
    }
}

/// The subcommand that goes into a request: the single value, or from the
/// per-series table the value of the requested series, else that of Q,
/// else the first. 0 where the spec names none.
pub open spec fn spec_request_subcommand(sub: Option<SubcommandView>, series: Option<PLCSeries>) -> u16 {
    match sub {
        None => 0,
        Some(SubcommandView::Single(v)) => v,
        Some(SubcommandView::PerSeries(table)) => {
            let wanted = match series {
                Some(s) => table_get(table, s.spec_as_str()),
                None => None,
            };
            match wanted {
                Some(v) => v,
                None => match table_get(table, "Q"@) {
                    Some(v) => v,
                    None => table_first(table),
                },
            }
        },
    }
}

/// The subcommand under which a spec is found: the single value, or from
/// the per-series table the value of the requested series (of Q where none
/// is requested), else the first. 0 where the spec names none.
pub open spec fn spec_lookup_subcommand(sub: Option<SubcommandView>, series: Option<PLCSeries>) -> u16 {
    match sub {
        None => 0,
        Some(SubcommandView::Single(v)) => v,
        Some(SubcommandView::PerSeries(table)) => {
            let key = match series {
                Some(s) => s.spec_as_str(),
                None => "Q"@,
            };
            match table_get(table, key) {
                Some(v) => v,
                None => table_first(table),
            }
        },
    }
}

fn table_lookup(table: &Vec<(String, u16)>, key: &str) -> (r: Option<u16>)
    ensures
        r == table_get(table.deep_view(), key@),
{
    let ghost t = table.deep_view();
    let mut i: usize = 0;
    assert(t.skip(0) =~= t);
    while i < table.len()
        invariant
            i <= table.len(),
            t == table.deep_view(),
            table_get(t, key@) == table_get(t.skip(i as int), key@),
        decreases table.len() - i,
    {
        assert(t.skip(i as int)[0] == t[i as int]);
        assert(t.skip(i as int).skip(1) =~= t.skip(i + 1));
        if str_eq(table[i].0.as_str(), key) {
            return Some(table[i].1);
        }
        i = i + 1;
    }
    None
}

fn first_of(table: &Vec<(String, u16)>) -> (r: u16)
    ensures
        r == table_first(table.deep_view()),
{
    if table.len() > 0 {
        table[0].1
    } else {
        0
    }
}

impl CommandSpec {
    /// The subcommand that goes into a request for the given series.
    pub fn request_subcommand(&self, series: Option<PLCSeries>) -> (r: u16)
        ensures
            r == spec_request_subcommand(self@.subcommand, series),
    {
        match &self.subcommand {
            None => 0,
            Some(SubcommandSpec::Single(v)) => *v,
            Some(SubcommandSpec::PerSeries(table)) => {
                let wanted = match series {
                    Some(s) => table_lookup(table, s.as_str()),
                    None => None,
                };
                match wanted {
                    Some(v) => v,
                    None => match table_lookup(table, "Q") {
                        Some(v) => v,
                        None => first_of(table),
                    },
                }
            },
        }
    }

    /// The subcommand under which the spec is found for the given series.
    pub fn lookup_subcommand(&self, series: Option<PLCSeries>) -> (r: u16)
        ensures
            r == spec_lookup_subcommand(self@.subcommand, series),
    {
        match &self.subcommand {
            None => 0,
            Some(SubcommandSpec::Single(v)) => *v,
            Some(SubcommandSpec::PerSeries(table)) => {
                let key = match series {
                    Some(s) => s.as_str(),
                    None => "Q",
                };
                match table_lookup(table, key) {
                    Some(v) => v,
                    None => first_of(table),
                }
            },
        }
    }

    /// The display name in the requested language: `jp` or `ja` for the
    /// Japanese name, anything else for the English one; the other name
    /// where the requested one is missing.
    pub fn display_name(&self, lang: &str) -> (r: Option<&str>)
        ensures
            r.deep_view() == spec_display_name(self@.name, lang@),
    {
        let name = match &self.name {
            Some(n) => n,
            None => {
                return None;
            },
        };
        let jp: Option<&str> = match &name.jp {
            Some(s) => Some(s.as_str()),
            None => None,
        };
        let en: Option<&str> = match &name.en {
            Some(s) => Some(s.as_str()),
            None => None,
        };
        if str_eq(lang, "jp") || str_eq(lang, "ja") {
            match jp {
                Some(s) => Some(s),
                None => en,
            }
        } else {
            match en {
                Some(s) => Some(s),
                None => jp,
            }
        }
    }
}

/// The display name of a command in a language.
pub open spec fn spec_display_name(name: Option<NameView>, lang: Seq<char>) -> Option<Seq<char>> {
    match name {
        None => None,
        Some(n) => if lang == "jp"@ || lang == "ja"@ {
            match n.jp {
                Some(s) => Some(s),
                None => n.en,
            }
        } else {
            match n.en {
                Some(s) => Some(s),
                None => n.jp,
            }
        },
    }
}

/// The place of the first spec with the given command code whose
/// subcommand for the series is the given one.
pub open spec fn index_of_code_and_sub(
    specs: Seq<CommandSpecView>,
    command_code: u16,
    subcommand: u16,
    series: Option<PLCSeries>,
) -> Option<int>
    decreases specs.len(),
{
    if specs.len() == 0 {
        None
    } else if specs[0].command_code == command_code && spec_lookup_subcommand(
        specs[0].subcommand,
        series,
    ) == subcommand {
        Some(0)
    } else {
        match index_of_code_and_sub(specs.skip(1), command_code, subcommand, series) {
            Some(i) => Some(i + 1),
            None => None,
        }
    }
}

impl CommandRegistry {
    /// Finds a spec by command code and subcommand, resolving per-series
    /// subcommands for the given series. Of several that fit, the first of
    /// the registry is found.
    pub fn find_by_code_and_sub(
        &self,
        command_code: u16,
        subcommand: u16,
        plc_series: Option<PLCSeries>,
    ) -> (r: Option<&CommandSpec>)
        ensures
            match index_of_code_and_sub(self@, command_code, subcommand, plc_series) {
                Some(i) => 0 <= i < self@.len() && r is Some && r->0@ == self@[i],
                None => r is None,
            },
    {
        let ghost all = self@;
        let mut i: usize = 0;
        assert(all.skip(0) =~= all);
        while i < self.by_id.len()
            invariant
                i <= self.by_id.len(),
                all == self@,
                match index_of_code_and_sub(all.skip(i as int), command_code, subcommand, plc_series) {
                    Some(k) => index_of_code_and_sub(all, command_code, subcommand, plc_series)
                        == Some(k + i),
                    None => index_of_code_and_sub(all, command_code, subcommand, plc_series)
                        is None,
                },
            decreases self.by_id.len() - i,
        {
            assert(all.skip(i as int)[0] == all[i as int]);
            assert(all.skip(i as int).skip(1) =~= all.skip(i + 1));
            let spec = &self.by_id[i];
            assert(spec@ == all[i as int]);
            if spec.command_code == command_code && spec.lookup_subcommand(plc_series)
                == subcommand {
                return Some(spec);
            }
            i = i + 1;
        }
        None
    }

    /// The number of specs.
    pub fn len(&self) -> (r: usize)
        ensures
            r == self@.len(),
    {
        self.by_id.len()
    }
}

impl CommandRegistry {
    /// Makes a registry of typed specs. Fails where two specs share an
    /// id.
    #[verifier::loop_isolation(false)]
    pub fn from_specs(specs: Vec<CommandSpec>) -> (r: Result<CommandRegistry, MelsecError>)
        ensures
            r is Ok <==> unique_ids(specs.deep_view()),
            r is Ok ==> r->Ok_0@ == specs.deep_view(),
            r is Err ==> r->Err_0 is Protocol,
    {
        let ghost vs = specs.deep_view();
        let mut i: usize = 0;
        while i < specs.len()
            invariant
                i <= specs.len(),
                forall|a: int, b: int|
                    0 <= a < b < i ==> (#[trigger] vs[a]).id != (#[trigger] vs[b]).id,
            decreases specs.len() - i,
        {
            let mut j: usize = 0;
            while j < i
                invariant
                    j <= i < specs.len(),
                    forall|a: int| 0 <= a < j ==> (#[trigger] vs[a]).id != vs[i as int].id,
                decreases i - j,
            {
                if specs[j].id == specs[i].id {
                    assert(vs[j as int].id == vs[i as int].id);
                    return Err(MelsecError::protocol("duplicate command id"));
                }
                j = j + 1;
            }
            i = i + 1;
        }
        Ok(CommandRegistry { by_id: specs })
    }

    /// Puts this registry into the slot of the process-wide registry,
    /// which can be set once. Fails, and leaves the slot as it is, where
    /// it is set already.
    pub fn set_global(self, slot: &mut OnceSlot<CommandRegistry>) -> (r: Result<(), MelsecError>)
        ensures
            match old(slot).held() {
                None => r is Ok && final(slot).held() == Some(self),
                Some(_) => r == Err::<(), MelsecError>(MelsecError::AlreadyRegistered)
                    && final(slot).held() == old(slot).held(),
            },
    {
        match slot.set(self) {
            Ok(()) => Ok(()),
            Err(_) => Err(MelsecError::AlreadyRegistered),
        }
    }

    /// The process-wide registry, if one is set.
    pub fn global(slot: &OnceSlot<CommandRegistry>) -> (r: Option<&CommandRegistry>)
        ensures
            match slot.held() {
                Some(v) => r is Some && *r->0 == v,
                None => r is None,
            },
    {
        slot.get()
    }
}

} // verus!
