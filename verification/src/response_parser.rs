//! The response parser: from a command spec, the bundle that built the
//! request, and the bytes of the response body to structured data.

use vstd::prelude::*;
use vstd::string::*;
use crate::command_registry::{CommandSpec, CommandSpecView, ResponseEntry, ResponseEntryView};
use crate::device::{device_by_code, index_of_code, DeviceCatalog, DeviceType, DeviceView};
use crate::error::MelsecError;
use crate::mc_define::u16_from_le;
use crate::request_builder::all_hex;
use crate::text::owned;
use crate::value::{
    find_named, index_of_key, lemma_array_view, lemma_object_view, named_views, put_named, views,
    Json, Value,
};

verus! {

/// The named values with `value` put under `key`: in the place of the
/// value that the name has, if it has one, else at the end.
pub open spec fn put_entry(entries: Seq<(Seq<char>, Json)>, key: Seq<char>, value: Json) -> Seq<
    (Seq<char>, Json),
> {
    match index_of_key(entries, key) {
        Some(i) => entries.update(i, (key, value)),
        None => entries.push((key, value)),
    }
}

/// The named values with `item` added to the array under `key`. Where the
/// name has no array, it gets one that holds the item.
pub open spec fn push_array(entries: Seq<(Seq<char>, Json)>, key: Seq<char>, item: Json) -> Seq<
    (Seq<char>, Json),
> {
    match index_of_key(entries, key) {
        Some(i) => match entries[i].1 {
            Json::Array(items) => entries.update(i, (key, Json::Array(items.push(item)))),
            _ => entries.update(i, (key, Json::Array(seq![item]))),
        },
        None => entries.push((key, Json::Array(seq![item]))),
    }
}

/// The word at `at` in the given byte order.
pub open spec fn word_at(bytes: Seq<u8>, at: int, le: bool) -> u16 {
    if le {
        (bytes[at] as int + 256 * (bytes[at + 1] as int)) as u16
    } else {
        (256 * (bytes[at] as int) + bytes[at + 1] as int) as u16
    }
}

/// `count` words from `offset` on.
pub open spec fn words_of(bytes: Seq<u8>, offset: int, count: nat, le: bool) -> Seq<Json> {
    Seq::new(count, |i: int| Json::UInt(word_at(bytes, offset + 2 * i, le) as u64))
}

/// Bit `k` of a byte, bit 0 being the least significant.
pub open spec fn bit_of(b: u8, k: u8) -> bool {
    (b >> k) & 1 == 1
}

/// Bit `k` of a word, bit 0 being the least significant.
pub open spec fn bit_of_word(w: u16, k: u16) -> bool {
    (w >> k) & 1 == 1
}

/// Point `i` of a block of packed bits that starts at `offset`: bit
/// `i mod 8` of byte `i div 8`, counted from the least significant bit, or
/// from the most significant one.
pub open spec fn packed_bit(bytes: Seq<u8>, offset: int, i: int, lsb_first: bool) -> bool {
    let b = bytes[offset + i / 8];
    if lsb_first {
        bit_of(b, (i % 8) as u8)
    } else {
        bit_of(b, (7 - i % 8) as u8)
    }
}

/// `count` packed bits from `offset` on.
pub open spec fn bits_of(bytes: Seq<u8>, offset: int, count: nat, lsb_first: bool) -> Seq<Json> {
    Seq::new(count, |i: int| Json::Bool(packed_bit(bytes, offset, i, lsb_first)))
}

/// Point `i` of a block of nibbles that starts at `offset`: true where the
/// nibble is not 0. Two points share a byte; the first of them is the high
/// nibble where `high_first` holds.
pub open spec fn nibble_point(bytes: Seq<u8>, offset: int, i: int, high_first: bool) -> bool {
    let b = bytes[offset + i / 2];
    if (i % 2 == 0) == high_first {
        b / 16 != 0
    } else {
        b % 16 != 0
    }
}

/// `count` nibble points from `offset` on.
pub open spec fn nibbles_of(bytes: Seq<u8>, offset: int, count: nat, high_first: bool) -> Seq<Json> {
    Seq::new(count, |i: int| Json::Bool(nibble_point(bytes, offset, i, high_first)))
}

/// The 16 bits of a word, least significant first.
pub open spec fn bits16(w: u16) -> Seq<Json> {
    Seq::new(16, |i: int| Json::Bool(bit_of_word(w, i as u16)))
}

/// The text of bytes of ASCII.
pub open spec fn ascii_text(bytes: Seq<u8>) -> Seq<char> {
    Seq::new(bytes.len(), |i: int| bytes[i] as char)
}

/// The number of points that a block descriptor announces.
pub open spec fn block_count(block: Json) -> Option<nat> {
    match block.get("count"@) {
        Some(Json::UInt(n)) => if n <= usize::MAX {
            Some(n as nat)
        } else {
            None
        },
        _ => None,
    }
}

/// The block descriptors that the bundle holds under `name`: none where it
/// holds no array there.
pub open spec fn descriptors(params: Json, name: Seq<char>) -> Seq<Json> {
    match params.get(name) {
        Some(Json::Array(blocks)) => blocks,
        _ => Seq::empty(),
    }
}

/// The device code that holds for a block: its own, else that of the
/// bundle.
pub open spec fn code_for(block: Json, params: Json) -> Option<u64> {
    match block.get("device_code"@) {
        Some(Json::UInt(c)) => Some(c),
        _ => match params.get("device_code"@) {
            Some(Json::UInt(c)) => Some(c),
            _ => None,
        },
    }
}

/// True if a words block gets a view of its bits: it holds exactly one
/// word and addresses a device that the catalog has as a bit device.
pub open spec fn wants_bit_view(block: Json, params: Json, count: nat, devices: Seq<DeviceView>) -> bool {
    count == 1 && match code_for(block, params) {
        Some(c) => c <= 0xFF && match index_of_code(devices, c as u8) {
            Some(i) => devices[i].category == DeviceType::Bit,
            None => false,
        },
        None => false,
    }
}

/// The layouts of a block of points.
pub enum BlockShape {
    Words { le: bool },
    Bits { lsb_first: bool },
    Nibbles { high_first: bool },
}

impl BlockShape {
    /// The bytes that `count` points take.
    pub open spec fn bytes_needed(self, count: nat) -> nat {
        match self {
            BlockShape::Words { .. } => 2 * count,
            BlockShape::Bits { .. } => (count + 7) / 8,
            BlockShape::Nibbles { .. } => (count + 1) / 2,
        }
    }

    /// The points of a block of `count` points that starts at `offset`.
    pub open spec fn points(self, bytes: Seq<u8>, offset: int, count: nat) -> Seq<Json> {
        match self {
            BlockShape::Words { le } => words_of(bytes, offset, count, le),
            BlockShape::Bits { lsb_first } => bits_of(bytes, offset, count, lsb_first),
            BlockShape::Nibbles { high_first } => nibbles_of(bytes, offset, count, high_first),
        }
    }
}

/// Where the parser stands: the offset of the next byte, the blocks of the
/// entry in work, and the named values found so far.
pub struct Progress {
    pub offset: int,
    pub blocks: Seq<Json>,
    pub result: Seq<(Seq<char>, Json)>,
}

/// The progress after one block, or `None` where the descriptor announces
/// no count or the response is too short. A words block that wants a view
/// of its bits adds it to the array under `bit_blocks`.
pub open spec fn after_block(
    shape: BlockShape,
    block: Json,
    params: Json,
    bytes: Seq<u8>,
    devices: Seq<DeviceView>,
    at: Progress,
) -> Option<Progress> {
    match block_count(block) {
        None => None,
        Some(count) => if at.offset + shape.bytes_needed(count) > bytes.len() {
            None
        } else {
            Some(
                Progress {
                    offset: at.offset + shape.bytes_needed(count),
                    blocks: at.blocks.push(Json::Array(shape.points(bytes, at.offset, count))),
                    result: if shape is Words && wants_bit_view(block, params, count, devices) {
                        push_array(
                            at.result,
                            "bit_blocks"@,
                            Json::Array(bits16(word_at(bytes, at.offset, shape->le))),
                        )
                    } else {
                        at.result
                    },
                },
            )
        },
    }
}

/// The progress after a list of blocks.
pub open spec fn after_blocks(
    shape: BlockShape,
    blocks: Seq<Json>,
    params: Json,
    bytes: Seq<u8>,
    devices: Seq<DeviceView>,
    at: Progress,
) -> Option<Progress>
    decreases blocks.len(),
{
    if blocks.len() == 0 {
        Some(at)
    } else {
        match after_blocks(shape, blocks.drop_last(), params, bytes, devices, at) {
            Some(mid) => after_block(shape, blocks.last(), params, bytes, devices, mid),
            None => None,
        }
    }
}

/// The shape and the name of an entry of blocks.
pub open spec fn shape_of(entry: ResponseEntryView) -> Option<(BlockShape, Seq<char>)> {
    match entry {
        ResponseEntryView::BlockWords { name, le } => Some((BlockShape::Words { le }, name)),
        ResponseEntryView::BlockBitsPacked { name, lsb_first } => Some(
            (BlockShape::Bits { lsb_first }, name),
        ),
        ResponseEntryView::BlockNibbles { name, high_first } => Some(
            (BlockShape::Nibbles { high_first }, name),
        ),
        ResponseEntryView::AsciiHex { .. } => None,
    }
}

/// The offset and the named values after one entry. An entry of blocks
/// reads one block for each descriptor that the bundle holds under its
/// name and puts the array of the blocks under that name. An entry of
/// hexadecimal text takes the rest of the response, which must hold only
/// `0-9A-Fa-f`.
pub open spec fn after_entry(
    entry: ResponseEntryView,
    params: Json,
    bytes: Seq<u8>,
    devices: Seq<DeviceView>,
    at: (int, Seq<(Seq<char>, Json)>),
) -> Option<(int, Seq<(Seq<char>, Json)>)> {
    match shape_of(entry) {
        Some((shape, name)) => match after_blocks(
            shape,
            descriptors(params, name),
            params,
            bytes,
            devices,
            Progress { offset: at.0, blocks: Seq::empty(), result: at.1 },
        ) {
            Some(end) => Some((end.offset, put_entry(end.result, name, Json::Array(end.blocks)))),
            None => None,
        },
        None => {
            let rest = bytes.skip(at.0);
            if all_hex(rest) {
                Some(
                    (
                        bytes.len() as int,
                        put_entry(at.1, entry->AsciiHex_name, Json::Str(ascii_text(rest))),
                    ),
                )
            } else {
                None
            }
        },
    }
}

/// The offset and the named values after a list of entries.
pub open spec fn after_entries(
    entries: Seq<ResponseEntryView>,
    params: Json,
    bytes: Seq<u8>,
    devices: Seq<DeviceView>,
) -> Option<(int, Seq<(Seq<char>, Json)>)>
    decreases entries.len(),
{
    if entries.len() == 0 {
        Some((0, Seq::empty()))
    } else {
        match after_entries(entries.drop_last(), params, bytes, devices) {
            Some(mid) => after_entry(entries.last(), params, bytes, devices, mid),
            None => None,
        }
    }
}

/// What a response body parses to under a command spec: an object with
/// one array of blocks, or one text, for each response entry, and the bit
/// views that words blocks asked for. `None` where a descriptor announces
/// no count, the response is too short, or a text holds a byte that is
/// not one of `0-9A-Fa-f`.
pub open spec fn spec_parse_response(
    c: CommandSpecView,
    params: Json,
    bytes: Seq<u8>,
    devices: Seq<DeviceView>,
) -> Option<Json> {
    match after_entries(c.response_entries, params, bytes, devices) {
        Some(end) => Some(Json::Object(end.1)),
        None => None,
    }
}

proof fn lemma_after_blocks_prefix(
    shape: BlockShape,
    blocks: Seq<Json>,
    params: Json,
    bytes: Seq<u8>,
    devices: Seq<DeviceView>,
    at: Progress,
    k: int,
)
    requires
        0 <= k <= blocks.len(),
        after_blocks(shape, blocks, params, bytes, devices, at) is Some,
    ensures
        after_blocks(shape, blocks.take(k), params, bytes, devices, at) is Some,
    decreases blocks.len(),
{
    if k == blocks.len() {
        assert(blocks.take(k) =~= blocks);
    } else {
        lemma_after_blocks_prefix(shape, blocks.drop_last(), params, bytes, devices, at, k);
        assert(blocks.drop_last().take(k) =~= blocks.take(k));
    }
}

proof fn lemma_after_entries_prefix(
    entries: Seq<ResponseEntryView>,
    params: Json,
    bytes: Seq<u8>,
    devices: Seq<DeviceView>,
    k: int,
)
    requires
        0 <= k <= entries.len(),
        after_entries(entries, params, bytes, devices) is Some,
    ensures
        after_entries(entries.take(k), params, bytes, devices) is Some,
    decreases entries.len(),
{
    if k == entries.len() {
        assert(entries.take(k) =~= entries);
    } else {
        lemma_after_entries_prefix(entries.drop_last(), params, bytes, devices, k);
        assert(entries.drop_last().take(k) =~= entries.take(k));
    }
}

/// Adds `item` to the array under `key`. Where the name has no array, it
/// gets one that holds the item.
pub fn push_array_in_result_map(result: &mut Vec<(String, Value)>, key: &str, item: Value)
    ensures
        named_views(final(result)@) == push_array(named_views(old(result)@), key@, item@),
{
    let ghost before_views = named_views(result@);
    let ghost item_view = item@;
    match find_named(result, key) {
        Some(i) => {
            let (name, held) = result.remove(i);
            assert(name@ == before_views[i as int].0);
            assert(held@ == before_views[i as int].1);
            let ghost mid_views = named_views(result@);
            let grown = match held {
                Value::Array(items) => {
                    let mut items = items;
                    proof {
                        lemma_array_view(items);
                    }
                    let ghost old_items = views(items@);
                    items.push(item);
                    proof {
                        lemma_array_view(items);
                        assert(views(items@) =~= old_items.push(item_view));
                    }
                    Value::Array(items)
                },
                _ => {
                    let mut items: Vec<Value> = Vec::new();
                    items.push(item);
                    proof {
                        lemma_array_view(items);
                        assert(views(items@) =~= seq![item_view]);
                    }
                    Value::Array(items)
                },
            };
            let ghost grown_view = grown@;
            result.insert(i, (owned(key), grown));
            assert(named_views(result@) =~= before_views.update(i as int, (key@, grown_view)));
        },
        None => {
            let mut items: Vec<Value> = Vec::new();
            items.push(item);
            proof {
                lemma_array_view(items);
                assert(views(items@) =~= seq![item_view]);
            }
            let fresh = Value::Array(items);
            let ghost fresh_view = fresh@;
            result.push((owned(key), fresh));
            assert(named_views(result@) =~= before_views.push((key@, fresh_view)));
        },
    }
}

impl CommandSpec {
    /// Checks that `needed` bytes are there from `offset` on.
    pub fn ensure_bytes_available(bytes: &[u8], offset: usize, needed: usize, kind: &str) -> (r:
        Result<(), MelsecError>)
        ensures
            r is Ok <==> offset + needed <= bytes@.len(),
            r is Err ==> r->Err_0 is Protocol,
    {
        if offset > bytes.len() || needed > bytes.len() - offset {
            return Err(MelsecError::Protocol(owned("response too short for ").concat(kind)));
        }
        Ok(())
    }

    /// The number of points that a block descriptor announces.
    pub fn read_block_count(block: &Value, name: &str) -> (r: Result<usize, MelsecError>)
        ensures
            match block_count(block@) {
                Some(n) => r is Ok && r->Ok_0 == n,
                None => r is Err && r->Err_0 is Protocol,
            },
    {
        match block.get("count") {
            Some(v) => match v.as_u64() {
                Some(n) => {
                    if n <= usize::MAX as u64 {
                        Ok(n as usize)
                    } else {
                        Err(MelsecError::Protocol(owned("count out of range for block ").concat(name)))
                    }
                },
                None => Err(MelsecError::Protocol(owned("missing count in block ").concat(name))),
            },
            None => Err(MelsecError::Protocol(owned("missing count in block ").concat(name))),
        }
    }
}

/// The bytes that `count` points of the shape take, if that many fit a
/// length.
fn shape_bytes(shape: &BlockShape, count: usize) -> (r: Option<usize>)
    ensures
        match r {
            Some(n) => n == shape.bytes_needed(count as nat),
            None => shape.bytes_needed(count as nat) > usize::MAX,
        },
{
    match shape {
        BlockShape::Words { .. } => {
            if count > usize::MAX / 2 {
                None
            } else {
                Some(count * 2)
            }
        },
        BlockShape::Bits { .. } => Some(count / 8 + (if count % 8 == 0 {
            0
        } else {
            1
        })),
        BlockShape::Nibbles { .. } => Some(count / 2 + count % 2),
    }
}

/// Reads the points of a block of `count` points that starts at `offset`.
fn read_points(shape: &BlockShape, bytes: &[u8], offset: usize, count: usize) -> (r: Vec<Value>)
    requires
        offset + shape.bytes_needed(count as nat) <= bytes@.len(),
    ensures
        views(r@) == shape.points(bytes@, offset as int, count as nat),
{
    let mut out: Vec<Value> = Vec::new();
    let ghost want = shape.points(bytes@, offset as int, count as nat);
    let total = bytes.len();
    let mut i: usize = 0;
    while i < count
        invariant
            i <= count,
            out.len() == i,
            total == bytes@.len(),
            offset + shape.bytes_needed(count as nat) <= bytes@.len(),
            want == shape.points(bytes@, offset as int, count as nat),
            forall|k: int| 0 <= k < i ==> (#[trigger] out@[k])@ == want[k],
        decreases count - i,
    {
        let item = match shape {
            BlockShape::Words { le } => {
                assert(shape.bytes_needed(count as nat) == 2 * count);
                let b0 = bytes[offset + 2 * i];
                let b1 = bytes[offset + 2 * i + 1];
                let w = if *le {
                    u16_from_le(b0, b1)
                } else {
                    u16_from_le(b1, b0)
                };
                Value::UInt(w as u64)
            },
            BlockShape::Bits { lsb_first } => {
                let b = bytes[offset + i / 8];
                let k: u8 = if *lsb_first {
                    (i % 8) as u8
                } else {
                    (7 - i % 8) as u8
                };
                Value::Bool((b >> k) & 1 == 1)
            },
            BlockShape::Nibbles { high_first } => {
                let b = bytes[offset + i / 2];
                if (i % 2 == 0) == *high_first {
                    Value::Bool(b / 16 != 0)
                } else {
                    Value::Bool(b % 16 != 0)
                }
            },
        };
        assert(item@ == want[i as int]);
        out.push(item);
        i = i + 1;
    }
    assert(views(out@) =~= want);
    out
}

/// The 16 bits of a word, least significant first.
fn word_bits(w: u16) -> (r: Vec<Value>)
    ensures
        views(r@) == bits16(w),
{
    let mut out: Vec<Value> = Vec::new();
    let mut i: u16 = 0;
    while i < 16
        invariant
            i <= 16,
            out.len() == i,
            forall|k: int| 0 <= k < i ==> (#[trigger] out@[k])@ == bits16(w)[k],
        decreases 16 - i,
    {
        out.push(Value::Bool((w >> i) & 1 == 1));
        i = i + 1;
    }
    assert(views(out@) =~= bits16(w));
    out
}

/// True if a words block of `count` words gets a view of its bits.
fn bit_view_wanted(block: &Value, params: &Value, count: usize, catalog: &DeviceCatalog) -> (r: bool)
    ensures
        r == wants_bit_view(block@, params@, count as nat, catalog@),
{
    if count != 1 {
        return false;
    }
    let own = match block.get("device_code") {
        Some(v) => v.as_u64(),
        None => None,
    };
    let code = match own {
        Some(c) => Some(c),
        None => match params.get("device_code") {
            Some(v) => v.as_u64(),
            None => None,
        },
    };
    match code {
        Some(c) => {
            if c > 0xFF {
                return false;
            }
            match device_by_code(catalog, c as u8) {
                Some(dev) => dev.category == DeviceType::Bit,
                None => false,
            }
        },
        None => false,
    }
}

/// The block descriptors that the bundle holds under `name`.
fn descriptors_of<'a>(params: &'a Value, name: &str) -> (r: Option<&'a Vec<Value>>)
    ensures
        match r {
            Some(blocks) => views(blocks@) == descriptors(params@, name@),
            None => descriptors(params@, name@).len() == 0,
        },
{
    match params.get(name) {
        Some(v) => v.as_array(),
        None => None,
    }
}

/// Reads the blocks of one entry and puts their array under the name of
/// the entry.
#[verifier::loop_isolation(false)]
fn parse_blocks_entry(
    shape: BlockShape,
    name: &str,
    params: &Value,
    bytes: &[u8],
    offset: &mut usize,
    result: &mut Vec<(String, Value)>,
    catalog: &DeviceCatalog,
) -> (r: Result<(), MelsecError>)
    requires
        *old(offset) <= bytes@.len(),
    ensures
        match after_blocks(
            shape,
            descriptors(params@, name@),
            params@,
            bytes@,
            catalog@,
            Progress {
                offset: *old(offset) as int,
                blocks: Seq::empty(),
                result: named_views(old(result)@),
            },
        ) {
            Some(end) => r is Ok && *final(offset) == end.offset && end.offset <= bytes@.len()
                && named_views(final(result)@) == put_entry(
                end.result,
                name@,
                Json::Array(end.blocks),
            ),
            None => r is Err && r->Err_0 is Protocol,
        },
{
    let ghost start = Progress {
        offset: *offset as int,
        blocks: Seq::empty(),
        result: named_views(result@),
    };
    let ghost all = descriptors(params@, name@);
    let total = bytes.len();
    let mut out_blocks: Vec<Value> = Vec::new();
    assert(views(out_blocks@) =~= Seq::<Json>::empty());
    match descriptors_of(params, name) {
        None => {
            assert(all =~= Seq::<Json>::empty());
        },
        Some(blocks) => {
            let mut i: usize = 0;
            assert(all.take(0) =~= Seq::<Json>::empty());
            while i < blocks.len()
                invariant
                    i <= blocks.len(),
                    *offset <= bytes@.len(),
                    after_blocks(shape, all.take(i as int), params@, bytes@, catalog@, start) == Some(
                        Progress {
                            offset: *offset as int,
                            blocks: views(out_blocks@),
                            result: named_views(result@),
                        },
                    ),
                decreases blocks.len() - i,
            {
                let ghost mid = Progress {
                    offset: *offset as int,
                    blocks: views(out_blocks@),
                    result: named_views(result@),
                };
                proof {
                    assert(all.take(i + 1).drop_last() =~= all.take(i as int));
                    assert(all.take(i + 1).last() == blocks@[i as int]@);
                }
                let block = &blocks[i];
                let count = match CommandSpec::read_block_count(block, name) {
                    Ok(c) => c,
                    Err(e) => {
                        proof {
                            if after_blocks(shape, all, params@, bytes@, catalog@, start) is Some {
                                lemma_after_blocks_prefix(
                                    shape,
                                    all,
                                    params@,
                                    bytes@,
                                    catalog@,
                                    start,
                                    i + 1,
                                );
                            }
                        }
                        return Err(e);
                    },
                };
                let needed = match shape_bytes(&shape, count) {
                    Some(n) => n,
                    None => {
                        proof {
                            if after_blocks(shape, all, params@, bytes@, catalog@, start) is Some {
                                lemma_after_blocks_prefix(
                                    shape,
                                    all,
                                    params@,
                                    bytes@,
                                    catalog@,
                                    start,
                                    i + 1,
                                );
                            }
                        }
                        return Err(MelsecError::protocol("count too large"));
                    },
                };
                match CommandSpec::ensure_bytes_available(bytes, *offset, needed, "block") {
                    Ok(()) => {},
                    Err(e) => {
                        proof {
                            if after_blocks(shape, all, params@, bytes@, catalog@, start) is Some {
                                lemma_after_blocks_prefix(
                                    shape,
                                    all,
                                    params@,
                                    bytes@,
                                    catalog@,
                                    start,
                                    i + 1,
                                );
                            }
                        }
                        return Err(e);
                    },
                }
                let points = read_points(&shape, bytes, *offset, count);
                let ghost points_view = views(points@);
                let ghost blocks_before = views(out_blocks@);
                proof {
                    lemma_array_view(points);
                }
                match shape {
                    BlockShape::Words { le } => {
                        if bit_view_wanted(block, params, count, catalog) {
                            let w = if le {
                                u16_from_le(bytes[*offset], bytes[*offset + 1])
                            } else {
                                u16_from_le(bytes[*offset + 1], bytes[*offset])
                            };
                            let bits = word_bits(w);
                            proof {
                                lemma_array_view(bits);
                            }
                            push_array_in_result_map(result, "bit_blocks", Value::Array(bits));
                        }
                    },
                    _ => {},
                }
                out_blocks.push(Value::Array(points));
                assert(views(out_blocks@) =~= blocks_before.push(Json::Array(points_view)));
                *offset = *offset + needed;
                i = i + 1;
            }
            assert(all.take(i as int) =~= all);
        },
    }
    proof {
        lemma_array_view(out_blocks);
    }
    put_named(result, name, Value::Array(out_blocks));
    Ok(())
}

impl CommandSpec {
    /// Reads the blocks of a words entry.
    fn parse_block_words_entry(
        name: &str,
        le: bool,
        params: &Value,
        bytes: &[u8],
        offset: &mut usize,
        result: &mut Vec<(String, Value)>,
        catalog: &DeviceCatalog,
    ) -> (r: Result<(), MelsecError>)
        requires
            *old(offset) <= bytes@.len(),
        ensures
            stepped(
                ResponseEntryView::BlockWords { name: name@, le },
                params@,
                bytes@,
                catalog@,
                (*old(offset) as int, named_views(old(result)@)),
                (*final(offset) as int, named_views(final(result)@)),
                r,
            ),
    {
        parse_blocks_entry(BlockShape::Words { le }, name, params, bytes, offset, result, catalog)
    }

    /// Reads the blocks of a packed-bits entry.
    fn parse_block_bits_packed_entry(
        name: &str,
        lsb_first: bool,
        params: &Value,
        bytes: &[u8],
        offset: &mut usize,
        result: &mut Vec<(String, Value)>,
        catalog: &DeviceCatalog,
    ) -> (r: Result<(), MelsecError>)
        requires
            *old(offset) <= bytes@.len(),
        ensures
            stepped(
                ResponseEntryView::BlockBitsPacked { name: name@, lsb_first },
                params@,
                bytes@,
                catalog@,
                (*old(offset) as int, named_views(old(result)@)),
                (*final(offset) as int, named_views(final(result)@)),
                r,
            ),
    {
        parse_blocks_entry(
            BlockShape::Bits { lsb_first },
            name,
            params,
            bytes,
            offset,
            result,
            catalog,
        )
    }

    /// Reads the blocks of a nibbles entry.
    fn parse_block_nibbles_entry(
        name: &str,
        high_first: bool,
        params: &Value,
        bytes: &[u8],
        offset: &mut usize,
        result: &mut Vec<(String, Value)>,
        catalog: &DeviceCatalog,
    ) -> (r: Result<(), MelsecError>)
        requires
            *old(offset) <= bytes@.len(),
        ensures
            stepped(
                ResponseEntryView::BlockNibbles { name: name@, high_first },
                params@,
                bytes@,
                catalog@,
                (*old(offset) as int, named_views(old(result)@)),
                (*final(offset) as int, named_views(final(result)@)),
                r,
            ),
    {
        parse_blocks_entry(
            BlockShape::Nibbles { high_first },
            name,
            params,
            bytes,
            offset,
            result,
            catalog,
        )
    }

    /// Reads the rest of the response as hexadecimal text.
    #[verifier::loop_isolation(false)]
    fn parse_ascii_hex_entry(
        name: &str,
        bytes: &[u8],
        offset: &mut usize,
        result: &mut Vec<(String, Value)>,
    ) -> (r: Result<(), MelsecError>)
        requires
            *old(offset) <= bytes@.len(),
        ensures
            match (if all_hex(bytes@.skip(*old(offset) as int)) {
                Some(
                    (
                        bytes@.len() as int,
                        put_entry(
                            named_views(old(result)@),
                            name@,
                            Json::Str(ascii_text(bytes@.skip(*old(offset) as int))),
                        ),
                    ),
                )
            } else {
                None
            }) {
                Some(end) => r is Ok && *final(offset) == end.0 && named_views(final(result)@)
                    == end.1,
                None => r is Err && r->Err_0 is Protocol,
            },
    {
        let ghost rest = bytes@.skip(*offset as int);
        let mut text = String::new();
        let mut i: usize = *offset;
        assert(text@ =~= ascii_text(rest.take(0)));
        while i < bytes.len()
            invariant
                *offset <= i <= bytes.len(),
                forall|k: int| 0 <= k < i - *offset ==> crate::request_builder::is_hex(#[trigger] rest[k]),
                text@ == ascii_text(rest.take(i - *offset)),
            decreases bytes.len() - i,
        {
            let b = bytes[i];
            assert(rest[i - *offset] == b);
            if !crate::request_builder::is_hex_byte(b) {
                return Err(MelsecError::protocol("response ascii_hex contains invalid byte"));
            }
            text.push(b as char);
            assert(text@ =~= ascii_text(rest.take(i - *offset + 1)));
            i = i + 1;
        }
        assert(rest.take(i - *offset) =~= rest);
        put_named(result, name, Value::Str(text));
        *offset = bytes.len();
        Ok(())
    }
}

/// True if `r` and the state `to` are what one entry makes of the state
/// `from`.
pub open spec fn stepped(
    entry: ResponseEntryView,
    params: Json,
    bytes: Seq<u8>,
    devices: Seq<DeviceView>,
    from: (int, Seq<(Seq<char>, Json)>),
    to: (int, Seq<(Seq<char>, Json)>),
    r: Result<(), MelsecError>,
) -> bool {
    match after_entry(entry, params, bytes, devices, from) {
        Some(end) => r is Ok && to == end && end.0 <= bytes.len(),
        None => r is Err && r->Err_0 is Protocol,
    }
}

impl CommandSpec {
    /// Reads the entries of the response in order.
    #[verifier::loop_isolation(false)]
    pub fn parse_response_entries(
        &self,
        params: &Value,
        bytes: &[u8],
        result: &mut Vec<(String, Value)>,
        catalog: &DeviceCatalog,
    ) -> (r: Result<(), MelsecError>)
        requires
            old(result)@.len() == 0,
        ensures
            match after_entries(self@.response_entries, params@, bytes@, catalog@) {
                Some(end) => r is Ok && named_views(final(result)@) == end.1,
                None => r is Err && r->Err_0 is Protocol,
            },
    {
        let ghost all = self@.response_entries;
        let mut offset: usize = 0;
        let mut i: usize = 0;
        assert(all.take(0) =~= Seq::<ResponseEntryView>::empty());
        assert(named_views(result@) =~= Seq::<(Seq<char>, Json)>::empty());
        while i < self.response_entries.len()
            invariant
                i <= self.response_entries.len(),
                offset <= bytes@.len(),
                after_entries(all.take(i as int), params@, bytes@, catalog@) == Some(
                    (offset as int, named_views(result@)),
                ),
            decreases self.response_entries.len() - i,
        {
            proof {
                assert(all.take(i + 1).drop_last() =~= all.take(i as int));
                assert(all.take(i + 1).last() == self.response_entries@[i as int]@);
            }
            let res = match &self.response_entries[i] {
                ResponseEntry::BlockWords { name, le } => CommandSpec::parse_block_words_entry(
                    name.as_str(),
                    *le,
                    params,
                    bytes,
                    &mut offset,
                    result,
                    catalog,
                ),
                ResponseEntry::BlockBitsPacked {
                    name,
                    lsb_first,
                } => CommandSpec::parse_block_bits_packed_entry(
                    name.as_str(),
                    *lsb_first,
                    params,
                    bytes,
                    &mut offset,
                    result,
                    catalog,
                ),
                ResponseEntry::BlockNibbles {
                    name,
                    high_first,
                } => CommandSpec::parse_block_nibbles_entry(
                    name.as_str(),
                    *high_first,
                    params,
                    bytes,
                    &mut offset,
                    result,
                    catalog,
                ),
                ResponseEntry::AsciiHex { name } => CommandSpec::parse_ascii_hex_entry(
                    name.as_str(),
                    bytes,
                    &mut offset,
                    result,
                ),
            };
            match res {
                Ok(()) => {},
                Err(e) => {
                    proof {
                        if after_entries(all, params@, bytes@, catalog@) is Some {
                            lemma_after_entries_prefix(all, params@, bytes@, catalog@, i + 1);
                        }
                    }
                    return Err(e);
                },
            }
            i = i + 1;
        }
        assert(all.take(i as int) =~= all);
        Ok(())
    }

    /// Parses the body of a response, given the bundle that built the
    /// request. Returns an object that holds, for each response entry, the
    /// array of its blocks or its text.
    pub fn parse_response(&self, params: &Value, bytes: &[u8], catalog: &DeviceCatalog) -> (r:
        Result<Value, MelsecError>)
        ensures
            match spec_parse_response(self@, params@, bytes@, catalog@) {
                Some(v) => r is Ok && r->Ok_0@ == v,
                None => r is Err && r->Err_0 is Protocol,
            },
    {
        let mut result: Vec<(String, Value)> = Vec::new();
        match self.parse_response_entries(params, bytes, &mut result, catalog) {
            Ok(()) => {
                proof {
                    lemma_object_view(result);
                }
                Ok(Value::Object(result))
            },
            Err(e) => Err(e),
        }
    }
}

/// A response is rejected where the bytes that an entry of hexadecimal
/// text takes hold a byte that is not one of `0-9A-Fa-f`.
pub proof fn lemma_non_hex_response_rejects(
    c: CommandSpecView,
    params: Json,
    bytes: Seq<u8>,
    devices: Seq<DeviceView>,
    k: int,
)
    requires
        0 <= k < c.response_entries.len(),
        c.response_entries[k] is AsciiHex,
        match after_entries(c.response_entries.take(k), params, bytes, devices) {
            Some(at) => !all_hex(bytes.skip(at.0)),
            None => true,
        },
    ensures
        spec_parse_response(c, params, bytes, devices) is None,
{
    let entries = c.response_entries;
    if after_entries(entries, params, bytes, devices) is Some {
        lemma_after_entries_prefix(entries, params, bytes, devices, k + 1);
        assert(entries.take(k + 1).drop_last() =~= entries.take(k));
        assert(entries.take(k + 1).last() == entries[k]);
    }
}

} // verus!
