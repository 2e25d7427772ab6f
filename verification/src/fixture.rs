//! Response fixtures: the bytes that stand for structured response data,
//! and the proof that the response parser reads them back.

use vstd::prelude::*;
use vstd::string::*;
use crate::command_registry::{CommandSpec, CommandSpecView, ResponseEntry, ResponseEntryView};
use crate::device::DeviceView;
use crate::error::MelsecError;
use crate::mc_define::{high_byte, low_byte};
use crate::request_builder::{all_hex, is_hex};
use crate::response_parser::{
    after_block, after_blocks, after_entries, ascii_text, bit_of, block_count, descriptors,
    put_entry, shape_of, spec_parse_response, wants_bit_view, word_at, BlockShape, Progress,
};
use crate::text::{chars_of, owned, str_eq};
use crate::value::{
    index_of_key, lemma_array_view, lemma_index_of_key, lemma_object_view, named_views, views, Json,
    Value,
};

verus! {

/// 1 for a point that is on, 0 for any other.
pub open spec fn point_bit(points: Seq<Json>, i: int) -> u8 {
    if 0 <= i < points.len() && points[i] == Json::Bool(true) {
        1
    } else {
        0
    }
}

/// The byte whose bit `k` is `x[k]`.
pub open spec fn pack8(x0: u8, x1: u8, x2: u8, x3: u8, x4: u8, x5: u8, x6: u8, x7: u8) -> u8 {
    x0 | (x1 << 1) | (x2 << 2) | (x3 << 3) | (x4 << 4) | (x5 << 5) | (x6 << 6) | (x7 << 7)
}

/// Byte `j` of a block of packed bits.
pub open spec fn packed_byte(points: Seq<Json>, j: int, lsb_first: bool) -> u8 {
    if lsb_first {
        pack8(
            point_bit(points, 8 * j),
            point_bit(points, 8 * j + 1),
            point_bit(points, 8 * j + 2),
            point_bit(points, 8 * j + 3),
            point_bit(points, 8 * j + 4),
            point_bit(points, 8 * j + 5),
            point_bit(points, 8 * j + 6),
            point_bit(points, 8 * j + 7),
        )
    } else {
        pack8(
            point_bit(points, 8 * j + 7),
            point_bit(points, 8 * j + 6),
            point_bit(points, 8 * j + 5),
            point_bit(points, 8 * j + 4),
            point_bit(points, 8 * j + 3),
            point_bit(points, 8 * j + 2),
            point_bit(points, 8 * j + 1),
            point_bit(points, 8 * j),
        )
    }
}

/// Byte `j` of a block of nibbles: 1 in the nibble of a point that is on.
pub open spec fn nibble_byte(points: Seq<Json>, j: int, high_first: bool) -> u8 {
    if high_first {
        (16 * point_bit(points, 2 * j) + point_bit(points, 2 * j + 1)) as u8
    } else {
        (16 * point_bit(points, 2 * j + 1) + point_bit(points, 2 * j)) as u8
    }
}

/// Byte `t` of a block of words.
pub open spec fn word_byte(points: Seq<Json>, t: int, le: bool) -> u8 {
    let w = match points[t / 2] {
        Json::UInt(w) => w as int,
        _ => 0,
    };
    if (t % 2 == 0) == le {
        (w % 256) as u8
    } else {
        (w / 256) as u8
    }
}

/// The bytes that stand for the points of one block.
pub open spec fn points_bytes(shape: BlockShape, points: Seq<Json>) -> Seq<u8> {
    match shape {
        BlockShape::Words { le } => Seq::new(2 * points.len(), |t: int| word_byte(points, t, le)),
        BlockShape::Bits { lsb_first } => Seq::new(
            ((points.len() + 7) / 8) as nat,
            |j: int| packed_byte(points, j, lsb_first),
        ),
        BlockShape::Nibbles { high_first } => Seq::new(
            ((points.len() + 1) / 2) as nat,
            |j: int| nibble_byte(points, j, high_first),
        ),
    }
}

/// True if the points are such as a block of the shape holds: words of 16
/// bits, or truth values.
pub open spec fn valid_points(shape: BlockShape, points: Seq<Json>) -> bool {
    &&& points.len() <= usize::MAX
    &&& forall|i: int|
        0 <= i < points.len() ==> match #[trigger] points[i] {
            Json::UInt(w) => shape is Words && w <= 0xFFFF,
            Json::Bool(_) => !(shape is Words),
            _ => false,
        }
}

proof fn lemma_pack8(x0: u8, x1: u8, x2: u8, x3: u8, x4: u8, x5: u8, x6: u8, x7: u8)
    requires
        x0 <= 1,
        x1 <= 1,
        x2 <= 1,
        x3 <= 1,
        x4 <= 1,
        x5 <= 1,
        x6 <= 1,
        x7 <= 1,
    ensures
        bit_of(pack8(x0, x1, x2, x3, x4, x5, x6, x7), 0) == (x0 == 1),
        bit_of(pack8(x0, x1, x2, x3, x4, x5, x6, x7), 1) == (x1 == 1),
        bit_of(pack8(x0, x1, x2, x3, x4, x5, x6, x7), 2) == (x2 == 1),
        bit_of(pack8(x0, x1, x2, x3, x4, x5, x6, x7), 3) == (x3 == 1),
        bit_of(pack8(x0, x1, x2, x3, x4, x5, x6, x7), 4) == (x4 == 1),
        bit_of(pack8(x0, x1, x2, x3, x4, x5, x6, x7), 5) == (x5 == 1),
        bit_of(pack8(x0, x1, x2, x3, x4, x5, x6, x7), 6) == (x6 == 1),
        bit_of(pack8(x0, x1, x2, x3, x4, x5, x6, x7), 7) == (x7 == 1),
{
    let p = pack8(x0, x1, x2, x3, x4, x5, x6, x7);
    assert(((p >> 0u8) & 1 == 1) == (x0 == 1)) by (bit_vector)
        requires
            p == x0 | (x1 << 1) | (x2 << 2) | (x3 << 3) | (x4 << 4) | (x5 << 5) | (x6 << 6) | (x7
                << 7),
            x0 <= 1,
            x1 <= 1,
            x2 <= 1,
            x3 <= 1,
            x4 <= 1,
            x5 <= 1,
            x6 <= 1,
            x7 <= 1,
    ;
    assert(((p >> 1u8) & 1 == 1) == (x1 == 1)) by (bit_vector)
        requires
            p == x0 | (x1 << 1) | (x2 << 2) | (x3 << 3) | (x4 << 4) | (x5 << 5) | (x6 << 6) | (x7
                << 7),
            x0 <= 1,
            x1 <= 1,
            x2 <= 1,
            x3 <= 1,
            x4 <= 1,
            x5 <= 1,
            x6 <= 1,
            x7 <= 1,
    ;
    assert(((p >> 2u8) & 1 == 1) == (x2 == 1)) by (bit_vector)
        requires
            p == x0 | (x1 << 1) | (x2 << 2) | (x3 << 3) | (x4 << 4) | (x5 << 5) | (x6 << 6) | (x7
                << 7),
            x0 <= 1,
            x1 <= 1,
            x2 <= 1,
            x3 <= 1,
            x4 <= 1,
            x5 <= 1,
            x6 <= 1,
            x7 <= 1,
    ;
    assert(((p >> 3u8) & 1 == 1) == (x3 == 1)) by (bit_vector)
        requires
            p == x0 | (x1 << 1) | (x2 << 2) | (x3 << 3) | (x4 << 4) | (x5 << 5) | (x6 << 6) | (x7
                << 7),
            x0 <= 1,
            x1 <= 1,
            x2 <= 1,
            x3 <= 1,
            x4 <= 1,
            x5 <= 1,
            x6 <= 1,
            x7 <= 1,
    ;
    assert(((p >> 4u8) & 1 == 1) == (x4 == 1)) by (bit_vector)
        requires
            p == x0 | (x1 << 1) | (x2 << 2) | (x3 << 3) | (x4 << 4) | (x5 << 5) | (x6 << 6) | (x7
                << 7),
            x0 <= 1,
            x1 <= 1,
            x2 <= 1,
            x3 <= 1,
            x4 <= 1,
            x5 <= 1,
            x6 <= 1,
            x7 <= 1,
    ;
    assert(((p >> 5u8) & 1 == 1) == (x5 == 1)) by (bit_vector)
        requires
            p == x0 | (x1 << 1) | (x2 << 2) | (x3 << 3) | (x4 << 4) | (x5 << 5) | (x6 << 6) | (x7
                << 7),
            x0 <= 1,
            x1 <= 1,
            x2 <= 1,
            x3 <= 1,
            x4 <= 1,
            x5 <= 1,
            x6 <= 1,
            x7 <= 1,
    ;
    assert(((p >> 6u8) & 1 == 1) == (x6 == 1)) by (bit_vector)
        requires
            p == x0 | (x1 << 1) | (x2 << 2) | (x3 << 3) | (x4 << 4) | (x5 << 5) | (x6 << 6) | (x7
                << 7),
            x0 <= 1,
            x1 <= 1,
            x2 <= 1,
            x3 <= 1,
            x4 <= 1,
            x5 <= 1,
            x6 <= 1,
            x7 <= 1,
    ;
    assert(((p >> 7u8) & 1 == 1) == (x7 == 1)) by (bit_vector)
        requires
            p == x0 | (x1 << 1) | (x2 << 2) | (x3 << 3) | (x4 << 4) | (x5 << 5) | (x6 << 6) | (x7
                << 7),
            x0 <= 1,
            x1 <= 1,
            x2 <= 1,
            x3 <= 1,
            x4 <= 1,
            x5 <= 1,
            x6 <= 1,
            x7 <= 1,
    ;
}

/// Bit `k` of byte `j` of a block of packed bits is point `8 * j + k`,
/// counted from the least significant bit, or from the most significant.
proof fn lemma_packed_byte(points: Seq<Json>, j: int, k: int, lsb_first: bool)
    requires
        0 <= k < 8,
    ensures
        bit_of(
            packed_byte(points, j, lsb_first),
            (if lsb_first {
                k
            } else {
                7 - k
            }) as u8,
        ) == (point_bit(points, 8 * j + k) == 1),
{
    if lsb_first {
        lemma_pack8(
            point_bit(points, 8 * j),
            point_bit(points, 8 * j + 1),
            point_bit(points, 8 * j + 2),
            point_bit(points, 8 * j + 3),
            point_bit(points, 8 * j + 4),
            point_bit(points, 8 * j + 5),
            point_bit(points, 8 * j + 6),
            point_bit(points, 8 * j + 7),
        );
    } else {
        lemma_pack8(
            point_bit(points, 8 * j + 7),
            point_bit(points, 8 * j + 6),
            point_bit(points, 8 * j + 5),
            point_bit(points, 8 * j + 4),
            point_bit(points, 8 * j + 3),
            point_bit(points, 8 * j + 2),
            point_bit(points, 8 * j + 1),
            point_bit(points, 8 * j),
        );
    }
}

/// The points of a block read back from its bytes.
proof fn lemma_points_read_back(shape: BlockShape, points: Seq<Json>, bytes: Seq<u8>, offset: int)
    requires
        valid_points(shape, points),
        0 <= offset,
        offset + points_bytes(shape, points).len() <= bytes.len(),
        bytes.subrange(offset, offset + points_bytes(shape, points).len()) == points_bytes(
            shape,
            points,
        ),
    ensures
        points_bytes(shape, points).len() == shape.bytes_needed(points.len()),
        shape.points(bytes, offset, points.len()) == points,
{
    let enc = points_bytes(shape, points);
    let got = shape.points(bytes, offset, points.len());
    assert forall|i: int| 0 <= i < points.len() implies got[i] == points[i] by {
        match shape {
            BlockShape::Words { le } => {
                assert(bytes[offset + 2 * i] == enc[2 * i]) by {
                    assert(bytes.subrange(offset, offset + enc.len())[2 * i] == bytes[offset + 2
                        * i]);
                }
                assert(bytes[offset + 2 * i + 1] == enc[2 * i + 1]) by {
                    assert(bytes.subrange(offset, offset + enc.len())[2 * i + 1] == bytes[offset
                        + 2 * i + 1]);
                }
                assert((2 * i) / 2 == i && (2 * i + 1) / 2 == i);
                assert((2 * i) % 2 == 0 && (2 * i + 1) % 2 == 1);
                let w = points[i]->UInt_0;
                assert(points[i] == Json::UInt(w));
                assert(word_at(bytes, offset + 2 * i, le) == w);
            },
            BlockShape::Bits { lsb_first } => {
                let j = i / 8;
                let k = i % 8;
                assert(bytes[offset + j] == enc[j]) by {
                    assert(bytes.subrange(offset, offset + enc.len())[j] == bytes[offset + j]);
                }
                lemma_packed_byte(points, j, k, lsb_first);
                assert(8 * j + k == i);
                let b = points[i]->Bool_0;
                assert(points[i] == Json::Bool(b));
            },
            BlockShape::Nibbles { high_first } => {
                let j = i / 2;
                assert(bytes[offset + j] == enc[j]) by {
                    assert(bytes.subrange(offset, offset + enc.len())[j] == bytes[offset + j]);
                }
                let b = points[i]->Bool_0;
                assert(points[i] == Json::Bool(b));
                assert(i == 2 * j || i == 2 * j + 1);
            },
        }
    }
    assert(got =~= points);
}

/// The points of a block of a fixture.
pub open spec fn points_of(block: Json) -> Seq<Json> {
    match block {
        Json::Array(points) => points,
        _ => Seq::empty(),
    }
}

/// The bytes that stand for a run of blocks.
pub open spec fn blocks_bytes(shape: BlockShape, blocks: Seq<Json>) -> Seq<u8>
    decreases blocks.len(),
{
    if blocks.len() == 0 {
        Seq::empty()
    } else {
        blocks_bytes(shape, blocks.drop_last()) + points_bytes(shape, points_of(blocks.last()))
    }
}

/// True if every block is an array of points such as the shape holds.
pub open spec fn valid_blocks(shape: BlockShape, blocks: Seq<Json>) -> bool {
    forall|j: int|
        0 <= j < blocks.len() ==> (#[trigger] blocks[j]) is Array && valid_points(
            shape,
            points_of(blocks[j]),
        )
}

/// True if a descriptor announces the points of a block and asks for no
/// view of its bits.
pub open spec fn describes_block(
    shape: BlockShape,
    block: Json,
    descriptor: Json,
    params: Json,
    devices: Seq<DeviceView>,
) -> bool {
    &&& block_count(descriptor) == Some(points_of(block).len())
    &&& !(shape is Words && wants_bit_view(descriptor, params, points_of(block).len(), devices))
}

/// True if the descriptors announce the blocks, one for one.
pub open spec fn describes_blocks(
    shape: BlockShape,
    blocks: Seq<Json>,
    ds: Seq<Json>,
    params: Json,
    devices: Seq<DeviceView>,
) -> bool {
    &&& ds.len() == blocks.len()
    &&& forall|j: int|
        0 <= j < blocks.len() ==> describes_block(
            shape,
            #[trigger] blocks[j],
            ds[j],
            params,
            devices,
        )
}

/// The blocks of an entry read back from their bytes.
proof fn lemma_blocks_read_back(
    shape: BlockShape,
    blocks: Seq<Json>,
    ds: Seq<Json>,
    params: Json,
    bytes: Seq<u8>,
    devices: Seq<DeviceView>,
    offset: int,
    result: Seq<(Seq<char>, Json)>,
)
    requires
        valid_blocks(shape, blocks),
        describes_blocks(shape, blocks, ds, params, devices),
        0 <= offset,
        offset + blocks_bytes(shape, blocks).len() <= bytes.len(),
        bytes.subrange(offset, offset + blocks_bytes(shape, blocks).len()) == blocks_bytes(
            shape,
            blocks,
        ),
    ensures
        after_blocks(
            shape,
            ds,
            params,
            bytes,
            devices,
            Progress { offset, blocks: Seq::empty(), result },
        ) == Some(
            Progress { offset: offset + blocks_bytes(shape, blocks).len(), blocks, result },
        ),
    decreases blocks.len(),
{
    let start = Progress { offset, blocks: Seq::empty(), result };
    if blocks.len() == 0 {
        assert(blocks =~= Seq::<Json>::empty());
    } else {
        let head = blocks.drop_last();
        let head_bytes = blocks_bytes(shape, head);
        let points = points_of(blocks.last());
        let enc = points_bytes(shape, points);
        let all = blocks_bytes(shape, blocks);
        assert(all == head_bytes + enc);
        let window = bytes.subrange(offset, offset + all.len());
        assert(bytes.subrange(offset, offset + head_bytes.len()) =~= head_bytes) by {
            assert(window.subrange(0, head_bytes.len() as int) =~= head_bytes);
            assert(window.subrange(0, head_bytes.len() as int) =~= bytes.subrange(
                offset,
                offset + head_bytes.len(),
            ));
        }
        assert(valid_blocks(shape, head)) by {
            assert forall|j: int| 0 <= j < head.len() implies (#[trigger] head[j]) is Array
                && valid_points(shape, points_of(head[j])) by {
                assert(head[j] == blocks[j]);
            }
        }
        assert(describes_blocks(shape, head, ds.drop_last(), params, devices)) by {
            assert forall|j: int| 0 <= j < head.len() implies describes_block(
                shape,
                #[trigger] head[j],
                ds.drop_last()[j],
                params,
                devices,
            ) by {
                assert(head[j] == blocks[j]);
            }
        }
        lemma_blocks_read_back(shape, head, ds.drop_last(), params, bytes, devices, offset, result);
        let mid_offset = offset + head_bytes.len();
        let mid = Progress { offset: mid_offset, blocks: head, result };
        assert(bytes.subrange(mid_offset, mid_offset + enc.len()) =~= enc) by {
            assert(window.subrange(head_bytes.len() as int, all.len() as int) =~= enc);
            assert(window.subrange(head_bytes.len() as int, all.len() as int) =~= bytes.subrange(
                mid_offset,
                mid_offset + enc.len(),
            ));
        }
        let last_block = blocks[blocks.len() - 1];
        assert(last_block is Array && valid_points(shape, points_of(last_block)));
        assert(describes_block(shape, last_block, ds[blocks.len() - 1], params, devices));
        lemma_points_read_back(shape, points, bytes, mid_offset);
        assert(ds.last() == ds[blocks.len() - 1]);
        assert(head.push(Json::Array(points)) =~= blocks);
        assert(after_block(shape, ds.last(), params, bytes, devices, mid) == Some(
            Progress { offset: mid_offset + enc.len(), blocks, result },
        ));
    }
}

/// The name under which an entry puts what it reads.
pub open spec fn entry_name(entry: ResponseEntryView) -> Seq<char> {
    match entry {
        ResponseEntryView::BlockWords { name, .. } => name,
        ResponseEntryView::BlockBitsPacked { name, .. } => name,
        ResponseEntryView::BlockNibbles { name, .. } => name,
        ResponseEntryView::AsciiHex { name } => name,
    }
}

/// The bytes of a text of ASCII.
pub open spec fn text_bytes(text: Seq<char>) -> Seq<u8> {
    Seq::new(text.len(), |i: int| text[i] as u8)
}

/// True for the characters `0-9`, `A-F` and `a-f`.
pub open spec fn is_hex_char(c: char) -> bool {
    ('0' <= c <= '9') || ('A' <= c <= 'F') || ('a' <= c <= 'f')
}

/// The blocks of the value of an entry of blocks.
pub open spec fn blocks_in(value: Json) -> Seq<Json> {
    match value {
        Json::Array(blocks) => blocks,
        _ => Seq::empty(),
    }
}

/// The bytes that stand for the value of one entry.
pub open spec fn entry_bytes(entry: ResponseEntryView, value: Json) -> Seq<u8> {
    match shape_of(entry) {
        Some((shape, _)) => blocks_bytes(shape, blocks_in(value)),
        None => match value {
            Json::Str(text) => text_bytes(text),
            _ => Seq::empty(),
        },
    }
}

/// True if a value is such as the entry reads: an array of blocks of its
/// shape, or a text of `0-9A-Fa-f`.
pub open spec fn valid_entry_value(entry: ResponseEntryView, value: Json) -> bool {
    match shape_of(entry) {
        Some((shape, _)) => value is Array && valid_blocks(shape, blocks_in(value)),
        None => value is Str && forall|i: int|
            0 <= i < value->Str_0.len() ==> is_hex_char(#[trigger] value->Str_0[i]),
    }
}

/// The bytes that stand for structured response data under the response
/// entries of a spec: the bytes of each entry, in order.
pub open spec fn fixture_bytes(entries: Seq<ResponseEntryView>, data: Seq<(Seq<char>, Json)>) -> Seq<
    u8,
>
    decreases entries.len(),
{
    if entries.len() == 0 {
        Seq::empty()
    } else {
        fixture_bytes(entries.drop_last(), data.drop_last()) + entry_bytes(
            entries.last(),
            data.last().1,
        )
    }
}

/// True if no bytes stand for the values of the entries after entry `k`.
pub open spec fn nothing_after(
    entries: Seq<ResponseEntryView>,
    data: Seq<(Seq<char>, Json)>,
    k: int,
) -> bool {
    forall|j: int|
        k < j < entries.len() ==> entry_bytes(#[trigger] entries[j], data[j].1).len() == 0
}

/// True if structured response data fit the response entries of a spec:
/// one named value for each entry, in order, under the name of the entry,
/// and such as the entry reads. The names of the entries differ. An entry
/// of hexadecimal text takes all that is left of a response, so the
/// values of the entries after it stand for no bytes.
pub open spec fn valid_fixture(entries: Seq<ResponseEntryView>, data: Seq<(Seq<char>, Json)>) -> bool {
    &&& data.len() == entries.len()
    &&& forall|k: int|
        0 <= k < entries.len() ==> (#[trigger] data[k]).0 == entry_name(entries[k])
    &&& forall|k: int|
        0 <= k < entries.len() ==> valid_entry_value(entries[k], (#[trigger] data[k]).1)
    &&& forall|k: int|
        0 <= k < entries.len() && (#[trigger] entries[k]) is AsciiHex ==> nothing_after(
            entries,
            data,
            k,
        )
    &&& forall|i: int, j: int|
        0 <= i < j < entries.len() ==> (#[trigger] data[i]).0 != (#[trigger] data[j]).0
}

/// True if a bundle describes structured response data: for each entry of
/// blocks it holds, under the name of the entry, one descriptor for each
/// block, which announces the points of the block and asks for no view of
/// its bits.
pub open spec fn describes(
    params: Json,
    entries: Seq<ResponseEntryView>,
    data: Seq<(Seq<char>, Json)>,
    devices: Seq<DeviceView>,
) -> bool {
    forall|k: int|
        0 <= k < entries.len() ==> match shape_of(#[trigger] entries[k]) {
            Some((shape, name)) => describes_blocks(
                shape,
                blocks_in(data[k].1),
                descriptors(params, name),
                params,
                devices,
            ),
            None => true,
        }
}

/// The bytes of the first `k` entries stand at the head of the bytes of
/// all.
proof fn lemma_fixture_prefix(
    entries: Seq<ResponseEntryView>,
    data: Seq<(Seq<char>, Json)>,
    k: int,
)
    requires
        data.len() == entries.len(),
        0 <= k <= entries.len(),
    ensures
        fixture_bytes(entries.take(k), data.take(k)).len() <= fixture_bytes(entries, data).len(),
        fixture_bytes(entries, data).subrange(
            0,
            fixture_bytes(entries.take(k), data.take(k)).len() as int,
        ) == fixture_bytes(entries.take(k), data.take(k)),
    decreases entries.len(),
{
    let all = fixture_bytes(entries, data);
    if k == entries.len() {
        assert(entries.take(k) =~= entries);
        assert(data.take(k) =~= data);
        assert(all.subrange(0, all.len() as int) =~= all);
    } else {
        lemma_fixture_prefix(entries.drop_last(), data.drop_last(), k);
        assert(entries.drop_last().take(k) =~= entries.take(k));
        assert(data.drop_last().take(k) =~= data.take(k));
        let head = fixture_bytes(entries.drop_last(), data.drop_last());
        let part = fixture_bytes(entries.take(k), data.take(k));
        assert(all.subrange(0, part.len() as int) =~= head.subrange(0, part.len() as int));
    }
}

/// Where nothing stands after entry `k`, the bytes of all entries are
/// those of the entries up to `k`.
proof fn lemma_nothing_after(
    entries: Seq<ResponseEntryView>,
    data: Seq<(Seq<char>, Json)>,
    k: int,
)
    requires
        data.len() == entries.len(),
        0 <= k < entries.len(),
        nothing_after(entries, data, k),
    ensures
        fixture_bytes(entries, data) == fixture_bytes(entries.take(k + 1), data.take(k + 1)),
    decreases entries.len(),
{
    if entries.len() == k + 1 {
        assert(entries.take(k + 1) =~= entries);
        assert(data.take(k + 1) =~= data);
    } else {
        let head = entries.drop_last();
        let head_data = data.drop_last();
        let last = entries.len() - 1;
        assert(entries.last() == entries[last]);
        assert(data.last() == data[last]);
        assert(entry_bytes(entries[last], data[last].1).len() == 0);
        assert(nothing_after(head, head_data, k)) by {
            assert forall|j: int| k < j < head.len() implies entry_bytes(
                #[trigger] head[j],
                head_data[j].1,
            ).len() == 0 by {
                assert(head[j] == entries[j]);
                assert(head_data[j] == data[j]);
            }
        }
        lemma_nothing_after(head, head_data, k);
        assert(head.take(k + 1) =~= entries.take(k + 1));
        assert(head_data.take(k + 1) =~= data.take(k + 1));
        assert(fixture_bytes(entries, data) =~= fixture_bytes(head, head_data));
    }
}

/// A name that none of the named values has is put at the end.
proof fn lemma_put_fresh(entries: Seq<(Seq<char>, Json)>, key: Seq<char>, value: Json)
    requires
        forall|i: int| 0 <= i < entries.len() ==> (#[trigger] entries[i]).0 != key,
    ensures
        put_entry(entries, key, value) == entries.push((key, value)),
{
    lemma_index_of_key(entries, key);
}

/// After the first `k` entries the parser stands behind their bytes and
/// has read their values.
proof fn lemma_entries_read_back(
    entries: Seq<ResponseEntryView>,
    data: Seq<(Seq<char>, Json)>,
    params: Json,
    devices: Seq<DeviceView>,
    k: int,
)
    requires
        valid_fixture(entries, data),
        describes(params, entries, data, devices),
        0 <= k <= entries.len(),
    ensures
        after_entries(entries.take(k), params, fixture_bytes(entries, data), devices) == Some(
            (fixture_bytes(entries.take(k), data.take(k)).len() as int, data.take(k)),
        ),
    decreases k,
{
    let bytes = fixture_bytes(entries, data);
    if k == 0 {
        assert(entries.take(0) =~= Seq::<ResponseEntryView>::empty());
        assert(data.take(0) =~= Seq::<(Seq<char>, Json)>::empty());
    } else {
        let i = k - 1;
        lemma_entries_read_back(entries, data, params, devices, i);
        lemma_fixture_prefix(entries, data, i);
        lemma_fixture_prefix(entries, data, k);
        let done = entries.take(k);
        assert(done.drop_last() =~= entries.take(i));
        assert(done.last() == entries[i]);
        assert(data.take(k).drop_last() =~= data.take(i));
        assert(data.take(k).last() == data[i]);
        let before_bytes = fixture_bytes(entries.take(i), data.take(i));
        let upto = fixture_bytes(entries.take(k), data.take(k));
        let enc = entry_bytes(entries[i], data[i].1);
        assert(upto == before_bytes + enc);
        let off = before_bytes.len() as int;
        let read = data.take(i);
        assert(bytes.subrange(off, off + enc.len()) =~= enc) by {
            assert(bytes.subrange(0, upto.len() as int).subrange(off, off + enc.len()) =~= enc);
            assert(bytes.subrange(0, upto.len() as int).subrange(off, off + enc.len())
                =~= bytes.subrange(off, off + enc.len()));
        }
        let name = entry_name(entries[i]);
        assert(data[i].0 == name);
        assert forall|j: int| 0 <= j < read.len() implies (#[trigger] read[j]).0 != name by {
            assert(read[j] == data[j]);
        }
        assert(valid_entry_value(entries[i], data[i].1));
        match shape_of(entries[i]) {
            Some((shape, n)) => {
                assert(n == name);
                let blocks = blocks_in(data[i].1);
                assert(data[i].1 == Json::Array(blocks));
                lemma_blocks_read_back(
                    shape,
                    blocks,
                    descriptors(params, name),
                    params,
                    bytes,
                    devices,
                    off,
                    read,
                );
                lemma_put_fresh(read, name, Json::Array(blocks));
                assert(read.push((name, Json::Array(blocks))) =~= data.take(k));
            },
            None => {
                assert(entries[i] is AsciiHex);
                lemma_nothing_after(entries, data, i);
                assert(bytes == upto);
                let text = data[i].1->Str_0;
                assert(data[i].1 == Json::Str(text));
                assert(enc == text_bytes(text));
                assert(bytes.skip(off) =~= enc);
                assert(all_hex(enc)) by {
                    assert forall|t: int| 0 <= t < enc.len() implies is_hex(#[trigger] enc[t]) by {
                        assert(is_hex_char(text[t]));
                    }
                }
                assert(ascii_text(enc) =~= text) by {
                    assert forall|t: int| 0 <= t < text.len() implies ascii_text(enc)[t]
                        == text[t] by {
                        assert(is_hex_char(text[t]));
                    }
                }
                lemma_put_fresh(read, name, Json::Str(text));
                assert(read.push((name, Json::Str(text))) =~= data.take(k));
            },
        }
    }
}

/// The response parser reads structured response data back from the
/// bytes that stand for them: for every command spec, all data that fit its
/// response entries, and every bundle that describes the data.
pub proof fn lemma_fixture_round_trip(
    c: CommandSpecView,
    data: Seq<(Seq<char>, Json)>,
    params: Json,
    devices: Seq<DeviceView>,
)
    requires
        valid_fixture(c.response_entries, data),
        describes(params, c.response_entries, data, devices),
    ensures
        spec_parse_response(c, params, fixture_bytes(c.response_entries, data), devices) == Some(
            Json::Object(data),
        ),
{
    let entries = c.response_entries;
    lemma_entries_read_back(entries, data, params, devices, entries.len() as int);
    assert(entries.take(entries.len() as int) =~= entries);
    assert(data.take(entries.len() as int) =~= data);
}

/// The descriptor that announces the points of a block.
pub open spec fn count_descriptor(block: Json) -> Json {
    Json::Object(seq![("count"@, Json::UInt(points_of(block).len() as u64))])
}

/// The descriptors that announce the blocks of a value.
pub open spec fn count_descriptors(value: Json) -> Json {
    Json::Array(
        Seq::new(blocks_in(value).len(), |j: int| count_descriptor(blocks_in(value)[j])),
    )
}

/// The bundle that describes structured response data and nothing else:
/// under each name the descriptors of the blocks that the data hold there.
pub open spec fn fixture_params(data: Seq<(Seq<char>, Json)>) -> Json {
    Json::Object(Seq::new(data.len(), |k: int| (data[k].0, count_descriptors(data[k].1))))
}

/// The bundle of the descriptors describes the data.
proof fn lemma_fixture_params_describe(
    entries: Seq<ResponseEntryView>,
    data: Seq<(Seq<char>, Json)>,
    devices: Seq<DeviceView>,
)
    requires
        valid_fixture(entries, data),
    ensures
        describes(fixture_params(data), entries, data, devices),
{
    let params = fixture_params(data);
    let named = Seq::new(data.len(), |k: int| (data[k].0, count_descriptors(data[k].1)));
    reveal_strlit("count");
    reveal_strlit("device_code");
    assert(params.get("device_code"@) matches Some(v) ==> v is Array) by {
        lemma_index_of_key(named, "device_code"@);
    }
    assert forall|k: int| 0 <= k < entries.len() implies match shape_of(#[trigger] entries[k]) {
        Some((shape, name)) => describes_blocks(
            shape,
            blocks_in(data[k].1),
            descriptors(params, name),
            params,
            devices,
        ),
        None => true,
    } by {
        match shape_of(entries[k]) {
            Some((shape, name)) => {
                assert(data[k].0 == entry_name(entries[k]));
                assert(name == data[k].0);
                lemma_index_of_key(named, name);
                assert(named[k].0 == name);
                assert(index_of_key(named, name) == Some(k)) by {
                    let found = index_of_key(named, name)->0;
                    if found < k {
                        assert(named[found].0 == data[found].0);
                        assert(data[found].0 != data[k].0);
                    }
                }
                let blocks = blocks_in(data[k].1);
                let ds = descriptors(params, name);
                assert(ds =~= Seq::new(blocks.len(), |j: int| count_descriptor(blocks[j])));
                assert(valid_entry_value(entries[k], data[k].1));
                assert forall|j: int| 0 <= j < blocks.len() implies describes_block(
                    shape,
                    #[trigger] blocks[j],
                    ds[j],
                    params,
                    devices,
                ) by {
                    let n = points_of(blocks[j]).len();
                    assert(valid_points(shape, points_of(blocks[j])));
                    let fields = seq![("count"@, Json::UInt(n as u64))];
                    assert(ds[j] == Json::Object(fields));
                    assert(index_of_key(fields, "count"@) == Some(0int));
                    lemma_index_of_key(fields, "device_code"@);
                    assert(fields[0].0 != "device_code"@) by {
                        assert("count"@.len() != "device_code"@.len());
                    }
                    assert(ds[j].get("device_code"@) is None);
                }
            },
            None => {},
        }
    }
}

/// The response parser reads structured response data back from the
/// bytes that stand for them, given the bundle of their descriptors: for
/// every command spec and all data that fit its response entries.
pub proof fn lemma_fixture_round_trip_described(
    c: CommandSpecView,
    data: Seq<(Seq<char>, Json)>,
    devices: Seq<DeviceView>,
)
    requires
        valid_fixture(c.response_entries, data),
    ensures
        spec_parse_response(
            c,
            fixture_params(data),
            fixture_bytes(c.response_entries, data),
            devices,
        ) == Some(Json::Object(data)),
{
    lemma_fixture_params_describe(c.response_entries, data, devices);
    lemma_fixture_round_trip(c, data, fixture_params(data), devices);
}

/// 1 for a point that is on, 0 for any other.
fn bit_at(points: &Vec<Value>, i: usize) -> (r: u8)
    ensures
        r == point_bit(views(points@), i as int),
        r <= 1,
{
    if i < points.len() {
        match &points[i] {
            Value::Bool(b) => {
                if *b {
                    1
                } else {
                    0
                }
            },
            _ => 0,
        }
    } else {
        0
    }
}

/// 1 for the point `k` places behind `base` that is on, 0 for any other.
fn bit_behind(points: &Vec<Value>, base: usize, k: usize) -> (r: u8)
    requires
        base < points.len(),
    ensures
        r == point_bit(views(points@), base + k),
        r <= 1,
{
    if k < points.len() - base {
        bit_at(points, base + k)
    } else {
        0
    }
}

/// True if the points are such as a block of the shape holds.
fn points_are_valid(shape: &BlockShape, points: &Vec<Value>) -> (r: bool)
    ensures
        r == valid_points(*shape, views(points@)),
{
    let ghost ps = views(points@);
    let words = match shape {
        BlockShape::Words { .. } => true,
        _ => false,
    };
    let mut i: usize = 0;
    while i < points.len()
        invariant
            i <= points.len(),
            ps == views(points@),
            words == (*shape is Words),
            forall|k: int|
                0 <= k < i ==> match #[trigger] ps[k] {
                    Json::UInt(w) => *shape is Words && w <= 0xFFFF,
                    Json::Bool(_) => !(*shape is Words),
                    _ => false,
                },
        decreases points.len() - i,
    {
        assert(ps[i as int] == points@[i as int]@);
        let ok = match &points[i] {
            Value::UInt(w) => words && *w <= 0xFFFF,
            Value::Bool(_) => !words,
            _ => false,
        };
        if !ok {
            return false;
        }
        i = i + 1;
    }
    true
}

/// Appends the bytes that stand for the points of one block.
fn write_points(shape: &BlockShape, points: &Vec<Value>, out: &mut Vec<u8>)
    requires
        valid_points(*shape, views(points@)),
    ensures
        final(out)@ == old(out)@ + points_bytes(*shape, views(points@)),
{
    let ghost ps = views(points@);
    let ghost enc = points_bytes(*shape, ps);
    let n = points.len();
    assert(out@ =~= old(out)@ + enc.take(0));
    match shape {
        BlockShape::Words { le } => {
            let mut i: usize = 0;
            while i < n
                invariant
                    i <= n,
                    n == points.len(),
                    ps == views(points@),
                    valid_points(*shape, ps),
                    *shape == (BlockShape::Words { le: *le }),
                    enc == points_bytes(*shape, ps),
                    out@ == old(out)@ + enc.take(2 * i),
                decreases n - i,
            {
                assert(ps[i as int] == points@[i as int]@);
                let w = match &points[i] {
                    Value::UInt(w) => *w as u16,
                    _ => 0,
                };
                let (first, second) = if *le {
                    (low_byte(w), high_byte(w))
                } else {
                    (high_byte(w), low_byte(w))
                };
                proof {
                    assert((2 * i) / 2 == i && (2 * i + 1) / 2 == i);
                    assert((2 * i) % 2 == 0 && (2 * i + 1) % 2 == 1);
                    assert(enc[2 * i] == first);
                    assert(enc[2 * i + 1] == second);
                    assert(enc.take(2 * i + 2) =~= enc.take(2 * i).push(first).push(second));
                }
                out.push(first);
                out.push(second);
                assert(out@ =~= old(out)@ + enc.take(2 * (i + 1)));
                i = i + 1;
            }
            assert(enc.take(2 * n) =~= enc);
        },
        BlockShape::Bits { lsb_first } => {
            let count = n / 8 + (if n % 8 == 0 {
                0
            } else {
                1
            });
            let mut j: usize = 0;
            while j < count
                invariant
                    j <= count,
                    n == points.len(),
                    count == (n + 7) / 8,
                    ps == views(points@),
                    *shape == (BlockShape::Bits { lsb_first: *lsb_first }),
                    enc == points_bytes(*shape, ps),
                    out@ == old(out)@ + enc.take(j as int),
                decreases count - j,
            {
                let base = 8 * j;
                let x0 = bit_behind(points, base, 0);
                let x1 = bit_behind(points, base, 1);
                let x2 = bit_behind(points, base, 2);
                let x3 = bit_behind(points, base, 3);
                let x4 = bit_behind(points, base, 4);
                let x5 = bit_behind(points, base, 5);
                let x6 = bit_behind(points, base, 6);
                let x7 = bit_behind(points, base, 7);
                let b = if *lsb_first {
                    x0 | (x1 << 1) | (x2 << 2) | (x3 << 3) | (x4 << 4) | (x5 << 5) | (x6 << 6) | (x7
                        << 7)
                } else {
                    x7 | (x6 << 1) | (x5 << 2) | (x4 << 3) | (x3 << 4) | (x2 << 5) | (x1 << 6) | (x0
                        << 7)
                };
                proof {
                    assert(enc[j as int] == b);
                    assert(enc.take(j + 1) =~= enc.take(j as int).push(b));
                }
                out.push(b);
                j = j + 1;
            }
            assert(enc.take(count as int) =~= enc);
        },
        BlockShape::Nibbles { high_first } => {
            let count = n / 2 + n % 2;
            let mut j: usize = 0;
            while j < count
                invariant
                    j <= count,
                    n == points.len(),
                    count == (n + 1) / 2,
                    ps == views(points@),
                    *shape == (BlockShape::Nibbles { high_first: *high_first }),
                    enc == points_bytes(*shape, ps),
                    out@ == old(out)@ + enc.take(j as int),
                decreases count - j,
            {
                let base = 2 * j;
                let first = bit_behind(points, base, 0);
                let second = bit_behind(points, base, 1);
                let b = if *high_first {
                    16 * first + second
                } else {
                    16 * second + first
                };
                proof {
                    assert(enc[j as int] == b);
                    assert(enc.take(j + 1) =~= enc.take(j as int).push(b));
                }
                out.push(b);
                j = j + 1;
            }
            assert(enc.take(count as int) =~= enc);
        },
    }
}

/// Appends the bytes that stand for a run of blocks, each of which must be
/// an array of points such as the shape holds. Returns whether they are.
#[verifier::loop_isolation(false)]
fn write_blocks(shape: &BlockShape, blocks: &Vec<Value>, out: &mut Vec<u8>) -> (r: bool)
    ensures
        r == valid_blocks(*shape, views(blocks@)),
        r ==> final(out)@ == old(out)@ + blocks_bytes(*shape, views(blocks@)),
{
    let ghost bs = views(blocks@);
    let mut i: usize = 0;
    assert(bs.take(0) =~= Seq::<Json>::empty());
    assert(out@ =~= old(out)@ + blocks_bytes(*shape, bs.take(0)));
    while i < blocks.len()
        invariant
            i <= blocks.len(),
            forall|j: int|
                0 <= j < i ==> (#[trigger] bs[j]) is Array && valid_points(
                    *shape,
                    points_of(bs[j]),
                ),
            out@ == old(out)@ + blocks_bytes(*shape, bs.take(i as int)),
        decreases blocks.len() - i,
    {
        let ghost done = blocks_bytes(*shape, bs.take(i as int));
        assert(bs[i as int] == blocks@[i as int]@);
        proof {
            assert(bs.take(i + 1).drop_last() =~= bs.take(i as int));
            assert(bs.take(i + 1).last() == bs[i as int]);
        }
        let points = match blocks[i].as_array() {
            Some(p) => p,
            None => {
                assert(!(bs[i as int] is Array));
                return false;
            },
        };
        assert(points_of(bs[i as int]) == views(points@));
        if !points_are_valid(shape, points) {
            assert(!valid_points(*shape, points_of(bs[i as int])));
            return false;
        }
        write_points(shape, points, out);
        assert(out@ =~= old(out)@ + (done + points_bytes(*shape, views(points@))));
        i = i + 1;
    }
    assert(bs.take(i as int) =~= bs);
    true
}

/// The shape of an entry of blocks.
fn shape_of_entry(entry: &ResponseEntry) -> (r: Option<BlockShape>)
    ensures
        match shape_of(entry@) {
            Some((shape, _)) => r == Some(shape),
            None => r is None,
        },
{
    match entry {
        ResponseEntry::BlockWords { le, .. } => Some(BlockShape::Words { le: *le }),
        ResponseEntry::BlockBitsPacked { lsb_first, .. } => Some(
            BlockShape::Bits { lsb_first: *lsb_first },
        ),
        ResponseEntry::BlockNibbles { high_first, .. } => Some(
            BlockShape::Nibbles { high_first: *high_first },
        ),
        ResponseEntry::AsciiHex { .. } => None,
    }
}

/// The name under which an entry puts what it reads.
fn name_of_entry(entry: &ResponseEntry) -> (r: &str)
    ensures
        r@ == entry_name(entry@),
{
    match entry {
        ResponseEntry::BlockWords { name, .. } => name.as_str(),
        ResponseEntry::BlockBitsPacked { name, .. } => name.as_str(),
        ResponseEntry::BlockNibbles { name, .. } => name.as_str(),
        ResponseEntry::AsciiHex { name } => name.as_str(),
    }
}

/// Appends the bytes of a text of `0-9A-Fa-f`. Returns whether the text is
/// one.
#[verifier::loop_isolation(false)]
fn write_hex_text(text: &str, out: &mut Vec<u8>) -> (r: bool)
    ensures
        r == (forall|i: int| 0 <= i < text@.len() ==> is_hex_char(#[trigger] text@[i])),
        r ==> final(out)@ == old(out)@ + text_bytes(text@),
{
    let cs = chars_of(text);
    let ghost enc = text_bytes(text@);
    let mut i: usize = 0;
    assert(out@ =~= old(out)@ + enc.take(0));
    while i < cs.len()
        invariant
            i <= cs.len(),
            forall|k: int| 0 <= k < i ==> is_hex_char(#[trigger] text@[k]),
            out@ == old(out)@ + enc.take(i as int),
        decreases cs.len() - i,
    {
        let c = cs[i];
        if !(('0' <= c && c <= '9') || ('A' <= c && c <= 'F') || ('a' <= c && c <= 'f')) {
            return false;
        }
        out.push(c as u8);
        assert(out@ =~= old(out)@ + enc.take(i + 1));
        i = i + 1;
    }
    assert(enc.take(i as int) =~= enc);
    true
}

/// Appends the bytes that stand for the value of one entry. Returns
/// whether the value is such as the entry reads.
fn write_entry_value(entry: &ResponseEntry, value: &Value, out: &mut Vec<u8>) -> (r: bool)
    ensures
        r == valid_entry_value(entry@, value@),
        r ==> final(out)@ == old(out)@ + entry_bytes(entry@, value@),
{
    match shape_of_entry(entry) {
        Some(shape) => match value.as_array() {
            Some(blocks) => write_blocks(&shape, blocks, out),
            None => false,
        },
        None => match value.as_str() {
            Some(text) => write_hex_text(text, out),
            None => false,
        },
    }
}

impl CommandSpec {
    /// Writes the bytes that stand for structured response data under the
    /// response entries of the spec. The data are an object with one value
    /// for each entry, in order and under the name of the entry. Fails
    /// where the data do not fit the entries.
    pub fn build_response_fixture(&self, data: &Value) -> (r: Result<Vec<u8>, MelsecError>)
        ensures
            match data@ {
                Json::Object(d) => if valid_fixture(self@.response_entries, d) {
                    r is Ok && r->Ok_0@ == fixture_bytes(self@.response_entries, d)
                } else {
                    r is Err && r->Err_0 is Protocol
                },
                _ => r is Err && r->Err_0 is Protocol,
            },
    {
        let named = match data {
            Value::Object(named) => named,
            _ => {
                return Err(MelsecError::protocol("response data must be an object"));
            },
        };
        proof {
            lemma_object_view(*named);
        }
        let ghost d = named_views(named@);
        let ghost entries = self@.response_entries;
        let n = self.response_entries.len();
        if named.len() != n {
            return Err(MelsecError::protocol("response data do not match the response entries"));
        }
        let mut out: Vec<u8> = Vec::new();
        let mut k: usize = 0;
        let mut text_seen = false;
        let ghost mut first_text: int = 0;
        assert(entries.take(0) =~= Seq::<ResponseEntryView>::empty());
        while k < n
            invariant
                k <= n,
                n == self.response_entries.len(),
                n == named.len(),
                data@ == Json::Object(d),
                d == named_views(named@),
                entries == self@.response_entries,
                out@ == fixture_bytes(entries.take(k as int), d.take(k as int)),
                forall|i: int| 0 <= i < k ==> (#[trigger] d[i]).0 == entry_name(entries[i]),
                forall|i: int| 0 <= i < k ==> valid_entry_value(entries[i], (#[trigger] d[i]).1),
                text_seen ==> 0 <= first_text < k && entries[first_text] is AsciiHex,
                text_seen ==> forall|j: int|
                    first_text < j < k ==> entry_bytes(#[trigger] entries[j], d[j].1).len() == 0,
                forall|i: int|
                    0 <= i < k && (#[trigger] entries[i]) is AsciiHex ==> text_seen && first_text
                        <= i,
                forall|i: int, j: int|
                    0 <= i < j < k ==> (#[trigger] d[i]).0 != (#[trigger] d[j]).0,
            decreases n - k,
        {
            let entry = &self.response_entries[k];
            assert(entries[k as int] == entry@);
            assert(d[k as int] == (named@[k as int].0@, named@[k as int].1@));
            proof {
                assert(entries.take(k + 1).drop_last() =~= entries.take(k as int));
                assert(entries.take(k + 1).last() == entries[k as int]);
                assert(d.take(k + 1).drop_last() =~= d.take(k as int));
                assert(d.take(k + 1).last() == d[k as int]);
            }
            let ghost done = out@;
            if !str_eq(named[k].0.as_str(), name_of_entry(entry)) {
                return Err(
                    MelsecError::protocol("response data do not match the response entries"),
                );
            }
            let is_text = match entry {
                ResponseEntry::AsciiHex { .. } => true,
                _ => false,
            };
            let mut j: usize = 0;
            let mut twice = false;
            while j < k
                invariant
                    j <= k < n,
                    n == named.len(),
                    d == named_views(named@),
                    twice ==> exists|i: int| 0 <= i < k && (#[trigger] d[i]).0 == d[k as int].0,
                    !twice ==> forall|i: int| 0 <= i < j ==> (#[trigger] d[i]).0 != d[k as int].0,
                decreases k - j,
            {
                assert(d[j as int] == (named@[j as int].0@, named@[j as int].1@));
                if str_eq(named[j].0.as_str(), named[k].0.as_str()) {
                    twice = true;
                }
                j = j + 1;
            }
            if twice {
                return Err(MelsecError::protocol("response data name a value twice"));
            }
            let len_before = out.len();
            if !write_entry_value(entry, &named[k].1, &mut out) {
                return Err(MelsecError::protocol("response data do not fit the response entry"));
            }
            assert(out@ =~= done + entry_bytes(entries[k as int], d[k as int].1));
            if text_seen && out.len() != len_before {
                proof {
                    assert(entry_bytes(entries[k as int], d[k as int].1).len() != 0);
                    assert(!nothing_after(entries, d, first_text));
                }
                return Err(MelsecError::protocol("nothing can follow a text entry"));
            }
            if is_text && !text_seen {
                text_seen = true;
                proof {
                    first_text = k as int;
                }
            }
            k = k + 1;
        }
        assert(entries.take(k as int) =~= entries);
        assert(d.take(k as int) =~= d);
        proof {
            assert forall|i: int| 0 <= i < entries.len() && (#[trigger] entries[i])
                is AsciiHex implies nothing_after(entries, d, i) by {
                assert(first_text <= i);
            }
        }
        Ok(out)
    }

    /// The bundle that describes structured response data: under each name
    /// the descriptors of the blocks that the data hold there.
    pub fn describe_fixture(data: &Value) -> (r: Value)
        ensures
            data@ matches Json::Object(d) ==> r@ == fixture_params(d),
    {
        let named = match data {
            Value::Object(named) => named,
            _ => {
                return Value::Null;
            },
        };
        proof {
            lemma_object_view(*named);
        }
        let ghost d = named_views(named@);
        let ghost want = fixture_params(d)->Object_0;
        let mut out: Vec<(String, Value)> = Vec::new();
        let mut k: usize = 0;
        while k < named.len()
            invariant
                k <= named.len(),
                d == named_views(named@),
                want == fixture_params(d)->Object_0,
                out.len() == k,
                forall|i: int|
                    0 <= i < k ==> (#[trigger] out@[i]).0@ == want[i].0 && out@[i].1@ == want[i].1,
            decreases named.len() - k,
        {
            let mut ds: Vec<Value> = Vec::new();
            let ghost value = d[k as int].1;
            assert(value == named@[k as int].1@);
            match named[k].1.as_array() {
                Some(blocks) => {
                    let ghost bs = views(blocks@);
                    assert(blocks_in(value) == bs);
                    let mut j: usize = 0;
                    while j < blocks.len()
                        invariant
                            j <= blocks.len(),
                            bs == views(blocks@),
                            ds.len() == j,
                            forall|i: int|
                                0 <= i < j ==> (#[trigger] ds@[i])@ == count_descriptor(bs[i]),
                        decreases blocks.len() - j,
                    {
                        assert(bs[j as int] == blocks@[j as int]@);
                        let count = match blocks[j].as_array() {
                            Some(points) => points.len() as u64,
                            None => 0,
                        };
                        let mut fields: Vec<(String, Value)> = Vec::new();
                        fields.push((owned("count"), Value::UInt(count)));
                        proof {
                            lemma_object_view(fields);
                            assert(named_views(fields@) =~= seq![("count"@, Json::UInt(count))]);
                        }
                        ds.push(Value::Object(fields));
                        j = j + 1;
                    }
                },
                None => {
                    assert(blocks_in(value) =~= Seq::<Json>::empty());
                },
            }
            proof {
                lemma_array_view(ds);
                assert(views(ds@) =~= count_descriptors(value)->Array_0);
            }
            out.push((named[k].0.clone(), Value::Array(ds)));
            k = k + 1;
        }
        proof {
            lemma_object_view(out);
            assert(named_views(out@) =~= want);
        }
        Value::Object(out)
    }
}

} // verus!
