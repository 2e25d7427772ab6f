//! Parameter bundles for the common read and write commands.

use vstd::prelude::*;
use vstd::string::*;
use crate::device::{
    device_by_symbol, index_of_symbol, parse_device_and_address, spec_parse_address, upper,
    DeviceCatalog, DeviceView,
};
use crate::text::{ascii_upper, chars_of, is_ascii_letter, owned, spec_is_ascii_letter};
use crate::value::{lemma_array_view, lemma_object_view, named_views, views, Json, Value};

verus! {

/// True if every character is a letter of ASCII.
pub open spec fn all_letters(s: Seq<char>) -> bool {
    forall|k: int| 0 <= k < s.len() ==> spec_is_ascii_letter(#[trigger] s[k])
}

/// The entries that an address text gives a bundle: the start address and
/// the device code. A text of letters alone stands for address 0 of the
/// device of that symbol, and gives no device code where the catalog has
/// no such device. Any other text that is no address gives nothing.
pub open spec fn address_entries(devices: Seq<DeviceView>, device: Seq<char>) -> Seq<
    (Seq<char>, Json),
> {
    match spec_parse_address(devices, device) {
        Some((i, a)) => seq![
            ("start_addr"@, Json::UInt(a as u64)),
            ("device_code"@, Json::UInt(devices[i].code as u64)),
        ],
        None => if all_letters(device) {
            match index_of_symbol(devices, upper(device)) {
                Some(i) => seq![
                    ("start_addr"@, Json::UInt(0)),
                    ("device_code"@, Json::UInt(devices[i].code as u64)),
                ],
                None => seq![("start_addr"@, Json::UInt(0))],
            }
        } else {
            Seq::empty()
        },
    }
}

/// A block descriptor that announces `count` points.
pub open spec fn count_block(count: u64) -> Json {
    Json::Object(seq![("count"@, Json::UInt(count))])
}

/// The bundle that reads `count` words from `device`.
pub open spec fn spec_read_words_params(devices: Seq<DeviceView>, device: Seq<char>, count: u16) -> Json {
    Json::Object(
        address_entries(devices, device) + seq![
            ("count"@, Json::UInt(count as u64)),
            ("data_blocks"@, Json::Array(seq![count_block(count as u64)])),
        ],
    )
}

/// The bundle that reads `count` bits from `device`.
pub open spec fn spec_read_bits_params(devices: Seq<DeviceView>, device: Seq<char>, count: u16) -> Json {
    Json::Object(
        address_entries(devices, device) + seq![
            ("count"@, Json::UInt(count as u64)),
            ("bit_blocks"@, Json::Array(seq![count_block(count as u64)])),
            ("data_blocks"@, Json::Array(seq![count_block(count as u64)])),
        ],
    )
}

/// The words as items of a bundle.
pub open spec fn word_items(values: Seq<u16>) -> Seq<Json> {
    Seq::new(values.len(), |i: int| Json::UInt(values[i] as u64))
}

/// The bundle that writes the words to `device`.
pub open spec fn spec_write_words_params(
    devices: Seq<DeviceView>,
    device: Seq<char>,
    values: Seq<u16>,
) -> Json {
    Json::Object(
        address_entries(devices, device) + seq![
            ("count"@, Json::UInt(values.len() as u64)),
            ("data"@, Json::Array(word_items(values))),
        ],
    )
}

/// The byte that holds the points `2 * j` and `2 * j + 1`: the first in
/// the high nibble, the second, if there is one, in the low nibble.
pub open spec fn nibble_pair(values: Seq<bool>, j: int) -> u8 {
    let high: u8 = if values[2 * j] {
        0x10
    } else {
        0
    };
    let low: u8 = if 2 * j + 1 < values.len() && values[2 * j + 1] {
        0x01
    } else {
        0
    };
    (high + low) as u8
}

/// The points packed two to the byte, as items of a bundle.
pub open spec fn nibble_items(values: Seq<bool>) -> Seq<Json> {
    Seq::new(((values.len() + 1) / 2) as nat, |j: int| Json::UInt(nibble_pair(values, j) as u64))
}

/// The bundle that writes the bits to `device`.
pub open spec fn spec_write_bits_params(
    devices: Seq<DeviceView>,
    device: Seq<char>,
    values: Seq<bool>,
) -> Json {
    Json::Object(
        address_entries(devices, device) + seq![
            ("count"@, Json::UInt(values.len() as u64)),
            ("payload"@, Json::Array(nibble_items(values))),
        ],
    )
}

/// The entries that an address text gives a bundle.
#[verifier::loop_isolation(false)]
fn address_params(catalog: &DeviceCatalog, device: &str) -> (r: Vec<(String, Value)>)
    ensures
        named_views(r@) == address_entries(catalog@, device@),
{
    let mut out: Vec<(String, Value)> = Vec::new();
    match parse_device_and_address(catalog, device) {
        Ok((dev, addr)) => {
            out.push((owned("start_addr"), Value::UInt(addr as u64)));
            out.push((owned("device_code"), Value::UInt(dev.device_code_q() as u64)));
            assert(named_views(out@) =~= address_entries(catalog@, device@));
        },
        Err(_) => {
            let cs = chars_of(device);
            let mut up = String::new();
            let mut i: usize = 0;
            while i < cs.len()
                invariant
                    i <= cs.len(),
                    forall|k: int| 0 <= k < i ==> spec_is_ascii_letter(#[trigger] cs@[k]),
                    up@ == upper(cs@.take(i as int)),
                decreases cs.len() - i,
            {
                if !is_ascii_letter(cs[i]) {
                    assert(named_views(out@) =~= address_entries(catalog@, device@));
                    return out;
                }
                up.push(ascii_upper(cs[i]));
                assert(up@ =~= upper(cs@.take(i + 1)));
                i = i + 1;
            }
            assert(cs@.take(i as int) =~= cs@);
            out.push((owned("start_addr"), Value::UInt(0)));
            match device_by_symbol(catalog, up.as_str()) {
                Some(dev) => {
                    out.push((owned("device_code"), Value::UInt(dev.device_code_q() as u64)));
                },
                None => {},
            }
            assert(named_views(out@) =~= address_entries(catalog@, device@));
        },
    }
    out
}

/// A block descriptor that announces `count` points.
fn count_descriptor(count: u64) -> (r: Value)
    ensures
        r@ == count_block(count),
{
    let mut entries: Vec<(String, Value)> = Vec::new();
    entries.push((owned("count"), Value::UInt(count)));
    proof {
        lemma_object_view(entries);
        assert(named_views(entries@) =~= seq![("count"@, Json::UInt(count))]);
    }
    Value::Object(entries)
}

/// An array that holds one block descriptor.
fn one_block(count: u64) -> (r: Value)
    ensures
        r@ == Json::Array(seq![count_block(count)]),
{
    let mut blocks: Vec<Value> = Vec::new();
    blocks.push(count_descriptor(count));
    proof {
        lemma_array_view(blocks);
        assert(views(blocks@) =~= seq![count_block(count)]);
    }
    Value::Array(blocks)
}

/// The bundle that reads `count` words from `device`, an address text such
/// as `D500`. It holds the descriptor of the one block that the response
/// brings.
pub fn create_read_words_params(catalog: &DeviceCatalog, device: &str, count: u16) -> (r: Value)
    ensures
        r@ == spec_read_words_params(catalog@, device@, count),
{
    let mut params = address_params(catalog, device);
    let ghost head = named_views(params@);
    let blocks = one_block(count as u64);
    params.push((owned("count"), Value::UInt(count as u64)));
    params.push((owned("data_blocks"), blocks));
    proof {
        lemma_object_view(params);
        assert(named_views(params@) =~= head + seq![
            ("count"@, Json::UInt(count as u64)),
            ("data_blocks"@, Json::Array(seq![count_block(count as u64)])),
        ]);
    }
    Value::Object(params)
}

/// The bundle that reads `count` bits from `device`. It holds the
/// descriptor of the one block under both names that a response entry may
/// have.
pub fn create_read_bits_params(catalog: &DeviceCatalog, device: &str, count: u16) -> (r: Value)
    ensures
        r@ == spec_read_bits_params(catalog@, device@, count),
{
    let mut params = address_params(catalog, device);
    let ghost head = named_views(params@);
    let bit_blocks = one_block(count as u64);
    let data_blocks = one_block(count as u64);
    params.push((owned("count"), Value::UInt(count as u64)));
    params.push((owned("bit_blocks"), bit_blocks));
    params.push((owned("data_blocks"), data_blocks));
    proof {
        lemma_object_view(params);
        assert(named_views(params@) =~= head + seq![
            ("count"@, Json::UInt(count as u64)),
            ("bit_blocks"@, Json::Array(seq![count_block(count as u64)])),
            ("data_blocks"@, Json::Array(seq![count_block(count as u64)])),
        ]);
    }
    Value::Object(params)
}

/// The bundle that writes the words to `device`.
pub fn create_write_words_params(catalog: &DeviceCatalog, device: &str, values: &[u16]) -> (r: Value)
    ensures
        r@ == spec_write_words_params(catalog@, device@, values@),
{
    let mut params = address_params(catalog, device);
    let ghost head = named_views(params@);
    let mut items: Vec<Value> = Vec::new();
    let mut i: usize = 0;
    while i < values.len()
        invariant
            i <= values.len(),
            items.len() == i,
            forall|k: int| 0 <= k < i ==> (#[trigger] items@[k])@ == Json::UInt(values@[k] as u64),
        decreases values.len() - i,
    {
        items.push(Value::UInt(values[i] as u64));
        i = i + 1;
    }
    proof {
        lemma_array_view(items);
        assert(views(items@) =~= word_items(values@));
    }
    params.push((owned("count"), Value::UInt(values.len() as u64)));
    params.push((owned("data"), Value::Array(items)));
    proof {
        lemma_object_view(params);
        assert(named_views(params@) =~= head + seq![
            ("count"@, Json::UInt(values@.len() as u64)),
            ("data"@, Json::Array(word_items(values@))),
        ]);
    }
    Value::Object(params)
}

/// The bundle that writes the bits to `device`. The payload packs two
/// points to the byte, the first of them in the high nibble.
pub fn create_write_bits_params(catalog: &DeviceCatalog, device: &str, values: &[bool]) -> (r: Value)
    ensures
        r@ == spec_write_bits_params(catalog@, device@, values@),
{
    let mut params = address_params(catalog, device);
    let ghost head = named_views(params@);
    let n = values.len();
    let pairs = n / 2 + n % 2;
    let mut items: Vec<Value> = Vec::new();
    let mut j: usize = 0;
    while j < pairs
        invariant
            j <= pairs,
            n == values.len(),
            pairs == (n + 1) / 2,
            items.len() == j,
            forall|k: int|
                0 <= k < j ==> (#[trigger] items@[k])@ == Json::UInt(nibble_pair(values@, k) as u64),
        decreases pairs - j,
    {
        let high: u8 = if values[2 * j] {
            0x10
        } else {
            0
        };
        let low: u8 = if 2 * j + 1 < n && values[2 * j + 1] {
            0x01
        } else {
            0
        };
        items.push(Value::UInt((high + low) as u64));
        j = j + 1;
    }
    proof {
        lemma_array_view(items);
        assert(views(items@) =~= nibble_items(values@));
    }
    params.push((owned("count"), Value::UInt(n as u64)));
    params.push((owned("payload"), Value::Array(items)));
    proof {
        lemma_object_view(params);
        assert(named_views(params@) =~= head + seq![
            ("count"@, Json::UInt(values@.len() as u64)),
            ("payload"@, Json::Array(nibble_items(values@))),
        ]);
    }
    Value::Object(params)
}

} // verus!
